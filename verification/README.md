# vm_snapshot

The snapshot, restore and dirty-page tracking logic of a microVM monitor, verified with Verus.

- `src/` is the library. Every function states in its contract what it returns, and Verus proves
  it. Public proof functions whose names start with `law_` state what holds of several functions
  together.
  - `bitmap`, `dirty_ring`, `ring_caps`, `ring_state`: KVM dirty rings, from negotiation with the
    host to the harvest that must lose no page.
  - `text`, `offsets`: the files that list page offsets.
  - `memory`, `ranges`, `prefault`, `delta`: where guest memory lies in its file and on the host,
    and what is done with the pages of a list.
  - `backend`: the steps of loading guest memory, in order, for each kind of backend.
  - `config`, `errors`, `state`, `sanity`: requests, errors, the saved state and its checks.
  - `create`, `restore`: taking and loading a snapshot, step by step. The caller performs each
    action and reports what came of it.
  - `layered`: a page-fault handler over a base and a delta file.
  - `external`: the outside types and constants that are trusted.
- `app/` performs the actions: files, sockets, mappings, KVM requests and threads.
- `tests/` run the library on concrete values.
