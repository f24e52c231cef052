//! Per-vCPU KVM dirty rings and the harvest that must lose no page.
//!
//! KVM logs each dirtied guest page into a ring of its vCPU. A harvest drains the dirty
//! entries of every ring into an accumulator of per-memslot bitmaps and marks each drained
//! entry for reset; one reset request then re-protects exactly those pages. A page that the
//! harvest missed would be silently corrupt on the destination of a migration, so the
//! contracts here say which entries are drained, what becomes of every entry, and that the
//! accumulator gains exactly the drained pages.
use vstd::prelude::*;

use crate::bitmap;
use crate::bitmap::SlotBitmaps;

verus! {

broadcast use {
    vstd::seq::group_seq_axioms,
    vstd::map::group_map_axioms,
    vstd::std_specs::hash::group_hash_axioms,
};

/// Set in an entry's flags by KVM: the entry is ready to be harvested.
pub const KVM_DIRTY_GFN_F_DIRTY: u32 = 1;

/// Stored into a harvested entry's flags: the next reset re-protects its page.
pub const KVM_DIRTY_GFN_F_RESET: u32 = 2;

/// The size of one ring entry in bytes.
pub const RING_ENTRY_BYTES: usize = 16;

/// The ring size that is asked for, in bytes; the host's maximum may be smaller.
pub const DESIRED_RING_BYTES: usize = 0x10_0000;

/// One ring entry.
#[derive(Clone, Copy, Debug, PartialEq, Eq, Structural)]
pub struct DirtyGfn {
    /// Who owns the entry: KVM, or the harvester (`KVM_DIRTY_GFN_F_DIRTY`), or the next reset
    /// (`KVM_DIRTY_GFN_F_RESET`).
    pub flags: u32,
    /// The memslot id in the low 16 bits, the address space in the high 16 bits.
    pub slot: u32,
    /// The page number within the memslot.
    pub offset: u64,
}

impl DirtyGfn {
    /// Whether the entry is ready to be harvested.
    pub open spec fn is_dirty(self) -> bool {
        self.flags & KVM_DIRTY_GFN_F_DIRTY != 0
    }

    /// The memslot that the entry's page belongs to.
    pub open spec fn memslot(self) -> u32 {
        self.slot & 0xffff
    }

    /// The entry once it has been harvested.
    pub open spec fn harvested(self) -> DirtyGfn {
        DirtyGfn { flags: KVM_DIRTY_GFN_F_RESET, ..self }
    }
}

// ---------- one ring ----------

/// The entry that a harvest starting at position `first` reads `k`-th.
pub open spec fn entry_at(entries: Seq<DirtyGfn>, first: int, k: int) -> DirtyGfn {
    entries[(first + k) % (entries.len() as int)]
}

/// How many dirty entries follow one another without a gap, from the `k`-th one that a harvest
/// starting at position `first` reads.
pub open spec fn dirty_run(entries: Seq<DirtyGfn>, first: int, k: nat) -> nat
    decreases entries.len() - k,
{
    if k < entries.len() && entry_at(entries, first, k as int).is_dirty() {
        1 + dirty_run(entries, first, k + 1)
    } else {
        0
    }
}

/// The bitmaps after the first `n` entries from position `first` have been recorded.
pub open spec fn recorded(
    slots: Map<u32, Seq<u64>>,
    entries: Seq<DirtyGfn>,
    first: int,
    n: nat,
) -> Map<u32, Seq<u64>>
    decreases n,
{
    if n == 0 {
        slots
    } else {
        let e = entry_at(entries, first, n - 1);
        bitmap::with_slot_page(recorded(slots, entries, first, (n - 1) as nat), e.memslot(), e.offset)
    }
}

/// Whether ring position `i` is among the `n` positions from `first` on, wrapping around.
pub open spec fn in_run(len: nat, first: int, n: nat, i: int) -> bool {
    (i - first) % (len as int) < n
}

/// The entries after the first `n` from position `first` on have been marked for reset.
pub open spec fn reset_marked(entries: Seq<DirtyGfn>, first: int, n: nat) -> Seq<DirtyGfn> {
    Seq::new(
        entries.len(),
        |i: int|
            if in_run(entries.len(), first, n, i) {
                entries[i].harvested()
            } else {
                entries[i]
            },
    )
}

/// Whether the page number of every entry can index a bitmap of this machine.
pub open spec fn pages_addressable(entries: Seq<DirtyGfn>) -> bool {
    forall|i: int| 0 <= i < entries.len() ==> (#[trigger] entries[i]).offset / 64 < usize::MAX
}

/// The harvest cursor of one vCPU's ring.
#[derive(Debug)]
pub struct DirtyRing {
    /// Number of entries in the ring, a power of two.
    count: u32,
    /// Index of the next entry to harvest, taken modulo `count`; it wraps around at 2^32.
    fetch_index: u32,
}

impl DirtyRing {
    /// Number of entries in the ring.
    pub closed spec fn count(&self) -> nat {
        self.count as nat
    }

    /// Index of the next entry to harvest; it keeps counting across harvests.
    pub closed spec fn fetch_index(&self) -> nat {
        self.fetch_index as nat
    }

    /// The ring position of the next entry to harvest.
    pub open spec fn position(&self) -> int {
        (self.fetch_index() % self.count()) as int
    }

    /// A ring is never empty and its size divides 2^32, so that the position stays continuous
    /// where the index wraps around.
    pub open spec fn wf(&self) -> bool {
        &&& self.count() > 0
        &&& 0x1_0000_0000nat % self.count() == 0
    }

    /// How many entries a harvest of `entries` drains now.
    pub open spec fn ready(&self, entries: Seq<DirtyGfn>) -> nat {
        dirty_run(entries, self.position(), 0)
    }

    /// Whether `next` is this ring after `n` entries were drained.
    pub open spec fn advanced_to(&self, next: &DirtyRing, n: nat) -> bool {
        &&& next.count() == self.count()
        &&& next.fetch_index() == (self.fetch_index() + n) % 0x1_0000_0000
    }

    /// A fresh ring of `count` entries.
    pub fn new(count: u32) -> (ring: DirtyRing)
        requires
            count > 0,
            0x1_0000_0000nat % (count as nat) == 0,
        ensures
            ring.wf(),
            ring.count() == count,
            ring.fetch_index() == 0,
    {
        DirtyRing { count, fetch_index: 0 }
    }

    /// Drains every dirty entry from the cursor on into `accum`, keyed by memslot, and marks
    /// each drained entry for reset. It stops at the first entry that is not dirty. Returns
    /// whether anything was drained, that is, whether a reset is needed.
    pub fn harvest_into(&mut self, entries: &mut Vec<DirtyGfn>, accum: &mut SlotBitmaps) -> (r: bool)
        requires
            old(self).wf(),
            old(entries)@.len() == old(self).count(),
            pages_addressable(old(entries)@),
        ensures
            final(self).wf(),
            old(self).advanced_to(final(self), old(self).ready(old(entries)@)),
            final(entries)@ == reset_marked(
                old(entries)@,
                old(self).position(),
                old(self).ready(old(entries)@),
            ),
            bitmap::bitmaps(final(accum)@) == recorded(
                bitmap::bitmaps(old(accum)@),
                old(entries)@,
                old(self).position(),
                old(self).ready(old(entries)@),
            ),
            r == (old(self).ready(old(entries)@) > 0),
            r <==> old(entries)@[(old(self).fetch_index() % old(self).count()) as int].flags % 2
                == 1,
    {
        proof {
            law_cursor_entry_decides(*self, entries@);
        }
        let ghost before = entries@;
        let ghost first = self.position();
        let ghost start = self.fetch_index as int;
        let ghost mut k: nat = 0;
        let mut harvested: bool = false;
        let mut idx: u32 = self.fetch_index;
        proof {
            assert(reset_marked(before, first, 0) =~= before);
            vstd::arithmetic::div_mod::lemma_small_mod(self.fetch_index as nat, 0x1_0000_0000nat);
        }
        loop
            invariant
                self.wf(),
                self.count == before.len(),
                start == self.fetch_index,
                first == self.position(),
                pages_addressable(before),
                k <= before.len(),
                idx == (start + k) % 0x1_0000_0000,
                harvested == (k > 0),
                entries@ == reset_marked(before, first, k),
                bitmap::bitmaps(accum@) == recorded(bitmap::bitmaps(old(accum)@), before, first, k),
                dirty_run(before, first, 0) == k + dirty_run(before, first, k),
            ensures
                dirty_run(before, first, k) == 0,
            decreases before.len() - k,
        {
            let position: usize = (idx % self.count) as usize;
            proof {
                lemma_position(start, k as int, self.count as int);
                lemma_reset_marked_at(before, first, k);
            }
            let entry: DirtyGfn = entries[position];
            if entry.flags & KVM_DIRTY_GFN_F_DIRTY == 0 {
                break;
            }
            bitmap::mark_slot_page(accum, entry.slot & 0xffff, entry.offset);
            entries.set(position, DirtyGfn { flags: KVM_DIRTY_GFN_F_RESET, ..entry });
            proof {
                lemma_reset_marked_step(before, first, k);
                k = k + 1;
            }
            harvested = true;
            idx = idx.wrapping_add(1);
        }
        self.fetch_index = idx;
        harvested
    }
}

/// The position that the cursor shows does not depend on where its index wraps around.
proof fn lemma_position(start: int, k: int, count: int)
    requires
        0 <= start,
        0 <= k,
        0 < count,
        0x1_0000_0000int % count == 0,
    ensures
        ((start + k) % 0x1_0000_0000) % count == (start % count + k) % count,
        0 <= (start % count + k) % count < count,
{
    let q = 0x1_0000_0000int / count;
    vstd::arithmetic::div_mod::lemma_fundamental_div_mod(0x1_0000_0000int, count);
    assert(count * q == 0x1_0000_0000);
    assert(q > 0) by (nonlinear_arith)
        requires
            count * q == 0x1_0000_0000,
            count > 0,
    ;
    vstd::arithmetic::div_mod::lemma_mod_mod(start + k, count, q);
    vstd::arithmetic::div_mod::lemma_add_mod_noop(start, k, count);
    vstd::arithmetic::div_mod::lemma_add_mod_noop(start % count, k, count);
    vstd::arithmetic::div_mod::lemma_mod_twice(start, count);
    vstd::arithmetic::div_mod::lemma_mod_bound(start % count + k, count);
}

/// Position `(first + k) % len` is the `k`-th one from `first` on.
proof fn lemma_run_index(len: nat, first: int, k: int)
    requires
        len > 0,
        0 <= first < len,
        0 <= k < len,
    ensures
        ((first + k) % (len as int) - first) % (len as int) == k,
{
    let l = len as int;
    if first + k < l {
        vstd::arithmetic::div_mod::lemma_small_mod((first + k) as nat, len);
        vstd::arithmetic::div_mod::lemma_small_mod(k as nat, len);
    } else {
        assert((first + k) % l == first + k - l) by {
            vstd::arithmetic::div_mod::lemma_mod_add_multiples_vanish(first + k - l, l);
            vstd::arithmetic::div_mod::lemma_small_mod((first + k - l) as nat, len);
        }
        assert((k - l) % l == k) by {
            vstd::arithmetic::div_mod::lemma_mod_add_multiples_vanish(k - l, l);
            vstd::arithmetic::div_mod::lemma_small_mod(k as nat, len);
        }
    }
}

/// What the harvest finds at the cursor after `k` entries: the entry as it was, or, once it has
/// gone round the whole ring, one that it marked itself.
proof fn lemma_reset_marked_at(entries: Seq<DirtyGfn>, first: int, k: nat)
    requires
        entries.len() > 0,
        0 <= first < entries.len(),
        k <= entries.len(),
    ensures
        k < entries.len() ==> entry_at(reset_marked(entries, first, k), first, k as int)
            == entry_at(entries, first, k as int),
        k == entries.len() ==> !entry_at(
            reset_marked(entries, first, k),
            first,
            k as int,
        ).is_dirty(),
{
    let l = entries.len() as int;
    vstd::arithmetic::div_mod::lemma_mod_bound(first + k, l);
    if k < entries.len() {
        lemma_run_index(entries.len(), first, k as int);
    } else {
        vstd::arithmetic::div_mod::lemma_mod_bound((first + k) % l - first, l);
        assert(2u32 & 1u32 == 0u32) by (bit_vector);
    }
}

/// Marking the entry at the cursor extends the marked run by one.
proof fn lemma_reset_marked_step(entries: Seq<DirtyGfn>, first: int, k: nat)
    requires
        0 <= first < entries.len(),
        k < entries.len(),
    ensures
        reset_marked(entries, first, k + 1) == reset_marked(entries, first, k).update(
            (first + k) % (entries.len() as int),
            entry_at(entries, first, k as int).harvested(),
        ),
{
    let l = entries.len() as int;
    let p = (first + k) % l;
    vstd::arithmetic::div_mod::lemma_mod_bound(first + k, l);
    lemma_run_index(entries.len(), first, k as int);
    assert forall|i: int| 0 <= i < l && i != p implies in_run(entries.len(), first, k, i) == in_run(
        entries.len(),
        first,
        k + 1,
        i,
    ) by {
        let d = (i - first) % l;
        vstd::arithmetic::div_mod::lemma_mod_bound(i - first, l);
        if d == k {
            // both `i` and `p` lie `k` steps behind `first`
            vstd::arithmetic::div_mod::lemma_fundamental_div_mod(i - first, l);
            let q = (i - first) / l;
            assert(i == first + k + l * q);
            vstd::arithmetic::div_mod::lemma_mod_multiples_vanish(q, first + k, l);
            assert((l * q + (first + k)) % l == p);
            vstd::arithmetic::div_mod::lemma_small_mod(i as nat, l as nat);
            assert(false);
        }
    }
    assert(reset_marked(entries, first, k + 1) =~= reset_marked(entries, first, k).update(
        p,
        entry_at(entries, first, k as int).harvested(),
    ));
}

/// A run has no gap and no dirty entry behind it: all of its entries are dirty, and either it
/// covers the whole ring or the entry after it is not dirty.
pub proof fn law_dirty_run_is_maximal(entries: Seq<DirtyGfn>, first: int, from: nat)
    requires
        from <= entries.len(),
    ensures
        from + dirty_run(entries, first, from) <= entries.len(),
        forall|k: int|
            from <= k < from + dirty_run(entries, first, from) ==> (#[trigger] entry_at(
                entries,
                first,
                k,
            )).is_dirty(),
        from + dirty_run(entries, first, from) < entries.len() ==> !entry_at(
            entries,
            first,
            (from + dirty_run(entries, first, from)) as int,
        ).is_dirty(),
    decreases entries.len() - from,
{
    if from < entries.len() && entry_at(entries, first, from as int).is_dirty() {
        law_dirty_run_is_maximal(entries, first, from + 1);
    }
}

/// Recording loses no page and invents none: a page is marked afterwards exactly when it was
/// marked before or one of the recorded entries names it.
pub proof fn law_recorded_marks_exactly(
    slots: Map<u32, Seq<u64>>,
    entries: Seq<DirtyGfn>,
    first: int,
    n: nat,
    slot: u32,
    page: u64,
)
    ensures
        bitmap::slot_page_marked(recorded(slots, entries, first, n), slot, page) <==> {
            ||| bitmap::slot_page_marked(slots, slot, page)
            ||| exists|k: int|
                0 <= k < n && (#[trigger] entry_at(entries, first, k)).memslot() == slot
                    && entry_at(entries, first, k).offset == page
        },
    decreases n,
{
    if n > 0 {
        let last = entry_at(entries, first, n - 1);
        let before = recorded(slots, entries, first, (n - 1) as nat);
        law_recorded_marks_exactly(slots, entries, first, (n - 1) as nat, slot, page);
        bitmap::law_with_slot_page_marks_one_page(before, last.memslot(), last.offset, slot, page);
    }
}

/// The distance of a ring position from the cursor does not depend on how often the cursor has
/// gone round.
proof fn lemma_distance(i: int, fetch: int, count: int)
    requires
        count > 0,
        0 <= i < count,
    ensures
        (i - fetch % count) % count == (i - fetch) % count,
        0 <= (i - fetch) % count < count,
        (fetch % count + (i - fetch) % count) % count == i,
{
    vstd::arithmetic::div_mod::lemma_sub_mod_noop(i, fetch, count);
    vstd::arithmetic::div_mod::lemma_sub_mod_noop(i, fetch % count, count);
    vstd::arithmetic::div_mod::lemma_mod_twice(fetch, count);
    vstd::arithmetic::div_mod::lemma_mod_bound(i - fetch, count);
    vstd::arithmetic::div_mod::lemma_add_mod_noop(fetch, i - fetch, count);
    vstd::arithmetic::div_mod::lemma_add_mod_noop(fetch % count, (i - fetch) % count, count);
    vstd::arithmetic::div_mod::lemma_mod_twice(i - fetch, count);
    vstd::arithmetic::div_mod::lemma_small_mod(i as nat, count as nat);
}

/// The lowest bit of the flags alone says whether an entry is dirty, and the low 16 bits of the
/// slot name its memslot.
pub proof fn law_entry_fields(entry: DirtyGfn)
    ensures
        entry.is_dirty() <==> entry.flags % 2 == 1,
        entry.memslot() == entry.slot % 65536,
{
    let flags = entry.flags;
    let slot = entry.slot;
    assert(flags & 1 != 0 <==> flags % 2 == 1) by (bit_vector);
    assert(slot & 0xffff == slot % 65536) by (bit_vector);
}

/// A harvest drains the entries from the cursor on, around the ring, up to the first whose flags
/// do not have their lowest bit set, whatever memslot and page they name: position `i` of a ring
/// of `c` entries, whose cursor has counted `f`, lies `(i - f) % c` behind the cursor.
pub proof fn law_harvest_drains_up_to_the_first_clean_entry(
    ring: DirtyRing,
    entries: Seq<DirtyGfn>,
)
    requires
        ring.count() > 0,
        entries.len() == ring.count(),
    ensures
        ({
            let c = ring.count() as int;
            let f = ring.fetch_index() as int;
            let n = ring.ready(entries) as int;
            &&& 0 <= n <= c
            &&& forall|i: int|
                0 <= i < c && (i - f) % c < n ==> (#[trigger] entries[i]).flags % 2 == 1
            &&& forall|i: int|
                0 <= i < c && (i - f) % c == n ==> (#[trigger] entries[i]).flags % 2 == 0
        }),
{
    let c = ring.count() as int;
    let f = ring.fetch_index() as int;
    law_dirty_run_is_maximal(entries, ring.position(), 0);
    let n = ring.ready(entries) as int;
    assert forall|i: int| 0 <= i < c && (i - f) % c <= n implies ((i - f) % c < n
        ==> (#[trigger] entries[i]).flags % 2 == 1) && ((i - f) % c == n ==> entries[i].flags % 2
        == 0) by {
        let d = (i - f) % c;
        lemma_distance(i, f, c);
        assert(entry_at(entries, ring.position(), d) == entries[i]);
        law_entry_fields(entries[i]);
    }
}

/// The entry at the cursor decides whether a harvest drains anything: it does exactly when the
/// lowest bit of that entry's flags is set.
pub proof fn law_cursor_entry_decides(ring: DirtyRing, entries: Seq<DirtyGfn>)
    requires
        ring.count() > 0,
        entries.len() == ring.count(),
    ensures
        ring.ready(entries) > 0 <==> entries[(ring.fetch_index() % ring.count()) as int].flags % 2
            == 1,
{
    law_harvest_drains_up_to_the_first_clean_entry(ring, entries);
    let c = ring.count() as int;
    let f = ring.fetch_index() as int;
    vstd::arithmetic::div_mod::lemma_mod_bound(f, c);
    lemma_distance(f % c, f, c);
    assert((f % c - f % c) % c == 0) by {
        vstd::arithmetic::div_mod::lemma_small_mod(0, c as nat);
    }
}

/// The contents of a ring are admitted whatever they are, as long as page numbers can index a
/// bitmap, and so is every ring that is not empty and whose size divides 2^32.
pub proof fn law_harvest_admits(ring: DirtyRing, entries: Seq<DirtyGfn>)
    ensures
        pages_addressable(entries) <==> forall|i: int|
            0 <= i < entries.len() ==> (#[trigger] entries[i]).offset / 64 < usize::MAX,
        ring.wf() <==> ring.count() > 0 && 0x1_0000_0000nat % ring.count() == 0,
{
}

/// A harvest stores 2 into the flags of the entries it drains and changes nothing else in the
/// ring, and the cursor moves over them and no further.
pub proof fn law_harvest_resets_what_it_drains(
    ring: DirtyRing,
    next: DirtyRing,
    entries: Seq<DirtyGfn>,
)
    requires
        ring.count() > 0,
        entries.len() == ring.count(),
        ring.advanced_to(&next, ring.ready(entries)),
    ensures
        ({
            let c = ring.count() as int;
            let f = ring.fetch_index() as int;
            let n = ring.ready(entries) as int;
            let after = reset_marked(entries, ring.position(), ring.ready(entries));
            &&& next.count() == c
            &&& next.fetch_index() == (f + n) % 0x1_0000_0000
            &&& after.len() == c
            &&& forall|i: int|
                0 <= i < c ==> (#[trigger] after[i]).slot == entries[i].slot && after[i].offset
                    == entries[i].offset && after[i].flags == if (i - f) % c < n {
                    2
                } else {
                    entries[i].flags
                }
        }),
{
    let c = ring.count() as int;
    let f = ring.fetch_index() as int;
    let after = reset_marked(entries, ring.position(), ring.ready(entries));
    let n = ring.ready(entries) as int;
    assert forall|i: int| 0 <= i < c implies (#[trigger] after[i]).slot == entries[i].slot
        && after[i].offset == entries[i].offset && after[i].flags == if (i - f) % c < n {
        2
    } else {
        entries[i].flags
    } by {
        lemma_distance(i, f, c);
    }
}

/// A harvest marks, in the memslot that the low 16 bits of an entry's slot name, the page that the
/// entry's offset names, for each entry it drains. It marks no other page and unmarks none.
pub proof fn law_harvest_marks_the_pages_drained(
    ring: DirtyRing,
    entries: Seq<DirtyGfn>,
    slots: Map<u32, Seq<u64>>,
    slot: u32,
    page: u64,
)
    requires
        ring.count() > 0,
        entries.len() == ring.count(),
    ensures
        ({
            let c = ring.count() as int;
            let f = ring.fetch_index() as int;
            let n = ring.ready(entries) as int;
            let after = recorded(slots, entries, ring.position(), ring.ready(entries));
            let word = (page / 64) as int;
            let bit = page % 64;
            (after.contains_key(slot) && word < after[slot].len() && (after[slot][word] >> bit) & 1
                == 1) <==> {
                ||| slots.contains_key(slot) && word < slots[slot].len() && (slots[slot][word]
                    >> bit) & 1 == 1
                ||| exists|i: int|
                    0 <= i < c && (i - f) % c < n && (#[trigger] entries[i]).slot % 65536 == slot
                        && entries[i].offset == page
            }
        }),
{
    let c = ring.count() as int;
    let f = ring.fetch_index() as int;
    let n = ring.ready(entries);
    let first = ring.position();
    let after = recorded(slots, entries, first, n);
    law_recorded_marks_exactly(slots, entries, first, n, slot, page);
    law_dirty_run_is_maximal(entries, first, 0);
    bitmap::law_marked_is_a_bit(slots, slot, page);
    bitmap::law_marked_is_a_bit(after, slot, page);
    assert forall|k: int| 0 <= k < n && (#[trigger] entry_at(entries, first, k)).memslot() == slot
        && entry_at(entries, first, k).offset == page implies exists|i: int|
        0 <= i < c && (i - f) % c < n && (#[trigger] entries[i]).slot % 65536 == slot
            && entries[i].offset == page by {
        let i = (first + k) % c;
        vstd::arithmetic::div_mod::lemma_mod_bound(first + k, c);
        lemma_run_index(entries.len(), first, k);
        lemma_distance(i, f, c);
        law_entry_fields(entries[i]);
        assert(entries[i].slot % 65536 == slot && (i - f) % c < n);
    }
    assert forall|i: int|
        0 <= i < c && (i - f) % c < n && (#[trigger] entries[i]).slot % 65536 == slot
            && entries[i].offset == page implies exists|k: int|
        0 <= k < n && (#[trigger] entry_at(entries, first, k)).memslot() == slot && entry_at(
            entries,
            first,
            k,
        ).offset == page by {
        let d = (i - f) % c;
        lemma_distance(i, f, c);
        law_entry_fields(entries[i]);
        assert(entry_at(entries, first, d) == entries[i]);
    }
}

/// What a harvest drains extends the bitmaps no further than its largest page needs.
pub proof fn law_harvest_grows_bitmaps_as_needed(
    ring: DirtyRing,
    entries: Seq<DirtyGfn>,
    slots: Map<u32, Seq<u64>>,
    slot: u32,
    n: nat,
)
    requires
        ring.count() > 0,
        entries.len() == ring.count(),
        n <= ring.ready(entries),
    ensures
        ({
            let c = ring.count() as int;
            let f = ring.fetch_index() as int;
            let after = recorded(slots, entries, ring.position(), n);
            &&& slots.contains_key(slot) ==> after.contains_key(slot)
            &&& after.contains_key(slot) && !(slots.contains_key(slot) && after[slot].len()
                == slots[slot].len()) ==> exists|i: int|
                0 <= i < c && (i - f) % c < n && (#[trigger] entries[i]).slot % 65536 == slot
                    && after[slot].len() == entries[i].offset / 64 + 1
        }),
    decreases n,
{
    let c = ring.count() as int;
    let f = ring.fetch_index() as int;
    let first = ring.position();
    if n > 0 {
        law_harvest_grows_bitmaps_as_needed(ring, entries, slots, slot, (n - 1) as nat);
        law_dirty_run_is_maximal(entries, first, 0);
        let before = recorded(slots, entries, first, (n - 1) as nat);
        let after = recorded(slots, entries, first, n);
        let e = entry_at(entries, first, n - 1);
        let i = (first + (n - 1)) % c;
        vstd::arithmetic::div_mod::lemma_mod_bound(first + (n - 1), c);
        lemma_run_index(entries.len(), first, n - 1);
        lemma_distance(i, f, c);
        law_entry_fields(e);
        bitmap::law_marking_leaves_other_slots(before, e.memslot(), e.offset);
        bitmap::law_marking_sets_one_bit(bitmap::bitmap_of(before, slot), e.offset);
        assert(entries[i] == e);
        if e.memslot() == slot {
            let longer = after[slot].len() != bitmap::bitmap_of(before, slot).len();
            if longer {
                assert(after[slot].len() == entries[i].offset / 64 + 1);
            } else if !before.contains_key(slot) {
                assert(after[slot].len() == e.offset / 64 + 1);
            }
        }
    }
}

/// A harvest right after a harvest finds nothing: no entry is drained twice.
pub proof fn law_second_harvest_is_empty(
    ring: DirtyRing,
    next: DirtyRing,
    entries: Seq<DirtyGfn>,
)
    requires
        ring.wf(),
        entries.len() == ring.count(),
        ring.advanced_to(&next, ring.ready(entries)),
    ensures
        next.ready(reset_marked(entries, ring.position(), ring.ready(entries))) == 0,
{
    let n = ring.ready(entries);
    let len = entries.len() as int;
    let first = ring.position();
    let after = reset_marked(entries, first, n);
    law_dirty_run_is_maximal(entries, first, 0);
    lemma_position(ring.fetch_index() as int, n as int, len);
    assert(next.position() == (first + n) % len);
    lemma_reset_marked_at(entries, first, n);
    vstd::arithmetic::div_mod::lemma_mod_twice(first + n, len);
    assert(entry_at(after, next.position(), 0) == entry_at(after, first, n as int));
}

} // verus!
