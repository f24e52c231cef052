//! Taking a snapshot: which step comes after which, and what is reported when one fails.
use std::path::PathBuf;
use vstd::prelude::*;

use crate::config::{CreateSnapshotParams, CreateSnapshotStateParams, SnapshotType};
use crate::errors::{ComponentError, CreateSnapshotError, MicrovmStateError};
use crate::state::{MicrovmState, VmInfo};

verus! {

broadcast use vstd::seq::group_seq_axioms;

/// What has happened while a state is being written to its file.
#[derive(Debug)]
pub enum StateFileEvent {
    /// Nothing yet.
    Start,
    /// The file was asked to be opened.
    Opened(Result<(), std::io::Error>),
    /// The state was asked to be written to the file.
    Saved(Result<(), ComponentError>),
    /// The file was asked to be flushed.
    Flushed(Result<(), std::io::Error>),
    /// The file was asked to be synced to durable storage.
    Synced(Result<(), std::io::Error>),
}

/// What to do next to write a state to its file.
#[derive(Debug)]
pub enum StateFileAction {
    /// Open the file for writing; create it if it is missing, empty it if it is not.
    Open,
    /// Write the state to it.
    Save,
    /// Flush it.
    Flush,
    /// Sync it to durable storage.
    Sync,
    /// Stop and report this.
    Done(Result<(), CreateSnapshotError>),
}

/// The step after an event while a state is being written to its file.
pub open spec fn state_file_step(no_sync: bool, event: StateFileEvent) -> StateFileAction {
    match event {
        StateFileEvent::Start => StateFileAction::Open,
        StateFileEvent::Opened(Ok(())) => StateFileAction::Save,
        StateFileEvent::Opened(Err(err)) => StateFileAction::Done(
            Err(CreateSnapshotError::SnapshotBackingFile("open", err)),
        ),
        StateFileEvent::Saved(Ok(())) => StateFileAction::Flush,
        StateFileEvent::Saved(Err(err)) => StateFileAction::Done(
            Err(CreateSnapshotError::SerializeMicrovmState(err)),
        ),
        StateFileEvent::Flushed(Ok(())) => if no_sync {
            StateFileAction::Done(Ok(()))
        } else {
            StateFileAction::Sync
        },
        StateFileEvent::Flushed(Err(err)) => StateFileAction::Done(
            Err(CreateSnapshotError::SnapshotBackingFile("flush", err)),
        ),
        StateFileEvent::Synced(Ok(())) => StateFileAction::Done(Ok(())),
        StateFileEvent::Synced(Err(err)) => StateFileAction::Done(
            Err(CreateSnapshotError::SnapshotBackingFile("sync_all", err)),
        ),
    }
}

/// Whether `event` is an answer to `action`.
pub open spec fn state_file_answers(action: StateFileAction, event: StateFileEvent) -> bool {
    match action {
        StateFileAction::Open => event is Opened,
        StateFileAction::Save => event is Saved,
        StateFileAction::Flush => event is Flushed,
        StateFileAction::Sync => event is Synced,
        StateFileAction::Done(_) => false,
    }
}

/// Whether `events` is what happens, from the start, while a state is being written to its file.
pub open spec fn is_state_file_run(no_sync: bool, events: Seq<StateFileEvent>) -> bool {
    &&& events.len() > 0
    &&& events[0] is Start
    &&& forall|i: int|
        #![trigger events[i]]
        0 < i < events.len() ==> state_file_answers(
            state_file_step(no_sync, events[i - 1]),
            events[i],
        )
}

/// Whether these are the events of a write that goes well.
pub open spec fn state_file_went_well(no_sync: bool, events: Seq<StateFileEvent>) -> bool {
    &&& events.len() == if no_sync {
        4int
    } else {
        5int
    }
    &&& events[1] matches StateFileEvent::Opened(Ok(_))
    &&& events[2] matches StateFileEvent::Saved(Ok(_))
    &&& events[3] matches StateFileEvent::Flushed(Ok(_))
    &&& !no_sync ==> events[4] matches StateFileEvent::Synced(Ok(_))
}

/// Success is reported exactly after the file was opened, written, flushed and, unless that was
/// to be left out, synced, each without an error.
pub proof fn law_state_file_success(no_sync: bool, events: Seq<StateFileEvent>)
    requires
        is_state_file_run(no_sync, events),
    ensures
        state_file_step(no_sync, events[events.len() - 1]) matches StateFileAction::Done(Ok(_))
            <==> state_file_went_well(no_sync, events),
{
    let n = events.len() as int;
    if state_file_step(no_sync, events[n - 1]) matches StateFileAction::Done(Ok(_)) {
        let m = if no_sync && events[n - 1] is Flushed {
            n
        } else {
            n - 1
        };
        if m == n - 1 {
            assert(state_file_answers(state_file_step(no_sync, events[n - 2]), events[n - 1]));
        }
        assert(events[m - 1] is Flushed);
        lemma_flushed_fourth(no_sync, events, m - 1);
    }
}

/// The file is flushed as the third thing done, after it was opened and written.
proof fn lemma_flushed_fourth(no_sync: bool, events: Seq<StateFileEvent>, m: int)
    requires
        is_state_file_run(no_sync, events),
        0 <= m < events.len(),
        events[m] is Flushed,
    ensures
        m == 3,
        events[1] matches StateFileEvent::Opened(Ok(_)),
        events[2] matches StateFileEvent::Saved(Ok(_)),
{
    assert(state_file_answers(state_file_step(no_sync, events[m - 1]), events[m]));
    assert(state_file_answers(state_file_step(no_sync, events[m - 2]), events[m - 1]));
    assert(state_file_answers(state_file_step(no_sync, events[m - 3]), events[m - 2]));
    assert(m == 3) by {
        if m > 3 {
            assert(state_file_answers(state_file_step(no_sync, events[m - 4]), events[m - 3]));
        }
    }
}

/// A write that is to leave out the sync never asks for one.
pub proof fn law_no_sync_never_syncs(event: StateFileEvent)
    ensures
        !(state_file_step(true, event) is Sync),
{
}

/// Each thing that writing a state file asks for is answered by what came of it, well or not, and
/// nothing answers the end.
pub proof fn law_state_file_answers(action: StateFileAction, event: StateFileEvent)
    ensures
        event is Opened ==> (state_file_answers(action, event) <==> action is Open),
        event is Saved ==> (state_file_answers(action, event) <==> action is Save),
        event is Flushed ==> (state_file_answers(action, event) <==> action is Flush),
        event is Synced ==> (state_file_answers(action, event) <==> action is Sync),
        event is Start ==> !state_file_answers(action, event),
{
}

/// A state file is opened, written, flushed and synced in this order, the sync left out exactly
/// when that is asked for. The first thing that fails ends the write, and is reported with its
/// error and by what was being done.
pub proof fn law_state_file_steps(no_sync: bool, event: StateFileEvent)
    ensures
        ({
            let action = state_file_step(no_sync, event);
            &&& event is Start ==> action is Open
            &&& event matches StateFileEvent::Opened(opened) ==> {
                &&& opened is Ok ==> action is Save
                &&& opened is Err ==> action == StateFileAction::Done(
                    Err(CreateSnapshotError::SnapshotBackingFile("open", opened->Err_0)),
                )
            }
            &&& event matches StateFileEvent::Saved(saved) ==> {
                &&& saved is Ok ==> action is Flush
                &&& saved is Err ==> action == StateFileAction::Done(
                    Err(CreateSnapshotError::SerializeMicrovmState(saved->Err_0)),
                )
            }
            &&& event matches StateFileEvent::Flushed(flushed) ==> {
                &&& flushed is Ok && !no_sync ==> action is Sync
                &&& flushed is Ok && no_sync ==> action is Done && action->Done_0 is Ok
                &&& flushed is Err ==> action == StateFileAction::Done(
                    Err(CreateSnapshotError::SnapshotBackingFile("flush", flushed->Err_0)),
                )
            }
            &&& event matches StateFileEvent::Synced(synced) ==> {
                &&& synced is Ok ==> action is Done && action->Done_0 is Ok
                &&& synced is Err ==> action == StateFileAction::Done(
                    Err(CreateSnapshotError::SnapshotBackingFile("sync_all", synced->Err_0)),
                )
            }
        }),
{
}

/// Decides the next step of writing a state to its file.
pub fn snapshot_state_to_file(no_sync: bool, event: StateFileEvent) -> (action: StateFileAction)
    ensures
        action == state_file_step(no_sync, event),
{
    match event {
        StateFileEvent::Start => StateFileAction::Open,
        StateFileEvent::Opened(Ok(())) => StateFileAction::Save,
        StateFileEvent::Opened(Err(err)) => StateFileAction::Done(
            Err(CreateSnapshotError::SnapshotBackingFile("open", err)),
        ),
        StateFileEvent::Saved(Ok(())) => StateFileAction::Flush,
        StateFileEvent::Saved(Err(err)) => StateFileAction::Done(
            Err(CreateSnapshotError::SerializeMicrovmState(err)),
        ),
        StateFileEvent::Flushed(Ok(())) => {
            if no_sync {
                StateFileAction::Done(Ok(()))
            } else {
                StateFileAction::Sync
            }
        },
        StateFileEvent::Flushed(Err(err)) => StateFileAction::Done(
            Err(CreateSnapshotError::SnapshotBackingFile("flush", err)),
        ),
        StateFileEvent::Synced(Ok(())) => StateFileAction::Done(Ok(())),
        StateFileEvent::Synced(Err(err)) => StateFileAction::Done(
            Err(CreateSnapshotError::SnapshotBackingFile("sync_all", err)),
        ),
    }
}

/// What has happened while a snapshot is being taken.
#[derive(Debug)]
pub enum CreateSnapshotEvent {
    /// Nothing yet.
    Start,
    /// The state of the VM was asked to be saved.
    StateSaved(Result<MicrovmState, MicrovmStateError>),
    /// The state was asked to be written to its file.
    StateWritten(Result<(), CreateSnapshotError>),
    /// Whether the VM turned out to be a KVM VM.
    KvmFound(bool),
    /// Guest memory was asked to be written to its file.
    MemoryWritten(Result<(), CreateSnapshotError>),
    /// The queues of the devices were marked dirty.
    QueuesMarked,
}

/// What to do next to take a snapshot.
#[derive(Debug)]
pub enum CreateSnapshotAction<'a> {
    /// Save the state of the VM, with this said of it.
    SaveState(&'a VmInfo),
    /// Write the state to its file, as [`snapshot_state_to_file`] decides.
    WriteState {
        /// The state.
        state: MicrovmState,
        /// The file.
        path: &'a PathBuf,
        /// Whether to leave out the sync to durable storage.
        no_sync: bool,
    },
    /// Find out whether the VM is a KVM VM.
    FindKvm,
    /// Write guest memory to its file.
    WriteMemory {
        /// The file.
        path: &'a PathBuf,
        /// Whether all of it or only what changed.
        snapshot_type: SnapshotType,
    },
    /// Mark the queues of all active devices dirty: the pages of queues are not marked while
    /// the guest runs.
    MarkQueues,
    /// Stop and report this.
    Done(Result<(), CreateSnapshotError>),
}

/// Whether `action` is the step after `event` while a snapshot is being taken.
pub open spec fn create_step(
    vm_info: &VmInfo,
    params: &CreateSnapshotParams,
    event: CreateSnapshotEvent,
    action: CreateSnapshotAction<'_>,
) -> bool {
    match event {
        CreateSnapshotEvent::Start => action == CreateSnapshotAction::SaveState(vm_info),
        CreateSnapshotEvent::StateSaved(Ok(state)) => action == (CreateSnapshotAction::WriteState {
            state,
            path: &params.snapshot_path,
            no_sync: false,
        }),
        CreateSnapshotEvent::StateSaved(Err(err)) => action == CreateSnapshotAction::Done(
            Err(CreateSnapshotError::MicrovmState(err)),
        ),
        CreateSnapshotEvent::StateWritten(Ok(())) => action == CreateSnapshotAction::FindKvm,
        CreateSnapshotEvent::StateWritten(Err(err)) => action == CreateSnapshotAction::Done(
            Err(err),
        ),
        CreateSnapshotEvent::KvmFound(true) => action == (CreateSnapshotAction::WriteMemory {
            path: &params.mem_file_path,
            snapshot_type: params.snapshot_type,
        }),
        CreateSnapshotEvent::KvmFound(false) => {
            &&& action matches CreateSnapshotAction::Done(
                Err(CreateSnapshotError::MicrovmState(MicrovmStateError::NotAllowed(reason))),
            )
            &&& reason@ == "snapshot requires KVM"@
        },
        CreateSnapshotEvent::MemoryWritten(Ok(())) => action == CreateSnapshotAction::MarkQueues,
        CreateSnapshotEvent::MemoryWritten(Err(err)) => action == CreateSnapshotAction::Done(
            Err(err),
        ),
        CreateSnapshotEvent::QueuesMarked => action == CreateSnapshotAction::Done(Ok(())),
    }
}

/// Whether `event` is an answer to `action`.
pub open spec fn create_answers(
    action: CreateSnapshotAction<'_>,
    event: CreateSnapshotEvent,
) -> bool {
    match action {
        CreateSnapshotAction::SaveState(_) => event is StateSaved,
        CreateSnapshotAction::WriteState { .. } => event is StateWritten,
        CreateSnapshotAction::FindKvm => event is KvmFound,
        CreateSnapshotAction::WriteMemory { .. } => event is MemoryWritten,
        CreateSnapshotAction::MarkQueues => event is QueuesMarked,
        CreateSnapshotAction::Done(_) => false,
    }
}

/// Whether `events` and `actions` are what happens, from the start, while a snapshot is being
/// taken.
pub open spec fn is_create_run(
    vm_info: &VmInfo,
    params: &CreateSnapshotParams,
    events: Seq<CreateSnapshotEvent>,
    actions: Seq<CreateSnapshotAction<'_>>,
) -> bool {
    &&& events.len() > 0
    &&& events.len() == actions.len()
    &&& events[0] is Start
    &&& forall|i: int|
        #![trigger actions[i]]
        0 <= i < events.len() ==> create_step(vm_info, params, events[i], actions[i])
    &&& forall|i: int|
        #![trigger events[i]]
        0 < i < events.len() ==> create_answers(actions[i - 1], events[i])
}

/// Success is reported only after the state was saved and written, with a sync, to the file
/// asked for, the VM turned out to be a KVM VM, its memory was written to the file asked for,
/// and then the queues were marked dirty.
pub proof fn law_create_snapshot_success(
    vm_info: &VmInfo,
    params: &CreateSnapshotParams,
    events: Seq<CreateSnapshotEvent>,
    actions: Seq<CreateSnapshotAction<'_>>,
)
    requires
        is_create_run(vm_info, params, events, actions),
        actions[actions.len() - 1] matches CreateSnapshotAction::Done(Ok(_)),
    ensures
        events.len() == 6,
        actions[0] == CreateSnapshotAction::SaveState(vm_info),
        events[1] matches CreateSnapshotEvent::StateSaved(Ok(state)) && actions[1] == (
        CreateSnapshotAction::WriteState { state, path: &params.snapshot_path, no_sync: false }),
        events[2] matches CreateSnapshotEvent::StateWritten(Ok(_)),
        events[3] == CreateSnapshotEvent::KvmFound(true),
        actions[3] == (CreateSnapshotAction::WriteMemory {
            path: &params.mem_file_path,
            snapshot_type: params.snapshot_type,
        }),
        events[4] matches CreateSnapshotEvent::MemoryWritten(Ok(_)),
        actions[4] == CreateSnapshotAction::MarkQueues,
        events[5] is QueuesMarked,
{
    let n = events.len() as int;
    assert(create_step(vm_info, params, events[n - 1], actions[n - 1]));
    assert(events[n - 1] is QueuesMarked);
    assert(create_answers(actions[n - 2], events[n - 1]));
    assert(create_step(vm_info, params, events[n - 2], actions[n - 2]));
    assert(events[n - 2] is MemoryWritten);
    assert(create_answers(actions[n - 3], events[n - 2]));
    assert(create_step(vm_info, params, events[n - 3], actions[n - 3]));
    assert(events[n - 3] is KvmFound);
    assert(create_answers(actions[n - 4], events[n - 3]));
    assert(create_step(vm_info, params, events[n - 4], actions[n - 4]));
    assert(events[n - 4] is StateWritten);
    assert(create_answers(actions[n - 5], events[n - 4]));
    assert(create_step(vm_info, params, events[n - 5], actions[n - 5]));
    assert(events[n - 5] is StateSaved);
    assert(create_answers(actions[n - 6], events[n - 5]));
    assert(create_step(vm_info, params, events[n - 6], actions[n - 6]));
    assert(events[n - 6] is Start);
    assert(n == 6);
}

/// Each thing that a snapshot asks for is answered by what came of it, well or not, and nothing
/// answers the end.
pub proof fn law_create_answers(action: CreateSnapshotAction<'_>, event: CreateSnapshotEvent)
    ensures
        event is StateSaved ==> (create_answers(action, event) <==> action is SaveState),
        event is StateWritten ==> (create_answers(action, event) <==> action is WriteState),
        event is KvmFound ==> (create_answers(action, event) <==> action is FindKvm),
        event is MemoryWritten ==> (create_answers(action, event) <==> action is WriteMemory),
        event is QueuesMarked ==> (create_answers(action, event) <==> action is MarkQueues),
        event is Start ==> !create_answers(action, event),
{
}

/// A snapshot saves the state, writes it with a sync to the file asked for, makes sure that the VM
/// is a KVM VM, writes memory, all of it or what changed, to the file asked for, and marks the
/// queues, in this order. The first thing that fails ends it, and is reported as it is.
pub proof fn law_create_steps(
    vm_info: &VmInfo,
    params: &CreateSnapshotParams,
    event: CreateSnapshotEvent,
    action: CreateSnapshotAction<'_>,
)
    requires
        create_step(vm_info, params, event, action),
    ensures
        event is Start ==> action == CreateSnapshotAction::SaveState(vm_info),
        event matches CreateSnapshotEvent::StateSaved(saved) ==> {
            &&& saved is Ok ==> action == (CreateSnapshotAction::WriteState {
                state: saved->Ok_0,
                path: &params.snapshot_path,
                no_sync: false,
            })
            &&& saved is Err ==> action == CreateSnapshotAction::Done(
                Err(CreateSnapshotError::MicrovmState(saved->Err_0)),
            )
        },
        event matches CreateSnapshotEvent::StateWritten(written) ==> {
            &&& written is Ok ==> action is FindKvm
            &&& written is Err ==> action == CreateSnapshotAction::Done(Err(written->Err_0))
        },
        event matches CreateSnapshotEvent::KvmFound(found) ==> {
            &&& found ==> action == (CreateSnapshotAction::WriteMemory {
                path: &params.mem_file_path,
                snapshot_type: params.snapshot_type,
            })
            &&& !found ==> action is Done && action->Done_0 is Err && (action->Done_0->Err_0
                matches CreateSnapshotError::MicrovmState(MicrovmStateError::NotAllowed(reason))
                && reason@ == "snapshot requires KVM"@)
        },
        event matches CreateSnapshotEvent::MemoryWritten(written) ==> {
            &&& written is Ok ==> action is MarkQueues
            &&& written is Err ==> action == CreateSnapshotAction::Done(Err(written->Err_0))
        },
        event is QueuesMarked ==> action is Done && action->Done_0 is Ok,
{
}

/// Decides the next step of taking a snapshot.
pub fn create_snapshot<'a>(
    vm_info: &'a VmInfo,
    params: &'a CreateSnapshotParams,
    event: CreateSnapshotEvent,
) -> (action: CreateSnapshotAction<'a>)
    ensures
        create_step(vm_info, params, event, action),
{
    match event {
        CreateSnapshotEvent::Start => CreateSnapshotAction::SaveState(vm_info),
        CreateSnapshotEvent::StateSaved(Ok(state)) => CreateSnapshotAction::WriteState {
            state,
            path: &params.snapshot_path,
            no_sync: false,
        },
        CreateSnapshotEvent::StateSaved(Err(err)) => CreateSnapshotAction::Done(
            Err(CreateSnapshotError::MicrovmState(err)),
        ),
        CreateSnapshotEvent::StateWritten(Ok(())) => CreateSnapshotAction::FindKvm,
        CreateSnapshotEvent::StateWritten(Err(err)) => CreateSnapshotAction::Done(Err(err)),
        CreateSnapshotEvent::KvmFound(true) => CreateSnapshotAction::WriteMemory {
            path: &params.mem_file_path,
            snapshot_type: params.snapshot_type,
        },
        CreateSnapshotEvent::KvmFound(false) => CreateSnapshotAction::Done(
            Err(
                CreateSnapshotError::MicrovmState(
                    MicrovmStateError::NotAllowed("snapshot requires KVM".to_string()),
                ),
            ),
        ),
        CreateSnapshotEvent::MemoryWritten(Ok(())) => CreateSnapshotAction::MarkQueues,
        CreateSnapshotEvent::MemoryWritten(Err(err)) => CreateSnapshotAction::Done(Err(err)),
        CreateSnapshotEvent::QueuesMarked => CreateSnapshotAction::Done(Ok(())),
    }
}

/// What has happened while a snapshot of the state alone is being taken.
#[derive(Debug)]
pub enum StateSnapshotEvent {
    /// Nothing yet.
    Start,
    /// The state of the VM was asked to be saved.
    StateSaved(Result<MicrovmState, MicrovmStateError>),
    /// The state was asked to be written to its file.
    StateWritten(Result<(), CreateSnapshotError>),
}

/// What to do next to take a snapshot of the state alone.
#[derive(Debug)]
pub enum StateSnapshotAction<'a> {
    /// Save the state of the VM, with this said of it.
    SaveState(&'a VmInfo),
    /// Write the state to its file, as [`snapshot_state_to_file`] decides.
    WriteState {
        /// The state.
        state: MicrovmState,
        /// The file.
        path: &'a PathBuf,
        /// Whether to leave out the sync to durable storage.
        no_sync: bool,
    },
    /// Stop and report this.
    Done(Result<(), CreateSnapshotError>),
}

/// Decides the next step of taking a snapshot of the state alone.
pub fn create_state_snapshot<'a>(
    vm_info: &'a VmInfo,
    params: &'a CreateSnapshotStateParams,
    event: StateSnapshotEvent,
) -> (action: StateSnapshotAction<'a>)
    ensures
        action == match event {
            StateSnapshotEvent::Start => StateSnapshotAction::SaveState(vm_info),
            StateSnapshotEvent::StateSaved(Ok(state)) => StateSnapshotAction::WriteState {
                state,
                path: &params.snapshot_path,
                no_sync: params.no_sync,
            },
            StateSnapshotEvent::StateSaved(Err(err)) => StateSnapshotAction::Done(
                Err(CreateSnapshotError::MicrovmState(err)),
            ),
            StateSnapshotEvent::StateWritten(written) => StateSnapshotAction::Done(written),
        },
{
    match event {
        StateSnapshotEvent::Start => StateSnapshotAction::SaveState(vm_info),
        StateSnapshotEvent::StateSaved(Ok(state)) => StateSnapshotAction::WriteState {
            state,
            path: &params.snapshot_path,
            no_sync: params.no_sync,
        },
        StateSnapshotEvent::StateSaved(Err(err)) => StateSnapshotAction::Done(
            Err(CreateSnapshotError::MicrovmState(err)),
        ),
        StateSnapshotEvent::StateWritten(written) => StateSnapshotAction::Done(written),
    }
}

} // verus!
