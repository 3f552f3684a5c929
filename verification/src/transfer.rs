//! File transfer bookkeeping: the pause/resume/cancel state machine of a
//! transfer, the registry of active transfers, the events reported to the
//! frontend, chunk scheduling and the retry policy.
//!
//! The transfers themselves (SFTP reads and writes) are driven by the
//! caller, which asks these types what to do next.

use vstd::prelude::*;
use crate::error::{AppError, AppResult};
use crate::text::{
    chars_of, decimal, push_str, skip_trailing_char, str_eq, string_from_range,
    strip_trailing_char, to_owned_string, u64_to_string,
};
use crate::config::{is_uuid_v4_text, uuid_v4};
use crate::remote::{
    after_last_slash, local_child_path, name_after_last_slash, remote_child_path,
    strip_trailing_separators, FileEntry,
};

verus! {

/// The message of the error a cancelled transfer ends with.
pub const TRANSFER_CANCELLED_MESSAGE: &'static str = "Transfer cancelled";

/// Whether a transfer may proceed.
#[derive(Debug, Clone, Copy, PartialEq, Eq, Structural)]
pub enum TransferControlState {
    Running,
    Paused,
    Cancelled,
}

/// Event payload emitted to the frontend to track file transfer lifecycle.
#[derive(Debug)]
pub struct TransferEvent {
    pub id: String,
    pub session_id: String,
    pub file_name: String,
    pub remote_path: String,
    pub local_path: String,
    /// "upload" or "download"
    pub direction: String,
    /// "file" or "directory"
    pub kind: String,
    /// "started", "progress", "paused", "resumed", "completed", "cancelled", or "error"
    pub status: String,
    pub size: u64,
    pub bytes_transferred: u64,
    pub total_size: u64,
    pub parent_id: Option<String>,
    pub item_count_total: Option<u64>,
    pub item_count_completed: Option<u64>,
    pub error_msg: Option<String>,
}

/// The live state of one transfer.
#[derive(Debug)]
pub struct TransferRuntime {
    pub id: String,
    pub session_id: String,
    pub file_name: String,
    pub remote_path: String,
    pub local_path: String,
    pub direction: String,
    pub kind: String,
    pub parent_id: Option<String>,
    pub bytes_transferred: u64,
    pub total_size: u64,
    pub item_count_total: Option<u64>,
    pub item_count_completed: Option<u64>,
    pub control_state: TransferControlState,
}

/// The event `rt` reports with `status`, `size` and `error_msg`: every other
/// field is copied from the transfer.
pub open spec fn is_event_of(
    ev: TransferEvent,
    rt: TransferRuntime,
    status: Seq<char>,
    size: u64,
    error_msg: Option<String>,
) -> bool {
    &&& ev.id == rt.id
    &&& ev.session_id == rt.session_id
    &&& ev.file_name == rt.file_name
    &&& ev.remote_path == rt.remote_path
    &&& ev.local_path == rt.local_path
    &&& ev.direction == rt.direction
    &&& ev.kind == rt.kind
    &&& ev.status@ == status
    &&& ev.size == size
    &&& ev.bytes_transferred == rt.bytes_transferred
    &&& ev.total_size == rt.total_size
    &&& ev.parent_id == rt.parent_id
    &&& ev.item_count_total == rt.item_count_total
    &&& ev.item_count_completed == rt.item_count_completed
    &&& ev.error_msg == error_msg
}

/// The control state after a pause request: only a running transfer pauses.
pub open spec fn state_after_pause(s: TransferControlState) -> TransferControlState {
    if s == TransferControlState::Running {
        TransferControlState::Paused
    } else {
        s
    }
}

/// The control state after a resume request: only a paused transfer resumes.
pub open spec fn state_after_resume(s: TransferControlState) -> TransferControlState {
    if s == TransferControlState::Paused {
        TransferControlState::Running
    } else {
        s
    }
}

/// The control state after a cancel request.
pub open spec fn state_after_cancel(s: TransferControlState) -> TransferControlState {
    TransferControlState::Cancelled
}

/// The two transfers describe the same transfer: same id, session, names,
/// paths, direction, kind and parent.
pub open spec fn same_transfer(a: TransferRuntime, b: TransferRuntime) -> bool {
    &&& a.id == b.id
    &&& a.session_id == b.session_id
    &&& a.file_name == b.file_name
    &&& a.remote_path == b.remote_path
    &&& a.local_path == b.local_path
    &&& a.direction == b.direction
    &&& a.kind == b.kind
    &&& a.parent_id == b.parent_id
}

/// The transfer is unchanged but for its control state.
pub open spec fn same_but_state(a: TransferRuntime, b: TransferRuntime) -> bool {
    &&& a.id == b.id
    &&& a.session_id == b.session_id
    &&& a.file_name == b.file_name
    &&& a.remote_path == b.remote_path
    &&& a.local_path == b.local_path
    &&& a.direction == b.direction
    &&& a.kind == b.kind
    &&& a.parent_id == b.parent_id
    &&& a.bytes_transferred == b.bytes_transferred
    &&& a.total_size == b.total_size
    &&& a.item_count_total == b.item_count_total
    &&& a.item_count_completed == b.item_count_completed
}

fn clone_opt_string(s: &Option<String>) -> (res: Option<String>)
    ensures
        res == *s,
{
    match s {
        Some(v) => Some(v.clone()),
        None => None,
    }
}

impl TransferRuntime {
    /// A running transfer with nothing transferred yet.
    pub fn new_with_kind(
        id: String,
        session_id: String,
        file_name: String,
        remote_path: String,
        local_path: String,
        direction: String,
        kind: String,
        parent_id: Option<String>,
        item_count_total: Option<u64>,
        item_count_completed: Option<u64>,
    ) -> (res: Self)
        ensures
            res.id == id,
            res.session_id == session_id,
            res.file_name == file_name,
            res.remote_path == remote_path,
            res.local_path == local_path,
            res.direction == direction,
            res.kind == kind,
            res.parent_id == parent_id,
            res.bytes_transferred == 0,
            res.total_size == 0,
            res.item_count_total == item_count_total,
            res.item_count_completed == item_count_completed,
            res.control_state == TransferControlState::Running,
    {
        TransferRuntime {
            id,
            session_id,
            file_name,
            remote_path,
            local_path,
            direction,
            kind,
            parent_id,
            bytes_transferred: 0,
            total_size: 0,
            item_count_total,
            item_count_completed,
            control_state: TransferControlState::Running,
        }
    }

    /// Records the bytes moved so far and the expected total.
    pub fn update_progress(&mut self, bytes_transferred: u64, total_size: u64)
        ensures
            final(self).bytes_transferred == bytes_transferred,
            final(self).total_size == total_size,
            final(self).control_state == old(self).control_state,
            same_transfer(*final(self), *old(self)),
            final(self).item_count_total == old(self).item_count_total,
            final(self).item_count_completed == old(self).item_count_completed,
    {
        self.bytes_transferred = bytes_transferred;
        self.total_size = total_size;
    }

    /// Records how many files of a directory transfer are done, of how many.
    pub fn update_item_progress(&mut self, completed: u64, total: u64)
        ensures
            final(self).item_count_completed == Some(completed),
            final(self).item_count_total == Some(total),
            final(self).control_state == old(self).control_state,
            same_transfer(*final(self), *old(self)),
            final(self).bytes_transferred == old(self).bytes_transferred,
            final(self).total_size == old(self).total_size,
    {
        self.item_count_completed = Some(completed);
        self.item_count_total = Some(total);
    }

    /// Records one more finished file of a directory transfer, `completed`
    /// being the new count; the total stays as planned, or follows the count
    /// when none was planned.
    pub fn record_completed_item(&mut self, completed: u64)
        ensures
            final(self).item_count_completed == Some(completed),
            final(self).item_count_total == Some(
                match old(self).item_count_total {
                    Some(t) => t,
                    None => completed,
                },
            ),
            final(self).control_state == old(self).control_state,
            same_transfer(*final(self), *old(self)),
            final(self).bytes_transferred == old(self).bytes_transferred,
            final(self).total_size == old(self).total_size,
    {
        let total = match self.item_count_total {
            Some(t) => t,
            None => completed,
        };
        self.update_item_progress(completed, total);
    }

    /// The event this transfer reports with the given status.
    pub fn build_event(&self, status: &str, size: u64, error_msg: Option<String>) -> (res: TransferEvent)
        ensures
            is_event_of(res, *self, status@, size, error_msg),
    {
        TransferEvent {
            id: self.id.clone(),
            session_id: self.session_id.clone(),
            file_name: self.file_name.clone(),
            remote_path: self.remote_path.clone(),
            local_path: self.local_path.clone(),
            direction: self.direction.clone(),
            kind: self.kind.clone(),
            status: to_owned_string(status),
            size,
            bytes_transferred: self.bytes_transferred,
            total_size: self.total_size,
            parent_id: clone_opt_string(&self.parent_id),
            item_count_total: self.item_count_total,
            item_count_completed: self.item_count_completed,
            error_msg,
        }
    }

    /// Pauses a running transfer; anything else is left as it is (`None`).
    pub fn pause(&mut self) -> (res: Option<TransferEvent>)
        ensures
            same_but_state(*final(self), *old(self)),
            final(self).control_state == state_after_pause(old(self).control_state),
            old(self).control_state == TransferControlState::Running ==> (final(self).control_state
                == TransferControlState::Paused && (res matches Some(ev) && is_event_of(
                ev,
                *final(self),
                "paused"@,
                0,
                None,
            ))),
            old(self).control_state != TransferControlState::Running ==> (final(self).control_state
                == old(self).control_state && res is None),
    {
        if self.control_state != TransferControlState::Running {
            return None;
        }
        self.control_state = TransferControlState::Paused;
        Some(self.build_event("paused", 0, None))
    }

    /// Resumes a paused transfer; anything else is left as it is (`None`).
    pub fn resume(&mut self) -> (res: Option<TransferEvent>)
        ensures
            same_but_state(*final(self), *old(self)),
            final(self).control_state == state_after_resume(old(self).control_state),
            old(self).control_state == TransferControlState::Paused ==> (final(self).control_state
                == TransferControlState::Running && (res matches Some(ev) && is_event_of(
                ev,
                *final(self),
                "resumed"@,
                0,
                None,
            ))),
            old(self).control_state != TransferControlState::Paused ==> (final(self).control_state
                == old(self).control_state && res is None),
    {
        if self.control_state != TransferControlState::Paused {
            return None;
        }
        self.control_state = TransferControlState::Running;
        Some(self.build_event("resumed", 0, None))
    }

    /// Cancels a transfer that is not cancelled yet.
    pub fn cancel(&mut self) -> (res: Option<TransferEvent>)
        ensures
            same_but_state(*final(self), *old(self)),
            final(self).control_state == state_after_cancel(old(self).control_state),
            old(self).control_state != TransferControlState::Cancelled ==> (res matches Some(ev)
                && is_event_of(ev, *final(self), "cancelled"@, 0, None)),
            old(self).control_state == TransferControlState::Cancelled ==> res is None,
    {
        if self.control_state == TransferControlState::Cancelled {
            return None;
        }
        self.control_state = TransferControlState::Cancelled;
        Some(self.build_event("cancelled", 0, None))
    }

    /// Whether the transfer may go on now: `Ok(true)` when running,
    /// `Ok(false)` when paused (wait for a change), and the cancellation
    /// error when cancelled.
    pub fn readiness(&self) -> (res: AppResult<bool>)
        ensures
            self.control_state == TransferControlState::Running ==> res matches Ok(true),
            self.control_state == TransferControlState::Paused ==> res matches Ok(false),
            self.control_state == TransferControlState::Cancelled ==> (res matches Err(
                AppError::Cancelled(m),
            ) && m@ == TRANSFER_CANCELLED_MESSAGE@),
    {
        match self.control_state {
            TransferControlState::Running => Ok(true),
            TransferControlState::Paused => Ok(false),
            TransferControlState::Cancelled => Err(
                AppError::Cancelled(to_owned_string(TRANSFER_CANCELLED_MESSAGE)),
            ),
        }
    }

    /// Closes a file transfer after it ran: on success the progress is set to
    /// the full size and a `completed` event is reported; a cancellation
    /// reports nothing; another error reports an `error` event with its text.
    pub fn finish(&mut self, outcome: &AppResult<u64>) -> (res: Option<TransferEvent>)
        ensures
            same_transfer(*final(self), *old(self)),
            final(self).control_state == old(self).control_state,
            final(self).item_count_total == old(self).item_count_total,
            final(self).item_count_completed == old(self).item_count_completed,
            match outcome {
                Ok(size) => final(self).bytes_transferred == *size && final(self).total_size
                    == *size && (res matches Some(ev) && is_event_of(
                    ev,
                    *final(self),
                    "completed"@,
                    *size,
                    None,
                )),
                Err(AppError::Cancelled(_)) => res is None && *final(self) == *old(self),
                Err(e) => *final(self) == *old(self) && (res matches Some(ev) && (ev.error_msg matches Some(
                    m,
                ) && m@ == crate::error::app_error_text(*e)) && is_event_of(
                    ev,
                    *final(self),
                    "error"@,
                    0,
                    ev.error_msg,
                )),
            },
    {
        match outcome {
            Ok(size) => {
                self.update_progress(*size, *size);
                Some(self.build_event("completed", *size, None))
            },
            Err(AppError::Cancelled(_)) => None,
            Err(e) => Some(self.build_event("error", 0, Some(e.message()))),
        }
    }
}

impl TransferRuntime {
    /// Closes a directory transfer after it ran, `completed` of `total` files
    /// done: on success the item counts are set and a `completed` event is
    /// reported; a cancellation reports `cancelled`; another error reports
    /// `error` with its text.
    pub fn finish_directory(&mut self, completed: u64, total: u64, outcome: &AppResult<()>) -> (res: TransferEvent)
        ensures
            same_transfer(*final(self), *old(self)),
            final(self).control_state == old(self).control_state,
            final(self).bytes_transferred == old(self).bytes_transferred,
            final(self).total_size == old(self).total_size,
            match outcome {
                Ok(()) => final(self).item_count_completed == Some(completed)
                    && final(self).item_count_total == Some(total) && is_event_of(
                    res,
                    *final(self),
                    "completed"@,
                    0,
                    None,
                ),
                Err(AppError::Cancelled(_)) => *final(self) == *old(self) && is_event_of(
                    res,
                    *final(self),
                    "cancelled"@,
                    0,
                    None,
                ),
                Err(e) => *final(self) == *old(self) && (res.error_msg matches Some(m) && m@
                    == crate::error::app_error_text(*e)) && is_event_of(
                    res,
                    *final(self),
                    "error"@,
                    0,
                    res.error_msg,
                ),
            },
    {
        match outcome {
            Ok(()) => {
                self.update_item_progress(completed, total);
                self.build_event("completed", 0, None)
            },
            Err(AppError::Cancelled(_)) => self.build_event("cancelled", 0, None),
            Err(e) => self.build_event("error", 0, Some(e.message())),
        }
    }
}

/// The buffer size of a download whose size is unknown: the chunk size, but
/// at least 64 KiB.
pub fn sequential_buffer_size(chunk: u64) -> (res: u64)
    ensures
        res == (if chunk >= 65536 {
            chunk
        } else {
            65536
        }),
{
    if chunk >= 65536 {
        chunk
    } else {
        65536
    }
}

/// The event reported, under a fresh id, for a file that the duplicate
/// strategy skipped: a `completed` event with nothing transferred, named after the text after the
/// last `/` of the remote path.
pub fn skipped_transfer_event(
    session_id: &str,
    remote_path: &str,
    local_path: &str,
    direction: &str,
) -> (res: TransferEvent)
    ensures
        is_uuid_v4_text(res.id@),
        res.session_id@ == session_id@,
        res.file_name@ == after_last_slash(remote_path@),
        res.remote_path@ == remote_path@,
        res.local_path@ == local_path@,
        res.direction@ == direction@,
        res.kind@ == "file"@,
        res.status@ == "completed"@,
        res.size == 0 && res.bytes_transferred == 0 && res.total_size == 0,
        res.parent_id is None && res.item_count_total is None && res.item_count_completed is None,
        res.error_msg is None,
{
    TransferEvent {
        id: uuid_v4(),
        session_id: to_owned_string(session_id),
        file_name: name_after_last_slash(remote_path),
        remote_path: to_owned_string(remote_path),
        local_path: to_owned_string(local_path),
        direction: to_owned_string(direction),
        kind: to_owned_string("file"),
        status: to_owned_string("completed"),
        size: 0,
        bytes_transferred: 0,
        total_size: 0,
        parent_id: None,
        item_count_total: None,
        item_count_completed: None,
        error_msg: None,
    }
}


/// Pausing a running transfer and then resuming it leaves it running again.
pub proof fn law_pause_then_resume_restores_running()
    ensures
        state_after_resume(state_after_pause(TransferControlState::Running))
            == TransferControlState::Running,
{
}

/// Cancellation is final: once cancelled, neither pause nor resume nor
/// another cancel moves a transfer out of it.
pub proof fn law_cancel_is_final(s: TransferControlState)
    ensures
        state_after_pause(state_after_cancel(s)) == TransferControlState::Cancelled,
        state_after_resume(state_after_cancel(s)) == TransferControlState::Cancelled,
        state_after_cancel(state_after_cancel(s)) == TransferControlState::Cancelled,
{
}

/// A transfer that begins and ends leaves the registry as it was, when no
/// transfer of its id was registered before.
pub proof fn law_begin_then_end_restores_registry(
    states: Map<Seq<char>, TransferControlState>,
    id: Seq<char>,
    state: TransferControlState,
)
    requires
        !states.dom().contains(id),
    ensures
        states.insert(id, state).remove(id) == states,
{
    assert(states.insert(id, state).remove(id) =~= states);
}

/// A transfer that is registered and then unregistered is gone from the
/// registry, and every other transfer keeps its state.
pub proof fn law_unregister_after_register(
    states: Map<Seq<char>, TransferControlState>,
    id: Seq<char>,
    state: TransferControlState,
)
    ensures
        !states.insert(id, state).remove(id).dom().contains(id),
        forall|k: Seq<char>|
            k != id ==> #[trigger] states.insert(id, state).remove(id).get(k) == states.get(k),
{
}

// ---------------------------------------------------------------------------
// Registry of active transfers
// ---------------------------------------------------------------------------

/// The control states of a list of transfers by id, later entries winning.
pub open spec fn states_of(s: Seq<TransferRuntime>) -> Map<Seq<char>, TransferControlState>
    decreases s.len(),
{
    if s.len() == 0 {
        Map::empty()
    } else {
        states_of(s.drop_last()).insert(s.last().id@, s.last().control_state)
    }
}

/// The ids of a list of transfers.
pub open spec fn ids_of(s: Seq<TransferRuntime>) -> Seq<Seq<char>> {
    s.map_values(|t: TransferRuntime| t.id@)
}

/// The transfers in progress, by id.
pub struct TransferRegistry {
    transfers: Vec<TransferRuntime>,
}

proof fn lemma_states_of_dom(s: Seq<TransferRuntime>)
    ensures
        forall|k: Seq<char>| states_of(s).dom().contains(k) <==> ids_of(s).contains(k),
        states_of(s).dom().finite(),
        ids_of(s).no_duplicates() ==> states_of(s).dom().len() == s.len(),
    decreases s.len(),
{
    if s.len() > 0 {
        let p = s.drop_last();
        lemma_states_of_dom(p);
        assert(ids_of(p) =~= ids_of(s).drop_last());
        assert forall|k: Seq<char>| states_of(s).dom().contains(k) <==> ids_of(s).contains(k) by {
            if ids_of(s).contains(k) {
                let i = choose|i: int| 0 <= i < ids_of(s).len() && ids_of(s)[i] == k;
                if i < s.len() - 1 {
                    assert(ids_of(p)[i] == k);
                }
            }
            if ids_of(p).contains(k) {
                let i = choose|i: int| 0 <= i < ids_of(p).len() && ids_of(p)[i] == k;
                assert(ids_of(s)[i] == k);
            }
            if k == s.last().id@ {
                assert(ids_of(s)[s.len() - 1] == k);
            }
        }
        if ids_of(s).no_duplicates() {
            assert(!ids_of(p).contains(s.last().id@)) by {
                if ids_of(p).contains(s.last().id@) {
                    let i = choose|i: int| 0 <= i < ids_of(p).len() && ids_of(p)[i] == s.last().id@;
                    assert(ids_of(s)[i] == ids_of(s)[s.len() - 1]);
                }
            }
            assert(ids_of(p).no_duplicates());
        }
    }
}

proof fn lemma_states_of_lookup(s: Seq<TransferRuntime>, i: int)
    requires
        0 <= i < s.len(),
        ids_of(s).no_duplicates(),
    ensures
        states_of(s).dom().contains(s[i].id@),
        states_of(s)[s[i].id@] == s[i].control_state,
    decreases s.len(),
{
    if i < s.len() - 1 {
        let p = s.drop_last();
        assert(ids_of(p) =~= ids_of(s).drop_last());
        assert(ids_of(s)[i] != ids_of(s)[s.len() - 1]);
        lemma_states_of_lookup(p, i);
    }
}

proof fn lemma_states_of_update(s: Seq<TransferRuntime>, i: int, t: TransferRuntime)
    requires
        0 <= i < s.len(),
        ids_of(s).no_duplicates(),
        t.id@ == s[i].id@,
    ensures
        states_of(s.update(i, t)) == states_of(s).insert(t.id@, t.control_state),
        ids_of(s.update(i, t)) == ids_of(s),
    decreases s.len(),
{
    assert(ids_of(s.update(i, t)) =~= ids_of(s));
    let p = s.drop_last();
    assert(ids_of(p) =~= ids_of(s).drop_last());
    if i < s.len() - 1 {
        assert(s.update(i, t).drop_last() =~= p.update(i, t));
        lemma_states_of_update(p, i, t);
        assert(ids_of(s)[i] != ids_of(s)[s.len() - 1]);
        assert(states_of(s.update(i, t)) =~= states_of(s).insert(t.id@, t.control_state));
    } else {
        assert(s.update(i, t).drop_last() =~= p);
        lemma_states_of_dom(p);
        assert(states_of(s.update(i, t)) =~= states_of(s).insert(t.id@, t.control_state));
    }
}

/// The transfers of `s` whose id is not `k`, in order.
pub open spec fn without_id(s: Seq<TransferRuntime>, k: Seq<char>) -> Seq<TransferRuntime>
    decreases s.len(),
{
    if s.len() == 0 {
        s
    } else if s.last().id@ != k {
        without_id(s.drop_last(), k).push(s.last())
    } else {
        without_id(s.drop_last(), k)
    }
}

proof fn lemma_states_of_remove(s: Seq<TransferRuntime>, k: Seq<char>)
    ensures
        states_of(without_id(s, k)) == states_of(s).remove(k),
        ids_of(s).no_duplicates() ==> ids_of(without_id(s, k)).no_duplicates(),
    decreases s.len(),
{
    let r = without_id(s, k);
    if s.len() > 0 {
        let p = s.drop_last();
        lemma_states_of_remove(p, k);
        let rp = without_id(p, k);
        assert(ids_of(p) =~= ids_of(s).drop_last());
        lemma_states_of_dom(p);
        lemma_states_of_dom(rp);
        if s.last().id@ != k {
            assert(r.drop_last() =~= rp);
            assert(states_of(r) =~= states_of(s).remove(k));
            if ids_of(s).no_duplicates() {
                assert(!ids_of(rp).contains(s.last().id@)) by {
                    if ids_of(rp).contains(s.last().id@) {
                        assert(states_of(rp).dom().contains(s.last().id@));
                        assert(states_of(p).dom().contains(s.last().id@));
                        assert(ids_of(p).contains(s.last().id@));
                        let i = choose|i: int| 0 <= i < ids_of(p).len() && ids_of(p)[i] == s.last().id@;
                        assert(ids_of(s)[i] == ids_of(s)[s.len() - 1]);
                    }
                }
                assert(ids_of(r) =~= ids_of(rp).push(s.last().id@));
                assert forall|a: int, b: int|
                    0 <= a < ids_of(r).len() && 0 <= b < ids_of(r).len() && a != b implies ids_of(
                    r,
                )[a] != ids_of(r)[b] by {
                    if a == ids_of(rp).len() {
                        assert(ids_of(rp).contains(ids_of(rp)[b]));
                    } else if b == ids_of(rp).len() {
                        assert(ids_of(rp).contains(ids_of(rp)[a]));
                    }
                }
            }
        } else {
            assert(states_of(r) =~= states_of(s).remove(k));
        }
    } else {
        assert(states_of(r) =~= states_of(s).remove(k));
    }
}

impl TransferRegistry {
    /// The control state of each active transfer, by id.
    pub closed spec fn states(&self) -> Map<Seq<char>, TransferControlState> {
        states_of(self.transfers@)
    }

    /// The registry's invariant: ids are distinct.
    pub closed spec fn wf(&self) -> bool {
        ids_of(self.transfers@).no_duplicates()
    }

    /// An empty registry.
    pub fn new() -> (res: Self)
        ensures
            res.wf(),
            res.states() == Map::<Seq<char>, TransferControlState>::empty(),
    {
        let res = TransferRegistry { transfers: Vec::new() };
        assert(ids_of(res.transfers@) =~= Seq::<Seq<char>>::empty());
        res
    }

    /// The index of the transfer with id `id`.
    fn position(&self, id: &str) -> (res: Option<usize>)
        requires
            self.wf(),
        ensures
            match res {
                Some(i) => i < self.transfers@.len() && self.transfers@[i as int].id@ == id@,
                None => !self.states().dom().contains(id@),
            },
    {
        let mut i: usize = 0;
        while i < self.transfers.len()
            invariant
                i <= self.transfers.len(),
                forall|j: int| 0 <= j < i ==> self.transfers@[j].id@ != id@,
            decreases self.transfers.len() - i,
        {
            if str_eq(self.transfers[i].id.as_str(), id) {
                return Some(i);
            }
            i = i + 1;
        }
        proof {
            lemma_states_of_dom(self.transfers@);
            if ids_of(self.transfers@).contains(id@) {
                let j = choose|j: int|
                    0 <= j < ids_of(self.transfers@).len() && ids_of(self.transfers@)[j] == id@;
                assert(self.transfers@[j].id@ == id@);
            }
        }
        None
    }

    /// Number of active transfers.
    pub fn active_transfer_count(&self) -> (res: usize)
        requires
            self.wf(),
        ensures
            res == self.states().dom().len(),
    {
        proof {
            lemma_states_of_dom(self.transfers@);
        }
        self.transfers.len()
    }

    /// Registers a transfer, replacing one with the same id.
    pub fn register(&mut self, t: TransferRuntime)
        requires
            old(self).wf(),
        ensures
            final(self).wf(),
            final(self).states() == old(self).states().insert(t.id@, t.control_state),
    {
        let ghost k = t.id@;
        let ghost st = t.control_state;
        match self.position(t.id.as_str()) {
            Some(i) => {
                proof {
                    lemma_states_of_update(self.transfers@, i as int, t);
                }
                self.transfers.set(i, t);
            },
            None => {
                let ghost s0 = self.transfers@;
                proof {
                    lemma_states_of_dom(s0);
                }
                self.transfers.push(t);
                proof {
                    assert(self.transfers@.drop_last() =~= s0);
                    assert(ids_of(self.transfers@) =~= ids_of(s0).push(k));
                    assert forall|a: int, b: int|
                        0 <= a < ids_of(self.transfers@).len() && 0 <= b < ids_of(
                            self.transfers@,
                        ).len() && a != b implies ids_of(self.transfers@)[a] != ids_of(
                        self.transfers@,
                    )[b] by {
                        if a == s0.len() {
                            assert(ids_of(s0).contains(ids_of(s0)[b]));
                        } else if b == s0.len() {
                            assert(ids_of(s0).contains(ids_of(s0)[a]));
                        }
                    }
                }
            },
        }
    }

    /// Starts a transfer: it is registered and its `started` event (size 0,
    /// no error) is the first it reports.
    pub fn begin_transfer(&mut self, t: TransferRuntime) -> (res: TransferEvent)
        requires
            old(self).wf(),
        ensures
            final(self).wf(),
            final(self).states() == old(self).states().insert(t.id@, t.control_state),
            is_event_of(res, t, "started"@, 0, None),
    {
        let ev = t.build_event("started", 0, None);
        self.register(t);
        ev
    }

    /// Ends a file transfer that ran with `outcome`: it is closed as
    /// `finish` closes it (its last event, if any) and leaves the registry.
    pub fn end_transfer(&mut self, t: &mut TransferRuntime, outcome: &AppResult<u64>) -> (res: Option<
        TransferEvent,
    >)
        requires
            old(self).wf(),
        ensures
            final(self).wf(),
            final(self).states() == old(self).states().remove(old(t).id@),
            same_transfer(*final(t), *old(t)),
            final(t).control_state == old(t).control_state,
            match outcome {
                Ok(size) => final(t).bytes_transferred == *size && final(t).total_size == *size && (
                res matches Some(ev) && is_event_of(ev, *final(t), "completed"@, *size, None)),
                Err(AppError::Cancelled(_)) => res is None && *final(t) == *old(t),
                Err(e) => *final(t) == *old(t) && (res matches Some(ev) && (ev.error_msg matches Some(
                    m,
                ) && m@ == crate::error::app_error_text(*e)) && is_event_of(
                    ev,
                    *final(t),
                    "error"@,
                    0,
                    ev.error_msg,
                )),
            },
    {
        let ev = t.finish(outcome);
        self.unregister_transfer(t.id.as_str());
        ev
    }

    /// Removes the transfer with id `id`, if any.
    pub fn unregister_transfer(&mut self, id: &str)
        requires
            old(self).wf(),
        ensures
            final(self).wf(),
            final(self).states() == old(self).states().remove(id@),
    {
        let ghost s0 = self.transfers@;
        let mut kept: Vec<TransferRuntime> = Vec::new();
        let mut i: usize = 0;
        while i < self.transfers.len()
            invariant
                i <= self.transfers.len(),
                self.transfers@ == s0,
                kept@ == without_id(s0.take(i as int), id@),
            decreases self.transfers.len() - i,
        {
            proof {
                assert(s0.take(i + 1).drop_last() =~= s0.take(i as int));
            }
            if !str_eq(self.transfers[i].id.as_str(), id) {
                kept.push(self.transfers[i].clone_runtime());
            }
            i = i + 1;
        }
        proof {
            assert(s0.take(s0.len() as int) =~= s0);
            lemma_states_of_remove(s0, id@);
        }
        self.transfers = kept;
    }

    /// Pauses the transfer with id `id`; its event when it was running.
    pub fn pause_transfer(&mut self, id: &str) -> (res: Option<TransferEvent>)
        requires
            old(self).wf(),
        ensures
            final(self).wf(),
            match old(self).states().get(id@) {
                Some(TransferControlState::Running) => final(self).states() == old(
                    self,
                ).states().insert(id@, TransferControlState::Paused) && (res matches Some(ev)
                    && ev.id@ == id@ && ev.status@ == "paused"@),
                _ => final(self).states() == old(self).states() && res is None,
            },
    {
        match self.position(id) {
            None => None,
            Some(i) => {
                proof {
                    lemma_states_of_lookup(self.transfers@, i as int);
                }
                let mut t = self.transfers.remove(i);
                let ev = t.pause();
                let ghost s0 = old(self).transfers@;
                self.transfers.insert(i, t);
                proof {
                    assert(self.transfers@ =~= s0.update(i as int, t));
                    lemma_states_of_update(s0, i as int, t);
                    if s0[i as int].control_state != TransferControlState::Running {
                        assert(states_of(s0).insert(t.id@, t.control_state) =~= states_of(s0));
                    }
                }
                ev
            },
        }
    }

    /// Resumes the transfer with id `id`; its event when it was paused.
    pub fn resume_transfer(&mut self, id: &str) -> (res: Option<TransferEvent>)
        requires
            old(self).wf(),
        ensures
            final(self).wf(),
            match old(self).states().get(id@) {
                Some(TransferControlState::Paused) => final(self).states() == old(
                    self,
                ).states().insert(id@, TransferControlState::Running) && (res matches Some(ev)
                    && ev.id@ == id@ && ev.status@ == "resumed"@),
                _ => final(self).states() == old(self).states() && res is None,
            },
    {
        match self.position(id) {
            None => None,
            Some(i) => {
                proof {
                    lemma_states_of_lookup(self.transfers@, i as int);
                }
                let mut t = self.transfers.remove(i);
                let ev = t.resume();
                let ghost s0 = old(self).transfers@;
                self.transfers.insert(i, t);
                proof {
                    assert(self.transfers@ =~= s0.update(i as int, t));
                    lemma_states_of_update(s0, i as int, t);
                    if s0[i as int].control_state != TransferControlState::Paused {
                        assert(states_of(s0).insert(t.id@, t.control_state) =~= states_of(s0));
                    }
                }
                ev
            },
        }
    }

    /// Cancels the transfer with id `id`; its event unless it was cancelled already.
    pub fn cancel_transfer(&mut self, id: &str) -> (res: Option<TransferEvent>)
        requires
            old(self).wf(),
        ensures
            final(self).wf(),
            match old(self).states().get(id@) {
                Some(TransferControlState::Cancelled) => final(self).states() == old(self).states()
                    && res is None,
                Some(_) => final(self).states() == old(self).states().insert(
                    id@,
                    TransferControlState::Cancelled,
                ) && (res matches Some(ev) && ev.id@ == id@ && ev.status@ == "cancelled"@),
                None => final(self).states() == old(self).states() && res is None,
            },
    {
        match self.position(id) {
            None => None,
            Some(i) => {
                proof {
                    lemma_states_of_lookup(self.transfers@, i as int);
                }
                let mut t = self.transfers.remove(i);
                let ev = t.cancel();
                let ghost s0 = old(self).transfers@;
                self.transfers.insert(i, t);
                proof {
                    assert(self.transfers@ =~= s0.update(i as int, t));
                    lemma_states_of_update(s0, i as int, t);
                    if s0[i as int].control_state == TransferControlState::Cancelled {
                        assert(states_of(s0).insert(t.id@, t.control_state) =~= states_of(s0));
                    }
                }
                ev
            },
        }
    }

    /// The control state of the transfer with id `id`.
    pub fn control_state(&self, id: &str) -> (res: Option<TransferControlState>)
        requires
            self.wf(),
        ensures
            res == self.states().get(id@),
    {
        match self.position(id) {
            None => None,
            Some(i) => {
                proof {
                    lemma_states_of_lookup(self.transfers@, i as int);
                }
                Some(self.transfers[i].control_state)
            },
        }
    }
}

impl TransferRuntime {
    /// An identical copy of this transfer.
    pub fn clone_runtime(&self) -> (res: Self)
        ensures
            res == *self,
    {
        TransferRuntime {
            id: self.id.clone(),
            session_id: self.session_id.clone(),
            file_name: self.file_name.clone(),
            remote_path: self.remote_path.clone(),
            local_path: self.local_path.clone(),
            direction: self.direction.clone(),
            kind: self.kind.clone(),
            parent_id: clone_opt_string(&self.parent_id),
            bytes_transferred: self.bytes_transferred,
            total_size: self.total_size,
            item_count_total: self.item_count_total,
            item_count_completed: self.item_count_completed,
            control_state: self.control_state,
        }
    }
}


// ---------------------------------------------------------------------------
// Creating transfers
// ---------------------------------------------------------------------------

/// A running directory transfer under a fresh id, counting `item_count_total`
/// files of which none is done yet.
pub fn create_directory_transfer(
    session_id: &str,
    display_name: String,
    remote_path: &str,
    local_path: &str,
    direction: &str,
    item_count_total: u64,
) -> (res: TransferRuntime)
    ensures
        is_uuid_v4_text(res.id@),
        res.session_id@ == session_id@,
        res.file_name == display_name,
        res.remote_path@ == remote_path@,
        res.local_path@ == local_path@,
        res.direction@ == direction@,
        res.kind@ == "directory"@,
        res.parent_id is None,
        res.bytes_transferred == 0 && res.total_size == 0,
        res.item_count_total == Some(item_count_total),
        res.item_count_completed == Some(0u64),
        res.control_state == TransferControlState::Running,
{
    TransferRuntime::new_with_kind(
        uuid_v4(),
        to_owned_string(session_id),
        display_name,
        to_owned_string(remote_path),
        to_owned_string(local_path),
        to_owned_string(direction),
        to_owned_string("directory"),
        None,
        Some(item_count_total),
        Some(0),
    )
}

/// A running file transfer under a fresh id, inside the directory transfer
/// `parent_id` when there is one.
pub fn create_child_file_transfer(
    session_id: &str,
    file_name: String,
    remote_path: &str,
    local_path: &str,
    direction: &str,
    parent_id: Option<String>,
) -> (res: TransferRuntime)
    ensures
        is_uuid_v4_text(res.id@),
        res.session_id@ == session_id@,
        res.file_name == file_name,
        res.remote_path@ == remote_path@,
        res.local_path@ == local_path@,
        res.direction@ == direction@,
        res.kind@ == "file"@,
        res.parent_id == parent_id,
        res.bytes_transferred == 0 && res.total_size == 0,
        res.item_count_total is None && res.item_count_completed is None,
        res.control_state == TransferControlState::Running,
{
    TransferRuntime::new_with_kind(
        uuid_v4(),
        to_owned_string(session_id),
        file_name,
        to_owned_string(remote_path),
        to_owned_string(local_path),
        to_owned_string(direction),
        to_owned_string("file"),
        parent_id,
        None,
        None,
    )
}

// ---------------------------------------------------------------------------
// Chunk scheduling
// ---------------------------------------------------------------------------

/// Bytes per chunk for a buffer setting in KiB; a setting of zero counts as one.
pub open spec fn chunk_size_spec(buffer_kib: u32) -> nat {
    if buffer_kib == 0 {
        1024
    } else {
        (buffer_kib * 1024) as nat
    }
}

/// The number of chunks of `chunk` bytes that `total` bytes take (rounded up).
pub open spec fn chunk_count(total: nat, chunk: nat) -> nat
    recommends
        chunk > 0,
{
    total / chunk + if total % chunk == 0 {
        0nat
    } else {
        1nat
    }
}

/// How many chunks run at once: the thread setting (at least one), but never
/// more than there are chunks.
pub open spec fn concurrency_spec(threads: u32, total: nat, chunk: nat) -> nat {
    let t: nat = if threads == 0 {
        1
    } else {
        threads as nat
    };
    if t <= chunk_count(total, chunk) {
        t
    } else {
        chunk_count(total, chunk)
    }
}

/// The size of a transfer chunk for the buffer setting `buffer_kib`.
pub fn chunk_size_for(buffer_kib: u32) -> (res: u64)
    ensures
        res == chunk_size_spec(buffer_kib),
        res >= 1024,
{
    let kib: u64 = if buffer_kib == 0 {
        1
    } else {
        buffer_kib as u64
    };
    kib * 1024
}

/// How many chunks of a transfer of `total` bytes run concurrently.
pub fn transfer_concurrency(threads: u32, total: u64, chunk: u64) -> (res: u64)
    requires
        chunk > 0,
    ensures
        res == concurrency_spec(threads, total as nat, chunk as nat),
{
    let t: u64 = if threads == 0 {
        1
    } else {
        threads as u64
    };
    let count: u64 = if total % chunk == 0 {
        total / chunk
    } else {
        assert(chunk >= 2 && total / chunk <= total / 2) by {
            vstd::arithmetic::div_mod::lemma_div_is_ordered_by_denominator(total as int, 2, chunk as int);
        }
        total / chunk + 1
    };
    if t <= count {
        t
    } else {
        count
    }
}

/// The chunks `(offset, length)` that cover `[offset, total)`, in order, each
/// `chunk` bytes but the last.
pub open spec fn chunks_from(offset: nat, total: nat, chunk: nat) -> Seq<(nat, nat)>
    decreases total - offset,
{
    if chunk == 0 || offset >= total {
        Seq::empty()
    } else {
        let len: nat = if chunk <= total - offset {
            chunk
        } else {
            (total - offset) as nat
        };
        seq![(offset, len)] + chunks_from(offset + len, total, chunk)
    }
}

/// The number of bytes a list of chunks covers.
pub open spec fn chunk_bytes(s: Seq<(nat, nat)>) -> nat
    decreases s.len(),
{
    if s.len() == 0 {
        0
    } else {
        s[0].1 + chunk_bytes(s.drop_first())
    }
}

/// Hands out the chunks of a transfer in order.
pub struct ChunkCursor {
    total: u64,
    chunk: u64,
    next_offset: u64,
}

impl ChunkCursor {
    /// The cursor's invariant.
    pub closed spec fn wf(&self) -> bool {
        self.chunk > 0 && self.next_offset <= self.total
    }

    /// The chunks still to hand out.
    pub closed spec fn remaining(&self) -> Seq<(nat, nat)> {
        chunks_from(self.next_offset as nat, self.total as nat, self.chunk as nat)
    }

    /// A cursor at the start of a transfer of `total` bytes.
    pub fn new(total: u64, chunk: u64) -> (res: Self)
        requires
            chunk > 0,
        ensures
            res.wf(),
            res.remaining() == chunks_from(0, total as nat, chunk as nat),
    {
        ChunkCursor { total, chunk, next_offset: 0 }
    }

    /// The next chunk `(offset, length)`, or `None` once the transfer is covered.
    pub fn next_chunk(&mut self) -> (res: Option<(u64, u64)>)
        requires
            old(self).wf(),
        ensures
            final(self).wf(),
            old(self).remaining().len() == 0 ==> res is None && final(self).remaining().len() == 0,
            old(self).remaining().len() > 0 ==> (res matches Some(c) && (c.0 as nat, c.1 as nat)
                == old(self).remaining()[0] && final(self).remaining() == old(
                self,
            ).remaining().drop_first()),
    {
        if self.next_offset >= self.total {
            return None;
        }
        let rest = self.total - self.next_offset;
        let len = if self.chunk <= rest {
            self.chunk
        } else {
            rest
        };
        let offset = self.next_offset;
        self.next_offset = self.next_offset + len;
        proof {
            assert(old(self).remaining() =~= seq![(offset as nat, len as nat)] + self.remaining());
        }
        Some((offset, len))
    }
}

proof fn lemma_chunks_from(offset: nat, total: nat, chunk: nat)
    requires
        chunk > 0,
        offset <= total,
    ensures
        chunk_bytes(chunks_from(offset, total, chunk)) == total - offset,
        chunks_from(offset, total, chunk).len() == chunk_count((total - offset) as nat, chunk),
        forall|i: int|
            0 <= i < chunks_from(offset, total, chunk).len() ==> {
                let c = #[trigger] chunks_from(offset, total, chunk)[i];
                &&& 0 < c.1 <= chunk
                &&& offset <= c.0
                &&& c.0 + c.1 <= total
                &&& i + 1 < chunks_from(offset, total, chunk).len() ==> c.1 == chunk
                    && chunks_from(offset, total, chunk)[i + 1].0 == c.0 + c.1
            },
        chunks_from(offset, total, chunk).len() > 0 ==> chunks_from(offset, total, chunk)[0].0
            == offset,
        chunks_from(offset, total, chunk).len() > 0 ==> ({
            let s = chunks_from(offset, total, chunk);
            s[s.len() - 1].0 + s[s.len() - 1].1 == total
        }),
    decreases total - offset,
{
    let s = chunks_from(offset, total, chunk);
    let x = (total - offset) as nat;
    if offset >= total {
        assert(x == 0);
        assert(chunk_count(0, chunk) == 0) by (nonlinear_arith)
            requires
                chunk > 0,
        ;
    } else {
        let len: nat = if chunk <= x {
            chunk
        } else {
            x
        };
        let r = chunks_from(offset + len, total, chunk);
        lemma_chunks_from(offset + len, total, chunk);
        assert(s == seq![(offset, len)] + r);
        assert(s.drop_first() =~= r);
        if chunk <= x {
            assert(chunk_count(x, chunk) == 1 + chunk_count((x - chunk) as nat, chunk)) by {
                vstd::arithmetic::div_mod::lemma_div_plus_one(x - chunk, chunk as int);
                vstd::arithmetic::div_mod::lemma_mod_add_multiples_vanish(x - chunk, chunk as int);
            }
        } else {
            assert(r.len() == 0);
            assert(chunk_count(x, chunk) == 1) by {
                vstd::arithmetic::div_mod::lemma_basic_div(x as int, chunk as int);
                vstd::arithmetic::div_mod::lemma_small_mod(x, chunk);
            }
        }
        assert forall|i: int| 0 <= i < s.len() implies {
            let c = #[trigger] s[i];
            &&& 0 < c.1 <= chunk
            &&& offset <= c.0
            &&& c.0 + c.1 <= total
            &&& i + 1 < s.len() ==> c.1 == chunk && s[i + 1].0 == c.0 + c.1
        } by {
            if i > 0 {
                assert(s[i] == r[i - 1]);
                if i + 1 < s.len() {
                    assert(s[i + 1] == r[i]);
                }
            } else if i + 1 < s.len() {
                assert(s[1] == r[0]);
            }
        }
        if r.len() > 0 {
            assert(s[s.len() - 1] == r[r.len() - 1]);
        }
    }
}

/// The chunks of a transfer cover it exactly: they follow each other from
/// offset zero without gap or overlap, each but the last is a full chunk, the
/// last ends at the total, their lengths add up to the total, and there are as
/// many as the total takes chunks, rounded up.
pub proof fn law_chunks_cover_transfer(total: u64, buffer_kib: u32)
    ensures
        ({
            let chunk = chunk_size_spec(buffer_kib);
            let s = chunks_from(0, total as nat, chunk);
            &&& chunk_bytes(s) == total
            &&& s.len() == chunk_count(total as nat, chunk)
            &&& s.len() > 0 ==> s[0].0 == 0 && s[s.len() - 1].0 + s[s.len() - 1].1 == total
            &&& forall|i: int|
                0 <= i < s.len() ==> {
                    let c = #[trigger] s[i];
                    &&& 0 < c.1 <= chunk
                    &&& i + 1 < s.len() ==> c.1 == chunk && s[i + 1].0 == c.0 + c.1
                }
        }),
{
    let chunk = chunk_size_spec(buffer_kib);
    lemma_chunks_from(0, total as nat, chunk);
}

// ---------------------------------------------------------------------------
// Retries
// ---------------------------------------------------------------------------

/// What to do after one attempt of a transfer.
#[derive(Debug)]
pub enum RetryStep {
    /// Stop with this result.
    Finished(AppResult<()>),
    /// Start the next attempt.
    Retry,
}

/// Counts the attempts of a transfer that is retried up to `max_retries`
/// times after its first attempt.
pub struct RetryTracker {
    attempt: u32,
    max_retries: u32,
}

impl RetryTracker {
    /// The attempt under way, counted from zero.
    pub closed spec fn attempt(&self) -> nat {
        self.attempt as nat
    }

    /// The most retries allowed.
    pub closed spec fn max_retries(&self) -> nat {
        self.max_retries as nat
    }

    /// The tracker's invariant: the attempt under way is allowed.
    pub closed spec fn wf(&self) -> bool {
        self.attempt <= self.max_retries
    }

    /// A tracker at the first attempt.
    pub fn new(max_retries: u32) -> (res: Self)
        ensures
            res.wf(),
            res.attempt() == 0,
            res.max_retries() == max_retries,
    {
        RetryTracker { attempt: 0, max_retries }
    }

    /// The attempt under way, counted from zero.
    pub fn current_attempt(&self) -> (res: u32)
        ensures
            res == self.attempt(),
    {
        self.attempt
    }

    /// Records the outcome of the attempt under way: success and cancellation
    /// end the transfer, another error is retried while retries remain and
    /// ends it with that error otherwise.
    pub fn record(&mut self, outcome: AppResult<()>) -> (res: RetryStep)
        requires
            old(self).wf(),
        ensures
            final(self).wf(),
            final(self).max_retries() == old(self).max_retries(),
            match outcome {
                Ok(()) => res matches RetryStep::Finished(Ok(())) && final(self).attempt() == old(
                    self,
                ).attempt(),
                Err(AppError::Cancelled(m)) => (res matches RetryStep::Finished(Err(
                    AppError::Cancelled(m2),
                )) && m2 == m) && final(self).attempt() == old(self).attempt(),
                Err(e) => if old(self).attempt() < old(self).max_retries() {
                    res is Retry && final(self).attempt() == old(self).attempt() + 1
                } else {
                    (res matches RetryStep::Finished(Err(e2)) && e2 == e) && final(self).attempt()
                        == old(self).attempt()
                },
            },
    {
        match outcome {
            Ok(()) => RetryStep::Finished(Ok(())),
            Err(AppError::Cancelled(m)) => RetryStep::Finished(Err(AppError::Cancelled(m))),
            Err(e) => {
                if self.attempt < self.max_retries {
                    self.attempt = self.attempt + 1;
                    RetryStep::Retry
                } else {
                    RetryStep::Finished(Err(e))
                }
            },
        }
    }
}

// ---------------------------------------------------------------------------
// Files that already exist at the destination
// ---------------------------------------------------------------------------

/// What to do with a destination path.
#[derive(Debug, Clone, Copy, PartialEq, Eq, Structural)]
pub enum DuplicateAction {
    /// Write to the path as given.
    UsePath,
    /// Report the file as done without transferring it.
    Skip,
    /// Look for a free name `stem(n).ext`.
    Rename,
}

/// The action for a destination that `exists` or not, under the duplicate
/// strategy `strategy`.
pub open spec fn duplicate_action_spec(exists: bool, strategy: Seq<char>) -> DuplicateAction {
    if !exists {
        DuplicateAction::UsePath
    } else if strategy == "skip"@ {
        DuplicateAction::Skip
    } else if strategy == "rename"@ {
        DuplicateAction::Rename
    } else {
        DuplicateAction::UsePath
    }
}

/// Chooses the action for a destination path: a free path is used as it is;
/// an existing one is skipped under "skip", renamed under "rename", and
/// overwritten under any other strategy.
pub fn duplicate_action(exists: bool, strategy: &str) -> (res: DuplicateAction)
    ensures
        res == duplicate_action_spec(exists, strategy@),
{
    proof {
        reveal_strlit("skip");
        reveal_strlit("rename");
    }
    if !exists {
        DuplicateAction::UsePath
    } else if str_eq(strategy, "skip") {
        DuplicateAction::Skip
    } else if str_eq(strategy, "rename") {
        DuplicateAction::Rename
    } else {
        DuplicateAction::UsePath
    }
}

/// The highest number tried when renaming.
pub const MAX_RENAME_INDEX: u32 = 999;

/// The file name `stem(index)` followed by `.ext` when there is an extension.
pub open spec fn rename_file_name_spec(stem: Seq<char>, index: nat, ext: Option<Seq<char>>) -> Seq<char> {
    stem + "("@ + decimal(index) + ")"@ + match ext {
        Some(e) => "."@ + e,
        None => Seq::empty(),
    }
}

/// The renamed file name tried at `index`.
pub fn rename_file_name(stem: &str, index: u32, ext: Option<&str>) -> (res: String)
    ensures
        res@ == rename_file_name_spec(stem@, index as nat, match ext {
            Some(e) => Some(e@),
            None => None,
        }),
{
    proof {
        reveal_strlit("(");
        reveal_strlit(")");
        reveal_strlit(".");
    }
    let mut s = to_owned_string(stem);
    push_str(&mut s, "(");
    let digits = u64_to_string(index as u64);
    push_str(&mut s, digits.as_str());
    push_str(&mut s, ")");
    match ext {
        Some(e) => {
            push_str(&mut s, ".");
            push_str(&mut s, e);
        },
        None => {},
    }
    proof {
        assert(s@ =~= rename_file_name_spec(stem@, index as nat, match ext {
            Some(e) => Some(e@),
            None => None,
        }));
    }
    s
}

/// The index of the last `.` in `name`.
pub open spec fn last_dot(name: Seq<char>) -> Option<int>
    decreases name.len(),
{
    if name.len() == 0 {
        None
    } else if name.last() == '.' {
        Some(name.len() - 1)
    } else {
        last_dot(name.drop_last())
    }
}

/// The stem and extension of a file name as `Path::file_stem` and
/// `Path::extension` take them: the name is split at its last `.`, unless
/// there is none or it is the first character; then the whole name is the
/// stem and there is no extension.
pub open spec fn file_stem_ext(name: Seq<char>) -> (Seq<char>, Option<Seq<char>>) {
    match last_dot(name) {
        Some(i) => if i > 0 {
            (name.take(i), Some(name.skip(i + 1)))
        } else {
            (name, None)
        },
        None => (name, None),
    }
}

/// Splits a file name into its stem and extension (see [`file_stem_ext`]).
pub fn split_file_name(name: &str) -> (res: (String, Option<String>))
    ensures
        res.0@ == file_stem_ext(name@).0,
        match file_stem_ext(name@).1 {
            Some(e) => res.1 matches Some(x) && x@ == e,
            None => res.1 is None,
        },
{
    let v = chars_of(name);
    let n = v.len();
    let mut i = n;
    assert(v@.take(n as int) =~= v@);
    while i > 0
        invariant
            i <= n == v.len(),
            v@ == name@,
            last_dot(v@) == last_dot(v@.take(i as int)),
        decreases i,
    {
        proof {
            let t = v@.take(i as int);
            assert(t.drop_last() =~= v@.take(i - 1));
            assert(t.last() == v@[i - 1]);
        }
        if v[i - 1] == '.' {
            proof {
                assert(v@.subrange(0, n as int) =~= v@);
                assert(last_dot(v@.take(i as int)) == Some(i - 1));
                assert(last_dot(v@) == Some(i - 1));
            }
            if i == 1 {
                return (string_from_range(&v, 0, n), None);
            }
            let stem = string_from_range(&v, 0, i - 1);
            let ext = string_from_range(&v, i, n);
            assert(stem@ =~= v@.take(i - 1));
            assert(ext@ =~= v@.skip(i as int));
            return (stem, Some(ext));
        }
        i = i - 1;
    }
    assert(v@.take(0) =~= Seq::<char>::empty());
    assert(v@.subrange(0, n as int) =~= v@);
    (string_from_range(&v, 0, n), None)
}

/// `.` or `..`.
pub open spec fn is_dot_name(s: Seq<char>) -> bool {
    s == seq!['.'] || s == seq!['.', '.']
}

/// A path made of one plain name on every platform: not empty, not `.` or
/// `..`, and free of `/`, `\` and `:`.
pub open spec fn is_plain_name(s: Seq<char>) -> bool {
    &&& s.len() > 0
    &&& !is_dot_name(s)
    &&& forall|i: int| 0 <= i < s.len() ==> s[i] != '/' && s[i] != '\\' && s[i] != ':'
}

/// The final component of `path` (`Path::file_name`), as text; `None` when
/// the path ends in `..` or has no component.  Which characters separate
/// components depends on the platform; on every platform the component is
/// not empty, holds no `/`, is neither `.` nor `..`, and a path that is one
/// plain name is its own file name.
#[verifier::external_body]
fn path_file_name(path: &str) -> (res: Option<String>)
    ensures
        res matches Some(f) ==> f@.len() > 0 && !f@.contains('/') && !is_dot_name(f@),
        is_plain_name(path@) ==> res is Some && res->0@ == path@,
{
    match std::path::Path::new(path).file_name() {
        Some(f) => Some(f.to_string_lossy().to_string()),
        None => None,
    }
}

/// `path` without its final component (`Path::parent`), as text; `None` when
/// the path ends in a root or prefix, or is empty.  What the platform counts
/// as a component decides the result in general; a path that is one plain
/// name has the empty parent.
#[verifier::external_body]
fn path_parent(path: &str) -> (res: Option<String>)
    ensures
        is_plain_name(path@) ==> res is Some && res->0@.len() == 0,
{
    match std::path::Path::new(path).parent() {
        Some(p) => Some(p.to_string_lossy().to_string()),
        None => None,
    }
}

/// The parts of an existing path that renaming uses: its parent directory
/// (`None` when it has none), and the stem and extension of its file name
/// (an empty stem and no extension when it has none).
pub fn rename_parts(path: &str) -> (res: (Option<String>, String, Option<String>))
    ensures
        is_plain_name(path@) ==> {
            &&& res.0 matches Some(p) && p@.len() == 0
            &&& res.1@ == file_stem_ext(path@).0
            &&& res.2 matches Some(e) ==> file_stem_ext(path@).1 == Some(e@)
            &&& res.2 is None ==> file_stem_ext(path@).1 is None
        },
        exists|name: Option<Seq<char>>|
            #![trigger rename_parts_of(name)]
            {
                &&& (name matches Some(n) ==> n.len() > 0)
                &&& rename_parts_of(name).0 == res.1@
                &&& rename_parts_of(name).1 == match res.2 {
                    Some(e) => Some(e@),
                    None => None::<Seq<char>>,
                }
            },
        parts_fit(path@, opt_text(res.0), res.1@, opt_text(res.2)),
{
    let parent = path_parent(path);
    match path_file_name(path) {
        Some(f) => {
            let (stem, ext) = split_file_name(f.as_str());
            assert(rename_parts_of(Some(f@)).0 == stem@);
            assert(rename_parts_of(Some(f@)) == (stem@, opt_text(ext)));
            proof {
                if is_plain_name(path@) {
                    assert(parent->0@ =~= Seq::<char>::empty());
                    assert(opt_text(parent) == Some(Seq::<char>::empty()));
                    assert(f@ == path@);
                    assert((stem@, opt_text(ext)) == file_stem_ext(path@));
                }
            }
            (parent, stem, ext)
        },
        None => {
            let stem = String::new();
            assert(rename_parts_of(None).0 == Seq::<char>::empty());
            assert(rename_parts_of(None) == (stem@, opt_text(None)));
            (parent, stem, None)
        },
    }
}

/// The text of an optional string.
pub open spec fn opt_text(o: Option<String>) -> Option<Seq<char>> {
    match o {
        Some(s) => Some(s@),
        None => None,
    }
}

/// `parent`, `stem` and `ext` are what `rename_parts` can give for `path`:
/// the stem and extension of some file name (a non-empty one without `/`,
/// neither `.` nor `..`), or none; and for a path that is one plain name,
/// the empty parent and the split of the path itself.
pub open spec fn parts_fit(
    path: Seq<char>,
    parent: Option<Seq<char>>,
    stem: Seq<char>,
    ext: Option<Seq<char>>,
) -> bool {
    &&& exists|name: Option<Seq<char>>|
        #![trigger rename_parts_of(name)]
        {
            &&& (name matches Some(n) ==> n.len() > 0 && !n.contains('/') && !is_dot_name(n))
            &&& rename_parts_of(name) == (stem, ext)
        }
    &&& is_plain_name(path) ==> parent == Some(Seq::<char>::empty()) && (stem, ext) == file_stem_ext(
        path,
    )
}

/// A directory path written with `/` only: no `\` and no `:`.
pub open spec fn is_slash_path(s: Seq<char>) -> bool {
    forall|i: int| 0 <= i < s.len() ==> s[i] != '\\' && s[i] != ':'
}

/// `joined` is `base` and `name` with at most one separator between them.
pub open spec fn is_joined(base: Seq<char>, name: Seq<char>, joined: Seq<char>) -> bool {
    joined == base + name || joined == base + seq!['/'] + name || joined == base + seq!['\\']
        + name
}

/// `base` joined with `name` (`Path::join`), as text.  Which separator goes
/// between them depends on the platform; for a plain name and a directory
/// written with `/` only, the name follows the directory after at most one
/// separator, directly when the directory is empty or ends in `/`.
#[verifier::external_body]
fn path_join(base: &str, name: &str) -> (res: String)
    ensures
        is_plain_name(name@) && is_slash_path(base@) ==> is_joined(base@, name@, res@),
        is_plain_name(name@) && base@.len() == 0 ==> res@ == name@,
        is_plain_name(name@) && is_slash_path(base@) && base@.len() > 0 && base@.last() == '/'
            ==> res@ == base@ + name@,
{
    std::path::Path::new(base).join(name).to_string_lossy().to_string()
}

/// `candidate` is where a download of `local_path` is renamed to at
/// `index`: the parent directory (`.` when there is none) joined with
/// `stem(index).ext`, as far as the platform lets this be stated.
pub open spec fn is_local_candidate(local_path: Seq<char>, index: nat, candidate: Seq<char>) -> bool {
    exists|parent: Option<Seq<char>>, stem: Seq<char>, ext: Option<Seq<char>>|
        #![trigger parts_fit(local_path, parent, stem, ext)]
        {
            let base = match parent {
                Some(p) => p,
                None => seq!['.'],
            };
            let name = rename_file_name_spec(stem, index, ext);
            &&& parts_fit(local_path, parent, stem, ext)
            &&& is_plain_name(name) && is_slash_path(base) ==> is_joined(base, name, candidate)
            &&& is_plain_name(name) && base.len() == 0 ==> candidate == name
            &&& is_plain_name(name) && is_slash_path(base) && base.len() > 0 && base.last() == '/'
                ==> candidate == base + name
        }
}

/// The local path tried at `index` when renaming a download.
pub fn local_rename_candidate(local_path: &str, index: u32) -> (res: String)
    ensures
        is_local_candidate(local_path@, index as nat, res@),
{
    let (parent, stem, ext) = rename_parts(local_path);
    let base = match parent {
        Some(p) => p,
        None => to_owned_string("."),
    };
    let ext_ref: Option<&str> = match &ext {
        Some(e) => Some(e.as_str()),
        None => None,
    };
    let name = rename_file_name(stem.as_str(), index, ext_ref);
    let c = path_join(base.as_str(), name.as_str());
    proof {
        reveal_strlit(".");
        assert(".".view() =~= seq!['.']);
        assert(parts_fit(local_path@, opt_text(parent), stem@, opt_text(ext)));
    }
    c
}

/// `k` is the first free answer among the first `MAX_RENAME_INDEX`:
/// `taken[k]` is false and every earlier one is true.
pub open spec fn is_first_free(taken: Seq<bool>, k: int) -> bool {
    &&& 0 <= k < taken.len()
    &&& k < MAX_RENAME_INDEX
    &&& !taken[k]
    &&& forall|j: int| 0 <= j < k ==> taken[j]
}

/// Where a download to `local_path` goes.  A free path is used as it is;
/// an existing one is skipped (`None`) under "skip", and kept under any
/// strategy but "rename".  Under "rename", `taken[k]` answers whether the
/// name numbered `k + 1` exists, asked in order until one is free: the
/// first free one is used, and the path as given when the first
/// `MAX_RENAME_INDEX` answers are all taken (or the answers run out first).
#[verifier::rlimit(30)]
pub fn resolve_local_path(local_path: &str, strategy: &str, exists: bool, taken: &Vec<bool>) -> (res:
    Option<String>)
    ensures
        match duplicate_action_spec(exists, strategy@) {
            DuplicateAction::UsePath => res matches Some(r) && r@ == local_path@,
            DuplicateAction::Skip => res is None,
            DuplicateAction::Rename => {
                &&& forall|k: int| #[trigger]
                    is_first_free(taken@, k) ==> (res matches Some(c) && is_local_candidate(
                        local_path@,
                        (k + 1) as nat,
                        c@,
                    ))
                &&& (forall|k: int| 0 <= k < taken@.len() && k < MAX_RENAME_INDEX ==> taken@[k])
                    ==> (res matches Some(r) && r@ == local_path@)
            },
        },
{
    match duplicate_action(exists, strategy) {
        DuplicateAction::UsePath => Some(to_owned_string(local_path)),
        DuplicateAction::Skip => None,
        DuplicateAction::Rename => {
            let n: usize = if taken.len() < MAX_RENAME_INDEX as usize {
                taken.len()
            } else {
                MAX_RENAME_INDEX as usize
            };
            let mut k: usize = 0;
            while k < n
                invariant
                    k <= n <= taken.len(),
                    n <= MAX_RENAME_INDEX,
                    n == taken.len() || n == MAX_RENAME_INDEX,
                    forall|j: int| 0 <= j < k ==> taken@[j],
                    duplicate_action_spec(exists, strategy@) == DuplicateAction::Rename,
                decreases n - k,
            {
                if !taken[k] {
                    let c = local_rename_candidate(local_path, (k + 1) as u32);
                    proof {
                        assert(!taken@[k as int]);
                        assert(is_first_free(taken@, k as int));
                        assert(is_local_candidate(local_path@, (k + 1) as nat, c@));
                        assert(!(forall|j: int|
                            0 <= j < taken@.len() && j < MAX_RENAME_INDEX ==> taken@[j]));
                        assert forall|m: int| #[trigger] is_first_free(taken@, m) implies m == k by {
                            if m < k {
                                assert(taken@[m]);
                            } else if m > k {
                                assert(taken@[k as int]);
                            }
                        }
                    }
                    return Some(c);
                }
                k = k + 1;
            }
            proof {
                assert forall|m: int| #[trigger] is_first_free(taken@, m) implies false by {
                    assert(taken@[m]);
                }
            }
            Some(to_owned_string(local_path))
        },
    }
}

/// The stem and extension renaming takes from a file name that may be
/// missing: those of the name, or an empty stem and no extension.
pub open spec fn rename_parts_of(name: Option<Seq<char>>) -> (Seq<char>, Option<Seq<char>>) {
    match name {
        Some(n) => file_stem_ext(n),
        None => (Seq::empty(), None),
    }
}

/// The search for a free renamed path: names `stem(1).ext` to
/// `stem(999).ext` are tried in turn; when all are taken the path as given
/// is used after all.
pub struct RenameSearch {
    index: u32,
}

impl RenameSearch {
    /// The number of the name tried now.
    pub closed spec fn index(&self) -> nat {
        self.index as nat
    }

    /// The invariant: the number is one that is tried.
    pub closed spec fn wf(&self) -> bool {
        1 <= self.index <= MAX_RENAME_INDEX
    }

    /// A search at the first name.
    pub fn new() -> (res: Self)
        ensures
            res.wf(),
            res.index() == 1,
    {
        RenameSearch { index: 1 }
    }

    /// The number of the name to try now.
    pub fn current(&self) -> (res: u32)
        ensures
            res == self.index(),
    {
        self.index
    }

    /// The name tried now was taken: moves to the next one, or reports
    /// `false` when the last was tried.
    pub fn advance(&mut self) -> (res: bool)
        requires
            old(self).wf(),
        ensures
            final(self).wf(),
            res == (old(self).index() < MAX_RENAME_INDEX),
            res ==> final(self).index() == old(self).index() + 1,
            !res ==> final(self).index() == old(self).index(),
    {
        if self.index < MAX_RENAME_INDEX {
            self.index = self.index + 1;
            true
        } else {
            false
        }
    }
}

/// The remote path tried at `index`: the parent directory without trailing
/// slashes, a slash, and the renamed file name.
pub fn remote_rename_candidate(parent: &str, stem: &str, index: u32, ext: Option<&str>) -> (res: String)
    ensures
        res@ == strip_trailing_char(parent@, '/') + "/"@ + rename_file_name_spec(
            stem@,
            index as nat,
            match ext {
                Some(e) => Some(e@),
                None => None,
            },
        ),
{
    proof {
        reveal_strlit("/");
    }
    let p = chars_of(parent);
    let end = skip_trailing_char(&p, 0, p.len(), '/');
    let mut s = string_from_range(&p, 0, end);
    push_str(&mut s, "/");
    let name = rename_file_name(stem, index, ext);
    push_str(&mut s, name.as_str());
    proof {
        assert(p@.subrange(0, p@.len() as int) =~= p@);
    }
    s
}


// ---------------------------------------------------------------------------
// Directory transfers
// ---------------------------------------------------------------------------

/// What a directory transfer does with one entry of a directory.
#[derive(Debug)]
pub enum EntryAction {
    /// Transfer the subdirectory at these remote and local paths.
    Descend { remote: String, local: String },
    /// Transfer the file at these remote and local paths.
    Transfer { remote: String, local: String },
    /// Leave the entry alone.
    Skip,
}

/// The remote path of `name` in `dir`.
pub open spec fn remote_child(dir: Seq<char>, name: Seq<char>) -> Seq<char> {
    strip_trailing_char(dir, '/') + seq!['/'] + name
}

/// The local path of `name` in `dir`.
pub open spec fn local_child(dir: Seq<char>, name: Seq<char>) -> Seq<char> {
    strip_trailing_separators(dir) + seq!['/'] + name
}

/// The action for a remote entry of a directory being downloaded from
/// `remote_dir` to `local_dir`: subdirectories are descended into, symbolic
/// links are left alone, anything else is downloaded.  Both child paths
/// join with `/` after the parent's trailing slashes.
pub fn download_entry_action(remote_dir: &str, local_dir: &str, entry: &FileEntry) -> (res: EntryAction)
    ensures
        entry.is_dir ==> (res matches EntryAction::Descend { remote, local } && remote@ == remote_child(
            remote_dir@,
            entry.name@,
        ) && local@ == strip_trailing_char(local_dir@, '/') + seq!['/'] + entry.name@),
        !entry.is_dir && entry.is_symlink ==> res is Skip,
        !entry.is_dir && !entry.is_symlink ==> (res matches EntryAction::Transfer { remote, local }
            && remote@ == remote_child(remote_dir@, entry.name@) && local@ == strip_trailing_char(
            local_dir@,
            '/',
        ) + seq!['/'] + entry.name@),
{
    if !entry.is_dir && entry.is_symlink {
        return EntryAction::Skip;
    }
    let remote = remote_child_path(remote_dir, entry.name.as_str());
    let local = remote_child_path(local_dir, entry.name.as_str());
    if entry.is_dir {
        EntryAction::Descend { remote, local }
    } else {
        EntryAction::Transfer { remote, local }
    }
}

/// The action for a local entry of a directory being uploaded from
/// `local_dir` to `remote_dir`: directories are descended into, regular
/// files uploaded, anything else left alone.
pub fn upload_entry_action(local_dir: &str, remote_dir: &str, name: &str, is_dir: bool, is_file: bool) -> (res: EntryAction)
    ensures
        is_dir ==> (res matches EntryAction::Descend { remote, local } && remote@ == remote_child(
            remote_dir@,
            name@,
        ) && local@ == local_child(local_dir@, name@)),
        !is_dir && is_file ==> (res matches EntryAction::Transfer { remote, local } && remote@
            == remote_child(remote_dir@, name@) && local@ == local_child(local_dir@, name@)),
        !is_dir && !is_file ==> res is Skip,
{
    if !is_dir && !is_file {
        return EntryAction::Skip;
    }
    let local = local_child_path(local_dir, name);
    let remote = remote_child_path(remote_dir, name);
    if is_dir {
        EntryAction::Descend { remote, local }
    } else {
        EntryAction::Transfer { remote, local }
    }
}

/// The number of files a directory listing adds to a count: entries that
/// are neither directories nor symbolic links.
pub open spec fn files_in(entries: Seq<FileEntry>) -> nat
    decreases entries.len(),
{
    if entries.len() == 0 {
        0
    } else {
        files_in(entries.drop_last()) + if !entries.last().is_dir && !entries.last().is_symlink {
            1nat
        } else {
            0nat
        }
    }
}

/// The subdirectories of a listing of `dir`, as remote paths, in order.
pub open spec fn subdirs_in(dir: Seq<char>, entries: Seq<FileEntry>) -> Seq<Seq<char>>
    decreases entries.len(),
{
    if entries.len() == 0 {
        Seq::empty()
    } else {
        subdirs_in(dir, entries.drop_last()) + if entries.last().is_dir {
            seq![remote_child(dir, entries.last().name@)]
        } else {
            Seq::<Seq<char>>::empty()
        }
    }
}

/// Counts the files under a remote directory, one listing at a time: the
/// caller lists the directory `next_directory` gives and hands the entries
/// to `add_listing`, until no directory is left.
pub struct RemoteFileCounter {
    pending: Vec<String>,
    count: u64,
}

impl RemoteFileCounter {
    /// The directories still to list, the last one next.
    pub closed spec fn pending(&self) -> Seq<Seq<char>> {
        crate::osc::string_views(self.pending@)
    }

    /// The files counted so far.
    pub closed spec fn count(&self) -> nat {
        self.count as nat
    }

    /// A count of the files under `root`.
    pub fn new(root: &str) -> (res: Self)
        ensures
            res.pending() == seq![root@],
            res.count() == 0,
    {
        let mut pending: Vec<String> = Vec::new();
        pending.push(to_owned_string(root));
        let res = RemoteFileCounter { pending, count: 0 };
        assert(res.pending() =~= seq![root@]);
        res
    }

    /// The files counted so far.
    pub fn counted(&self) -> (res: u64)
        ensures
            res == self.count(),
    {
        self.count
    }

    /// The next directory to list, taken off the pending ones.
    pub fn next_directory(&mut self) -> (res: Option<String>)
        ensures
            old(self).pending().len() == 0 ==> res is None && final(self).pending() == old(self).pending(),
            old(self).pending().len() > 0 ==> (res matches Some(d) && d@ == old(self).pending().last())
                && final(self).pending() == old(self).pending().drop_last(),
            final(self).count() == old(self).count(),
    {
        let r = self.pending.pop();
        proof {
            assert(self.pending() =~= old(self).pending().take(self.pending@.len() as int));
        }
        r
    }

    /// Takes the listing of `dir`: its files are counted and its
    /// subdirectories become pending, in order.
    pub fn add_listing(&mut self, dir: &str, entries: &Vec<FileEntry>)
        requires
            old(self).count() + entries@.len() <= u64::MAX,
        ensures
            final(self).count() == old(self).count() + files_in(entries@),
            final(self).pending() == old(self).pending() + subdirs_in(dir@, entries@),
    {
        let ghost c0 = self.count;
        let ghost p0 = self.pending();
        let mut i: usize = 0;
        while i < entries.len()
            invariant
                i <= entries.len(),
                c0 + entries@.len() <= u64::MAX,
                self.count == c0 + files_in(entries@.take(i as int)),
                files_in(entries@.take(i as int)) <= i,
                self.pending() == p0 + subdirs_in(dir@, entries@.take(i as int)),
            decreases entries.len() - i,
        {
            let e = &entries[i];
            proof {
                assert(entries@.take(i + 1).drop_last() =~= entries@.take(i as int));
            }
            if e.is_dir {
                let ghost before = self.pending();
                self.pending.push(remote_child_path(dir, e.name.as_str()));
                proof {
                    assert(self.pending() =~= before.push(remote_child(dir@, e.name@)));
                    assert(p0 + subdirs_in(dir@, entries@.take(i + 1)) =~= before.push(remote_child(
                        dir@,
                        e.name@,
                    )));
                }
            } else {
                if !e.is_symlink {
                    self.count = self.count + 1;
                }
                proof {
                    assert(p0 + subdirs_in(dir@, entries@.take(i + 1)) =~= self.pending());
                }
            }
            i = i + 1;
        }
        proof {
            assert(entries@.take(entries@.len() as int) =~= entries@);
        }
    }
}

} // verus!
