//! The transfer service's bookkeeping around each transfer: which progress
//! entry it keeps and which history record it adds when a transfer waits
//! for the user, is refused, starts, fails or completes.  The caller does
//! the I/O and then reports the outcome here.
use vstd::prelude::*;
use crate::history::{TransferRecord, RecordView, HistoryStore, with_record, completed_record};
use crate::progress::{
    ProgressTracker, ProgressView, TransferControl, fresh_progress, put, keyed, entry_of, change, listed,
    asked_to_pause, asked_to_resume, flagged,
};
use crate::protocol::{Message, TransferRequest};
use crate::receiver::{target_path, target_path_of, rejection};
use crate::lists::first_where;
use crate::text::concat_str;
use crate::transfer_state::{sizes_ok, chunk_count, total_chunks_for};

verus! {

/// The progress id of the receiving side of transfer `file_id`.
pub open spec fn recv_id(file_id: Seq<char>) -> Seq<char> {
    "recv:"@ + file_id
}

/// The progress id under which transfer `file_id` is received.
pub fn recv_progress_id(file_id: &str) -> (id: String)
    ensures
        id@ == recv_id(file_id@),
{
    concat_str("recv:", file_id)
}

/// The progress entries without the one of `id`.
pub open spec fn without_entry(s: Seq<ProgressView>, id: Seq<char>) -> Seq<ProgressView> {
    s.filter(|p: ProgressView| p.file_id != id)
}

/// Whole seconds transfer `id` has run by `now_ms` (0 when it is not
/// tracked, or the clock went back).
pub open spec fn elapsed_secs_of(s: Seq<ProgressView>, id: Seq<char>, now_ms: u64) -> u64 {
    if first_where(s, keyed(id)) >= 0 && now_ms >= entry_of(s, id).start_ms {
        ((now_ms - entry_of(s, id).start_ms) / 1000) as u64
    } else {
        0
    }
}

/// The record of a completed transfer: `direction`, status `completed`,
/// no error, the given id, name, size, time, path and method.
pub open spec fn is_completed_record(
    r: RecordView,
    id: Seq<char>,
    file_name: Seq<char>,
    file_size: u64,
    direction: Seq<char>,
    timestamp: u64,
    elapsed_secs: u64,
    save_path: Seq<char>,
    method: Seq<char>,
) -> bool {
    &&& r.id == id
    &&& r.file_name == file_name
    &&& r.file_size == file_size
    &&& r.direction == direction
    &&& r.status == "completed"@
    &&& r.error is None
    &&& r.timestamp == timestamp
    &&& r.elapsed_secs == elapsed_secs
    &&& r.save_path == Some(save_path)
    &&& r.transfer_method == Some(method)
}

/// What the receiving side does after the user answered a request.
#[derive(Debug)]
pub enum ReceiveStart {
    /// Send only this refusal and stop: no file is created.
    Refuse(Message),
    /// Go on: create the receiver and accept the transfer.
    Proceed,
}

/// The progress entries and the transfer history that the service keeps.
pub struct TransferBooks {
    progress: ProgressTracker,
    history: Vec<TransferRecord>,
    control: TransferControl,
}

/// What a transfer loop does before its next chunk.
#[derive(Debug, PartialEq, Eq, Structural)]
pub enum ChunkGo {
    /// Go on with the chunk.
    Go,
    /// The transfer is paused: wait a moment and ask again.
    Wait,
    /// The transfer was cancelled: stop; it is no longer tracked.
    Stop,
}

/// `a` and `b` hold the same cancel and pause requests.
pub open spec fn same_control(a: TransferBooks, b: TransferBooks) -> bool {
    &&& a.cancelled_s() == b.cancelled_s()
    &&& a.paused_s() == b.paused_s()
}

impl TransferBooks {
    pub closed spec fn progress_s(&self) -> Seq<ProgressView> {
        self.progress.entries_spec()
    }

    pub closed spec fn history_s(&self) -> Seq<TransferRecord> {
        self.history@
    }

    /// The transfers the user asked to cancel.
    pub closed spec fn cancelled_s(&self) -> Set<Seq<char>> {
        self.control.cancelled_spec()
    }

    /// The transfers the user asked to pause.
    pub closed spec fn paused_s(&self) -> Set<Seq<char>> {
        self.control.paused_spec()
    }

    /// Books with no transfer in progress over a loaded history.
    pub fn new(history: Vec<TransferRecord>) -> (b: TransferBooks)
        ensures
            b.progress_s() == Seq::<ProgressView>::empty(),
            b.history_s() == history@,
            b.cancelled_s() == Set::<Seq<char>>::empty(),
            b.paused_s() == Set::<Seq<char>>::empty(),
    {
        TransferBooks { progress: ProgressTracker::new(), history, control: TransferControl::new() }
    }

    pub fn progress(&self) -> (p: &ProgressTracker)
        ensures
            p.entries_spec() == self.progress_s(),
    {
        &self.progress
    }

    pub fn history(&self) -> (h: &Vec<TransferRecord>)
        ensures
            h@ == self.history_s(),
    {
        &self.history
    }

    fn remove_entry(&mut self, id: &str)
        ensures
            final(self).progress_s() == without_entry(old(self).progress_s(), id@),
            final(self).history_s() == old(self).history_s(),
            same_control(*old(self), *final(self)),
    {
        self.progress.remove_progress(id);
    }

    fn elapsed_secs(&self, id: &str, now_ms: u64) -> (e: u64)
        ensures
            e == elapsed_secs_of(self.progress_s(), id@, now_ms),
    {
        match self.progress.get_progress(id) {
            Some(p) => {
                if now_ms >= p.start_ms {
                    (now_ms - p.start_ms) / 1000
                } else {
                    0
                }
            },
            None => 0,
        }
    }

    // -----------------------------------------------------------------------
    // Receiving.
    // -----------------------------------------------------------------------

    /// A request arrives that needs the user's confirmation: it is listed
    /// as waiting for an answer under its receive id.
    pub fn receive_awaits_confirmation(&mut self, request: &TransferRequest, now_ms: u64)
        ensures
            final(self).progress_s() == put(
                old(self).progress_s(),
                ProgressView {
                    status: "pending_confirm"@,
                    ..fresh_progress(
                        recv_id(request.file_id@),
                        request.file_name@,
                        request.file_size,
                        0,
                        "receive"@,
                        now_ms,
                    )
                },
            ),
            final(self).history_s() == old(self).history_s(),
            same_control(*old(self), *final(self)),
    {
        let id = recv_progress_id(request.file_id.as_str());
        self.progress.register_pending_confirm(id, request.file_name.clone(), request.file_size, now_ms);
    }

    /// The user answered: the waiting entry goes either way; a refusal is
    /// answered with the refusal alone, and no history record is added.
    pub fn receive_answered(&mut self, request: &TransferRequest, accepted: bool) -> (d: ReceiveStart)
        ensures
            final(self).progress_s() == without_entry(old(self).progress_s(), recv_id(request.file_id@)),
            final(self).history_s() == old(self).history_s(),
            same_control(*old(self), *final(self)),
            accepted ==> d is Proceed,
            !accepted ==> (d matches ReceiveStart::Refuse(Message::TransferResponse(r)) && r.file_id@
                == request.file_id@ && !r.accepted && r.save_path is None && r.resume_from_chunk is None),
    {
        let id = recv_progress_id(request.file_id.as_str());
        self.remove_entry(id.as_str());
        if accepted {
            ReceiveStart::Proceed
        } else {
            ReceiveStart::Refuse(rejection(request.file_id.as_str()))
        }
    }

    /// The transfer was accepted and its chunks are awaited: it is tracked
    /// as an active receive.
    pub fn receive_started(&mut self, request: &TransferRequest, now_ms: u64)
        requires
            sizes_ok(request.file_size, request.chunk_size),
        ensures
            final(self).progress_s() == put(
                old(self).progress_s(),
                fresh_progress(
                    recv_id(request.file_id@),
                    request.file_name@,
                    request.file_size,
                    #[verifier::truncate] (chunk_count(request.file_size, request.chunk_size) as u32),
                    "receive"@,
                    now_ms,
                ),
            ),
            final(self).history_s() == old(self).history_s(),
            same_control(*old(self), *final(self)),
    {
        let id = recv_progress_id(request.file_id.as_str());
        let total = total_chunks_for(request.file_size, request.chunk_size);
        self.progress.start_transfer(
            id,
            request.file_name.clone(),
            request.file_size,
            total,
            "receive".to_string(),
            now_ms,
        );
    }

    /// A receive ended without the file (a read failed, a chunk or the
    /// final check was refused): its entry goes and no record is added.
    pub fn receive_failed(&mut self, request: &TransferRequest)
        ensures
            final(self).progress_s() == without_entry(old(self).progress_s(), recv_id(request.file_id@)),
            final(self).history_s() == old(self).history_s(),
            same_control(*old(self), *final(self)),
    {
        let id = recv_progress_id(request.file_id.as_str());
        self.remove_entry(id.as_str());
    }

    /// A receive completed (the file checked out and the completion was
    /// echoed): its entry goes, and a `receive` record with status
    /// `completed` is added first to the history, with how long it ran, where
    /// the file was saved and over which path it came.
    pub fn receive_completed(
        &mut self,
        request: &TransferRequest,
        download_dir: &str,
        method: &str,
        record_id: String,
        timestamp: u64,
        now_ms: u64,
    )
        ensures
            final(self).progress_s() == without_entry(old(self).progress_s(), recv_id(request.file_id@)),
            final(self).history_s() == with_record(old(self).history_s(), final(self).history_s()[0]),
            same_control(*old(self), *final(self)),
            is_completed_record(
                final(self).history_s()[0]@,
                record_id@,
                request.file_name@,
                request.file_size,
                "receive"@,
                timestamp,
                elapsed_secs_of(old(self).progress_s(), recv_id(request.file_id@), now_ms),
                target_path_of(*request, download_dir@),
                method@,
            ),
    {
        let id = recv_progress_id(request.file_id.as_str());
        let elapsed = self.elapsed_secs(id.as_str(), now_ms);
        self.remove_entry(id.as_str());
        let record = completed_record(
            record_id,
            request.file_name.clone(),
            request.file_size,
            "receive",
            timestamp,
            elapsed,
            Some(target_path(request, download_dir)),
            Some(method.to_string()),
        );
        let ghost rec = record;
        HistoryStore::add_record(&mut self.history, record);
        assert(self.history@[0] == rec);
    }

    // -----------------------------------------------------------------------
    // Sending.
    // -----------------------------------------------------------------------

    /// A send is set up: it is tracked as queued under its file id.
    pub fn send_queued(
        &mut self,
        file_id: &str,
        file_name: &str,
        file_size: u64,
        total_chunks: u32,
        now_ms: u64,
    )
        ensures
            final(self).progress_s() == put(
                old(self).progress_s(),
                ProgressView {
                    status: "queued"@,
                    ..fresh_progress(file_id@, file_name@, file_size, total_chunks, "send"@, now_ms)
                },
            ),
            final(self).history_s() == old(self).history_s(),
            same_control(*old(self), *final(self)),
    {
        self.progress.register_queued(
            file_id.to_string(),
            file_name.to_string(),
            file_size,
            total_chunks,
            "send".to_string(),
            now_ms,
        );
    }

    /// A send ended without the file arriving: the receiver refused it, or
    /// the connection or the final check failed.  Its entry goes and no
    /// record is added.
    pub fn send_failed(&mut self, file_id: &str)
        ensures
            final(self).progress_s() == without_entry(old(self).progress_s(), file_id@),
            final(self).history_s() == old(self).history_s(),
            same_control(*old(self), *final(self)),
    {
        self.remove_entry(file_id);
    }

    /// A send completed (the receiver echoed the completion): its entry
    /// goes, and a `send` record with status `completed` is added first to
    /// the history, with how long it ran, the path of the file sent and the
    /// path it went over.
    pub fn send_completed(
        &mut self,
        file_id: &str,
        file_name: &str,
        file_size: u64,
        file_path: &str,
        method: &str,
        record_id: String,
        timestamp: u64,
        now_ms: u64,
    )
        ensures
            final(self).progress_s() == without_entry(old(self).progress_s(), file_id@),
            final(self).history_s() == with_record(old(self).history_s(), final(self).history_s()[0]),
            same_control(*old(self), *final(self)),
            is_completed_record(
                final(self).history_s()[0]@,
                record_id@,
                file_name@,
                file_size,
                "send"@,
                timestamp,
                elapsed_secs_of(old(self).progress_s(), file_id@, now_ms),
                file_path@,
                method@,
            ),
    {
        let elapsed = self.elapsed_secs(file_id, now_ms);
        self.remove_entry(file_id);
        let record = completed_record(
            record_id,
            file_name.to_string(),
            file_size,
            "send",
            timestamp,
            elapsed,
            Some(file_path.to_string()),
            Some(method.to_string()),
        );
        let ghost rec = record;
        HistoryStore::add_record(&mut self.history, record);
        assert(self.history@[0] == rec);
    }

    // -----------------------------------------------------------------------
    // Cancelling and pausing.
    // -----------------------------------------------------------------------

    /// The user cancels transfer `id`: a failed transfer is dropped at once,
    /// any other is marked for its loop to stop.
    pub fn cancel_transfer(&mut self, id: &str)
        ensures
            ({
                let s = old(self).progress_s();
                let failed = first_where(s, keyed(id@)) >= 0 && entry_of(s, id@).status == "error"@;
                if failed {
                    &&& final(self).progress_s() == without_entry(s, id@)
                    &&& final(self).cancelled_s() == old(self).cancelled_s()
                } else {
                    &&& final(self).progress_s() == s
                    &&& final(self).cancelled_s() == old(self).cancelled_s().insert(id@)
                }
            }),
            final(self).paused_s() == old(self).paused_s(),
            final(self).history_s() == old(self).history_s(),
    {
        self.control.cancel_transfer(&mut self.progress, id);
    }

    /// The user pauses transfer `id`.
    pub fn pause_transfer(&mut self, id: &str)
        ensures
            final(self).paused_s() == old(self).paused_s().insert(id@),
            final(self).cancelled_s() == old(self).cancelled_s(),
            ({
                let s = old(self).progress_s();
                final(self).progress_s() == change(s, id@, ProgressView { paused: true, ..entry_of(s, id@) })
            }),
            final(self).history_s() == old(self).history_s(),
    {
        self.control.pause_transfer(&mut self.progress, id);
    }

    /// The user resumes transfer `id`.
    pub fn resume_transfer(&mut self, id: &str)
        ensures
            final(self).paused_s() == old(self).paused_s().remove(id@),
            final(self).cancelled_s() == old(self).cancelled_s(),
            ({
                let s = old(self).progress_s();
                final(self).progress_s() == change(s, id@, ProgressView { paused: false, ..entry_of(s, id@) })
            }),
            final(self).history_s() == old(self).history_s(),
    {
        self.control.resume_transfer(&mut self.progress, id);
    }

    /// The user pauses every running outgoing transfer.
    pub fn pause_all(&mut self)
        ensures
            ({
                let l = listed(old(self).progress_s());
                &&& forall|id: Seq<char>| #[trigger] final(self).paused_s().contains(id) <==> (
                old(self).paused_s().contains(id) || asked_to_pause(l, l.len() as int, id))
                &&& final(self).progress_s() == flagged(
                    old(self).progress_s(),
                    |x: Seq<char>| asked_to_pause(l, l.len() as int, x),
                    true,
                )
            }),
            final(self).cancelled_s() == old(self).cancelled_s(),
            final(self).history_s() == old(self).history_s(),
    {
        self.control.pause_all(&mut self.progress);
    }

    /// The user resumes every paused outgoing transfer.
    pub fn resume_all(&mut self)
        ensures
            ({
                let l = listed(old(self).progress_s());
                &&& forall|id: Seq<char>| #[trigger] final(self).paused_s().contains(id) <==> (
                old(self).paused_s().contains(id) && !asked_to_resume(l, l.len() as int, id))
                &&& final(self).progress_s() == flagged(
                    old(self).progress_s(),
                    |x: Seq<char>| asked_to_resume(l, l.len() as int, x),
                    false,
                )
            }),
            final(self).cancelled_s() == old(self).cancelled_s(),
            final(self).history_s() == old(self).history_s(),
    {
        self.control.resume_all(&mut self.progress);
    }

    /// What the loop of transfer `id` does before its next chunk: a
    /// cancelled transfer stops, its entry and its cancel request gone (no
    /// record is added); a paused one waits; any other goes on.
    pub fn before_chunk(&mut self, id: &str) -> (g: ChunkGo)
        ensures
            old(self).cancelled_s().contains(id@) ==> {
                &&& g == ChunkGo::Stop
                &&& final(self).progress_s() == without_entry(old(self).progress_s(), id@)
                &&& final(self).cancelled_s() == old(self).cancelled_s().remove(id@)
            },
            !old(self).cancelled_s().contains(id@) ==> {
                &&& g == (if old(self).paused_s().contains(id@) {
                    ChunkGo::Wait
                } else {
                    ChunkGo::Go
                })
                &&& final(self).progress_s() == old(self).progress_s()
                &&& final(self).cancelled_s() == old(self).cancelled_s()
            },
            final(self).paused_s() == old(self).paused_s(),
            final(self).history_s() == old(self).history_s(),
    {
        if self.control.is_cancelled(id) {
            self.progress.remove_progress(id);
            self.control.clear_cancelled(id);
            ChunkGo::Stop
        } else if self.control.is_paused(id) {
            ChunkGo::Wait
        } else {
            ChunkGo::Go
        }
    }
}

/// A refused receive leaves nothing behind: after the request waited for
/// the user and was refused, no entry of it is tracked and the history is
/// as it was.
pub proof fn law_refused_receive_leaves_nothing(
    b0: TransferBooks,
    b1: TransferBooks,
    b2: TransferBooks,
    request: TransferRequest,
    now_ms: u64,
    d: ReceiveStart,
)
    requires
        b1.progress_s() == put(
            b0.progress_s(),
            ProgressView {
                status: "pending_confirm"@,
                ..fresh_progress(recv_id(request.file_id@), request.file_name@, request.file_size, 0, "receive"@, now_ms)
            },
        ),
        b1.history_s() == b0.history_s(),
        b2.progress_s() == without_entry(b1.progress_s(), recv_id(request.file_id@)),
        b2.history_s() == b1.history_s(),
    ensures
        first_where(b2.progress_s(), keyed(recv_id(request.file_id@))) == -1,
        b2.history_s() == b0.history_s(),
{
    lemma_without_entry_gone(b1.progress_s(), recv_id(request.file_id@));
}

/// A refused send leaves nothing behind: after it was queued and then
/// refused by the receiver, no entry of it is tracked and the history is as
/// it was.
pub proof fn law_refused_send_leaves_nothing(
    b0: TransferBooks,
    b1: TransferBooks,
    b2: TransferBooks,
    file_id: Seq<char>,
    file_name: Seq<char>,
    file_size: u64,
    total_chunks: u32,
    now_ms: u64,
)
    requires
        b1.progress_s() == put(
            b0.progress_s(),
            ProgressView {
                status: "queued"@,
                ..fresh_progress(file_id, file_name, file_size, total_chunks, "send"@, now_ms)
            },
        ),
        b1.history_s() == b0.history_s(),
        b2.progress_s() == without_entry(b1.progress_s(), file_id),
        b2.history_s() == b1.history_s(),
    ensures
        first_where(b2.progress_s(), keyed(file_id)) == -1,
        b2.history_s() == b0.history_s(),
{
    lemma_without_entry_gone(b1.progress_s(), file_id);
}

/// After an entry is dropped, none with its id is left.
pub proof fn lemma_without_entry_gone(s: Seq<ProgressView>, id: Seq<char>)
    ensures
        first_where(without_entry(s, id), keyed(id)) == -1,
{
    let t = without_entry(s, id);
    let keep = |p: ProgressView| p.file_id != id;
    s.filter_lemma(keep);
    assert forall|k: int| 0 <= k < t.len() implies !keyed(id)(#[trigger] t[k]) by {
        assert(keep(t[k]));
    }
    crate::lists::lemma_first_where(t, keyed(id), t.len() as int);
}

} // verus!
