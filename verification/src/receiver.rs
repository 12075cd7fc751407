//! The receiving side of a file transfer: where the file goes, whether an
//! earlier partial transfer is resumed, which chunks are taken, and whether
//! the finished file matches the sender's digest.  Reading and writing the
//! file itself is left to the caller, which is told the offset of each
//! chunk.
use vstd::prelude::*;
use crate::compression::{Compressor, CompressionError, zstd_encoded};
use crate::digest::{FileDigest, sha256_of, calculate_chunk_checksum, crc32_of};
use crate::paths::{joined, join_path};
use crate::protocol::{ChunkData, Message, TransferComplete, TransferError, TransferRequest, TransferResponse};
use crate::text::concat_str;
use crate::sender::{SendSession, response_start};
use crate::transfer_state::{TransferState, chunk_count, sizes_ok, lemma_hash_set_finite};

verus! {

/// Why a chunk or a finished file was refused.
#[derive(Debug, Clone, Copy, PartialEq, Eq, Structural)]
pub enum ReceiveError {
    /// The chunk index is not below the number of chunks of the file.
    InvalidChunkIndex,
    /// The chunk's bytes do not have the CRC-32 it came with.
    ChecksumMismatch,
    /// Not every chunk has arrived.
    NotComplete,
    /// The SHA-256 of the bytes received differs from the sender's.
    HashMismatch,
}

impl ReceiveError {
    /// The text sent to the peer in a transfer error.
    pub fn message(&self) -> (s: String)
        ensures
            s@ == receive_error_text(*self),
    {
        match self {
            ReceiveError::InvalidChunkIndex => "Invalid chunk index".to_string(),
            ReceiveError::ChecksumMismatch => "Chunk checksum mismatch".to_string(),
            ReceiveError::NotComplete => "Transfer not complete".to_string(),
            ReceiveError::HashMismatch => "File hash mismatch".to_string(),
        }
    }
}

pub open spec fn receive_error_text(e: ReceiveError) -> Seq<char> {
    match e {
        ReceiveError::InvalidChunkIndex => "Invalid chunk index"@,
        ReceiveError::ChecksumMismatch => "Chunk checksum mismatch"@,
        ReceiveError::NotComplete => "Transfer not complete"@,
        ReceiveError::HashMismatch => "File hash mismatch"@,
    }
}

/// Where a received file goes: its relative path below `save_dir` when it
/// has one, else its name.
pub open spec fn target_path_of(request: TransferRequest, save_dir: Seq<char>) -> Seq<char> {
    match request.relative_path {
        Some(rel) => joined(save_dir, rel@),
        None => joined(save_dir, request.file_name@),
    }
}

pub fn target_path(request: &TransferRequest, save_dir: &str) -> (p: String)
    ensures
        p@ == target_path_of(*request, save_dir@),
{
    match &request.relative_path {
        Some(rel) => join_path(save_dir, rel.as_str()),
        None => join_path(save_dir, request.file_name.as_str()),
    }
}

/// Where a file is assembled while it arrives: `<data_dir>/temp/<file_id>.tmp`.
pub open spec fn temp_path_of(data_dir: Seq<char>, file_id: Seq<char>) -> Seq<char> {
    joined(joined(data_dir, "temp"@), file_id + ".tmp"@)
}

pub fn temp_path(data_dir: &str, file_id: &str) -> (p: String)
    ensures
        p@ == temp_path_of(data_dir@, file_id@),
{
    let dir = join_path(data_dir, "temp");
    let name = concat_str(file_id, ".tmp");
    join_path(dir.as_str(), name.as_str())
}

/// Whether a saved state can be resumed for this request: it is not
/// complete and was made for the same size and chunk size.
pub open spec fn resumable(existing: TransferState, request: TransferRequest) -> bool {
    &&& existing.completed_chunks@.len() != existing.total_chunks
    &&& existing.file_size == request.file_size
    &&& existing.chunk_size == request.chunk_size
}

/// A saved transfer is taken up again only when it was made for the same
/// file size and cut into chunks of the same size as the new request, and
/// still lacks a chunk; in every other case the transfer starts over.
pub proof fn law_resume_only_same_layout(existing: TransferState, request: TransferRequest)
    ensures
        existing.chunk_size != request.chunk_size ==> !resumable(existing, request),
        existing.file_size != request.file_size ==> !resumable(existing, request),
        existing.completed_chunks@.len() == existing.total_chunks ==> !resumable(existing, request),
        existing.chunk_size == request.chunk_size && existing.file_size == request.file_size
            && existing.completed_chunks@.len() != existing.total_chunks ==> resumable(existing, request),
{
}

pub fn can_resume(existing: &TransferState, request: &TransferRequest) -> (r: bool)
    ensures
        r == resumable(*existing, *request),
{
    !existing.is_complete() && existing.file_size == request.file_size
        && existing.chunk_size == request.chunk_size
}

/// Whether a state read back from storage can be taken up again: every
/// chunk index it records names a chunk of the file.
pub fn state_is_consistent(s: &TransferState) -> (r: bool)
    ensures
        r == s.wf(),
{
    let n = s.completed_chunks.len();
    proof {
        lemma_hash_set_finite(&s.completed_chunks);
        assert(s.completed_chunks@.filter(|k: u32| k < 0) =~= Set::<u32>::empty());
    }
    let mut i: u32 = 0;
    let mut seen: usize = 0;
    while i < s.total_chunks
        invariant
            i <= s.total_chunks,
            seen <= i,
            seen as nat == s.completed_chunks@.filter(|k: u32| k < i).len(),
            s.completed_chunks@.finite(),
            n == s.completed_chunks@.len(),
        decreases s.total_chunks - i,
    {
        let ghost before = s.completed_chunks@.filter(|k: u32| k < i);
        let ghost after = s.completed_chunks@.filter(|k: u32| k < i + 1);
        if s.completed_chunks.contains(&i) {
            proof {
                assert(after =~= before.insert(i));
                assert(!before.contains(i));
            }
            seen = seen + 1;
        } else {
            assert(after =~= before);
        }
        i = i + 1;
    }
    proof {
        let low = s.completed_chunks@.filter(|k: u32| k < s.total_chunks);
        assert(low.subset_of(s.completed_chunks@));
        if seen == n {
            assert forall|k: u32| #[trigger] s.completed_chunks@.contains(k) implies k < s.total_chunks by {
                if !(k < s.total_chunks) {
                    assert(low.subset_of(s.completed_chunks@.remove(k)));
                    vstd::set_lib::lemma_len_subset(low, s.completed_chunks@.remove(k));
                }
            }
        }
        if s.wf() {
            assert(low =~= s.completed_chunks@);
        }
    }
    seen == n
}

proof fn lemma_mul_u32(a: u32, b: u32)
    ensures
        0 <= a * b <= u64::MAX,
{
    assert(0 <= a * b <= 0xFFFF_FFFFu64 * 0xFFFF_FFFFu64) by (nonlinear_arith)
        requires
            a <= 0xFFFF_FFFFu64,
            b <= 0xFFFF_FFFFu64,
    ;
}

/// What the caller does with a chunk that was taken: write `data` at
/// `offset` of the assembling file, then save the state when `persist`.
pub struct ChunkWrite {
    pub offset: u64,
    pub data: Vec<u8>,
    pub persist: bool,
}

/// The receiver `post` is `pre` after taking chunk `index` with the bytes
/// `data` (which the caller writes at the chunk's offset): the chunk is
/// recorded; nothing else changes.
pub open spec fn took_chunk(pre: FileReceiver, post: FileReceiver, index: u32, data: Seq<u8>) -> bool {
    &&& post.state_view().completed_chunks@ == pre.state_view().completed_chunks@.insert(index)
    &&& post.state_view().file_id == pre.state_view().file_id
    &&& post.state_view().file_path == pre.state_view().file_path
    &&& post.state_view().file_size == pre.state_view().file_size
    &&& post.state_view().chunk_size == pre.state_view().chunk_size
    &&& post.state_view().total_chunks == pre.state_view().total_chunks
    &&& post.state_view().temp_file_path == pre.state_view().temp_file_path
    &&& post.resume_from() == pre.resume_from()
    &&& post.data_dir_view() == pre.data_dir_view()
}

/// The receiving end of one file.
pub struct FileReceiver {
    state: TransferState,
    data_dir: String,
    resume_from_chunk: u32,
}

impl FileReceiver {
    /// The transfer state: the file's sizes, paths and the chunks received.
    pub closed spec fn state_view(&self) -> TransferState {
        self.state
    }

    /// The directory where transfer states and partial files are kept.
    pub closed spec fn data_dir_view(&self) -> Seq<char> {
        self.data_dir@
    }

    /// The chunk the transfer was taken up again from (zero for a fresh one).
    pub closed spec fn resume_from(&self) -> u32 {
        self.resume_from_chunk
    }

    /// The recorded chunk indices all name chunks of the file, and the
    /// transfer restarted no later than its end.
    pub closed spec fn wf(&self) -> bool {
        &&& self.state.wf()
        &&& self.resume_from_chunk <= self.state.total_chunks
    }

    /// A receiver for a file not seen before.
    pub fn new_fresh(request: &TransferRequest, save_dir: &str, data_dir: &str) -> (r: FileReceiver)
        requires
            sizes_ok(request.file_size, request.chunk_size),
        ensures
            r.wf(),
            r.state_view().file_id == request.file_id,
            r.state_view().file_path@ == target_path_of(*request, save_dir@),
            r.state_view().temp_file_path@ == temp_path_of(data_dir@, request.file_id@),
            r.state_view().file_size == request.file_size,
            r.state_view().chunk_size == request.chunk_size,
            r.state_view().total_chunks == #[verifier::truncate] (chunk_count(
                request.file_size,
                request.chunk_size,
            ) as u32),
            r.state_view().completed_chunks@ == Set::<u32>::empty(),
            r.data_dir_view() == data_dir@,
            r.resume_from() == 0,
    {
        let file_path = target_path(request, save_dir);
        let temp_file_path = temp_path(data_dir, request.file_id.as_str());
        let state = TransferState::new(
            request.file_id.clone(),
            file_path,
            request.file_size,
            request.chunk_size,
            temp_file_path,
        );
        FileReceiver {
            state,
            data_dir: data_dir.to_string(),
            resume_from_chunk: 0,
        }
    }

    /// A receiver that takes up a saved transfer from its first missing chunk.
    pub fn resume(existing: TransferState, data_dir: &str) -> (r: FileReceiver)
        requires
            existing.wf(),
        ensures
            r.wf(),
            r.state_view() == existing,
            r.data_dir_view() == data_dir@,
            r.resume_from() <= existing.total_chunks,
            forall|i: u32| i < r.resume_from() ==> existing.completed_chunks@.contains(i),
            r.resume_from() < existing.total_chunks ==> !existing.completed_chunks@.contains(
                r.resume_from(),
            ),
    {
        let resume_from_chunk = existing.next_expected_chunk();
        FileReceiver {
            state: existing,
            data_dir: data_dir.to_string(),
            resume_from_chunk,
        }
    }

    /// How many bytes at the start of the partial file are already in place:
    /// the chunks before the resume point, but no more than the file.
    pub fn skip_bytes(&self) -> (n: u64)
        ensures
            n == (if self.resume_from() * self.state_view().chunk_size <= self.state_view().file_size {
                self.resume_from() * self.state_view().chunk_size
            } else {
                self.state_view().file_size as int
            }),
    {
        proof {
            lemma_mul_u32(self.resume_from_chunk, self.state.chunk_size);
        }
        let b = self.resume_from_chunk as u64 * self.state.chunk_size as u64;
        if b <= self.state.file_size {
            b
        } else {
            self.state.file_size
        }
    }

    /// Where chunk `index` starts in the file.
    pub fn chunk_offset(&self, index: u32) -> (o: u64)
        ensures
            o == index * self.state_view().chunk_size,
    {
        proof {
            lemma_mul_u32(index, self.state.chunk_size);
        }
        index as u64 * self.state.chunk_size as u64
    }

    fn record(&mut self, index: u32, data: &[u8])
        requires
            old(self).wf(),
            index < old(self).state_view().total_chunks,
        ensures
            final(self).wf(),
            took_chunk(*old(self), *final(self), index, data@),
    {
        self.state.mark_completed(index);
    }

    /// Takes a chunk that came with its CRC-32: refused when its index is out
    /// of range or its checksum does not match; otherwise recorded,
    /// and its offset in the file given back.
    pub fn write_chunk(&mut self, chunk: &ChunkData) -> (r: Result<u64, ReceiveError>)
        requires
            old(self).wf(),
        ensures
            final(self).wf(),
            chunk.chunk_index >= old(self).state_view().total_chunks ==> r == Err::<u64, ReceiveError>(
                ReceiveError::InvalidChunkIndex,
            ),
            chunk.chunk_index < old(self).state_view().total_chunks && crc32_of(chunk.data@)
                != chunk.checksum ==> r == Err::<u64, ReceiveError>(ReceiveError::ChecksumMismatch),
            r is Err ==> *final(self) == *old(self),
            r is Ok <==> (chunk.chunk_index < old(self).state_view().total_chunks && crc32_of(
                chunk.data@,
            ) == chunk.checksum),
            r matches Ok(o) ==> {
                &&& o == chunk.chunk_index * old(self).state_view().chunk_size
                &&& took_chunk(*old(self), *final(self), chunk.chunk_index, chunk.data@)
            },
    {
        if chunk.chunk_index >= self.state.total_chunks {
            return Err(ReceiveError::InvalidChunkIndex);
        }
        let sum = calculate_chunk_checksum(chunk.data.as_slice());
        if sum != chunk.checksum {
            return Err(ReceiveError::ChecksumMismatch);
        }
        let offset = self.chunk_offset(chunk.chunk_index);
        self.record(chunk.chunk_index, chunk.data.as_slice());
        Ok(offset)
    }

    /// Takes a chunk that came on a raw data stream (no checksum): refused
    /// when its index is out of range; otherwise recorded.  The
    /// state is to be saved after every 32nd chunk.
    pub fn write_chunk_raw(&mut self, chunk_index: u32, data: Vec<u8>) -> (r: Result<ChunkWrite, ReceiveError>)
        requires
            old(self).wf(),
        ensures
            final(self).wf(),
            chunk_index >= old(self).state_view().total_chunks ==> r == Err::<ChunkWrite, ReceiveError>(
                ReceiveError::InvalidChunkIndex,
            ) && *final(self) == *old(self),
            chunk_index < old(self).state_view().total_chunks ==> (r matches Ok(w) && {
                &&& w.offset == chunk_index * old(self).state_view().chunk_size
                &&& w.data@ == data@
                &&& w.persist == (final(self).state_view().completed_chunks@.len() % 32 == 0)
                &&& took_chunk(*old(self), *final(self), chunk_index, data@)
            }),
    {
        if chunk_index >= self.state.total_chunks {
            return Err(ReceiveError::InvalidChunkIndex);
        }
        let offset = self.chunk_offset(chunk_index);
        self.record(chunk_index, data.as_slice());
        let persist = self.state.completed_chunks.len() % 32 == 0;
        Ok(ChunkWrite { offset, data, persist })
    }

    /// Checks a finished transfer: every chunk must have arrived, and the
    /// SHA-256 of the file, as `file` was fed with it read back in offset
    /// order, must equal the sender's.  The order in which the chunks
    /// arrived does not matter.
    pub fn finalize(&self, file: &FileDigest, expected_hash: [u8; 32]) -> (r: Result<(), ReceiveError>)
        ensures
            r == finalize_outcome(*self, file.fed(), expected_hash@),
    {
        if !self.state.is_complete() {
            return Err(ReceiveError::NotComplete);
        }
        let h = file.digest();
        let mut i: usize = 0;
        while i < 32
            invariant
                i <= 32,
                h@.len() == 32,
                h@ == sha256_of(file.fed()),
                self.state_view().completed_chunks@.len() == self.state_view().total_chunks,
                expected_hash@.len() == 32,
                forall|k: int| 0 <= k < i ==> h@[k] == expected_hash@[k],
            decreases 32 - i,
        {
            if h[i] != expected_hash[i] {
                assert(h@ != expected_hash@);
                return Err(ReceiveError::HashMismatch);
            }
            i = i + 1;
        }
        assert(h@ =~= expected_hash@);
        Ok(())
    }

    pub fn is_complete(&self) -> (r: bool)
        ensures
            r == (self.state_view().completed_chunks@.len() == self.state_view().total_chunks),
    {
        self.state.is_complete()
    }

    pub fn file_id(&self) -> (id: &str)
        ensures
            id@ == self.state_view().file_id@,
    {
        self.state.file_id.as_str()
    }

    pub fn resume_from_chunk(&self) -> (n: u32)
        ensures
            n == self.resume_from(),
    {
        self.resume_from_chunk
    }

    pub fn state(&self) -> (s: &TransferState)
        ensures
            *s == self.state_view(),
    {
        &self.state
    }

    /// Where this transfer's state is saved.
    pub fn state_file_path(&self) -> (p: String)
        ensures
            p@ == joined(joined(self.data_dir_view(), "transfers"@), self.state_view().file_id@
                + ".json"@),
    {
        TransferState::state_file_path(self.data_dir.as_str(), self.state.file_id.as_str())
    }
}

/// The outcome of checking a finished transfer whose file holds `content`
/// against the sender's digest.
pub open spec fn finalize_outcome(r: FileReceiver, content: Seq<u8>, expected: Seq<u8>) -> Result<(), ReceiveError> {
    if r.state_view().completed_chunks@.len() != r.state_view().total_chunks {
        Err(ReceiveError::NotComplete)
    } else if sha256_of(content) == expected {
        Ok(())
    } else {
        Err(ReceiveError::HashMismatch)
    }
}

/// A receiver that holds every chunk, whose file holds exactly the bytes
/// the sender hashed, accepts the digest the sender ends the transfer with.
pub proof fn law_matching_transfer_is_accepted(recv: FileReceiver, content: Seq<u8>, send: SendSession)
    requires
        recv.state_view().completed_chunks@.len() == recv.state_view().total_chunks,
        content == send.absorbed(),
    ensures
        finalize_outcome(recv, content, sha256_of(send.absorbed())) == Ok::<(), ReceiveError>(()),
{
}

/// A resumed transfer picks up where it stopped: the sender that takes the
/// receiver's acceptance starts at the chunk the receiver resumes from, and
/// first hashes the bytes of the chunks before it.
pub proof fn law_sender_starts_at_receiver_resume_point(
    m: Message,
    file_id: Seq<char>,
    download_dir: Seq<char>,
    resume_from: u32,
)
    requires
        is_acceptance(m, file_id, download_dir, resume_from),
    ensures
        response_start(m) == Some(resume_from),
{
}

proof fn lemma_arrival_steps(rs: Seq<FileReceiver>, order: Seq<u32>, pieces: Seq<Seq<u8>>, k: int)
    requires
        rs.len() == order.len() + 1,
        pieces.len() == order.len(),
        0 <= k <= order.len(),
        rs[0].state_view().completed_chunks@ == Set::<u32>::empty(),
        forall|j: int| 0 <= j < order.len() ==> took_chunk(#[trigger] rs[j], rs[j + 1], order[j], pieces[j]),
    ensures
        rs[k].state_view().completed_chunks@ == order.take(k).to_set(),
        rs[k].state_view().total_chunks == rs[0].state_view().total_chunks,
    decreases k,
{
    if k == 0 {
        assert(order.take(0).to_set() =~= Set::<u32>::empty());
    } else {
        lemma_arrival_steps(rs, order, pieces, k - 1);
        assert(took_chunk(rs[k - 1], rs[k], order[k - 1], pieces[k - 1]));
        assert(order.take(k) =~= order.take(k - 1).push(order[k - 1]));
        let a = order.take(k);
        let b = order.take(k - 1);
        assert(a.to_set() =~= b.to_set().insert(order[k - 1])) by {
            assert forall|x: u32| a.to_set().contains(x) <==> b.to_set().insert(order[k - 1]).contains(x) by {
                if a.contains(x) {
                    let i = choose|i: int| 0 <= i < a.len() && #[trigger] a[i] == x;
                    if i < k - 1 {
                        assert(b[i] == x);
                    }
                }
                if b.contains(x) {
                    let i = choose|i: int| 0 <= i < b.len() && #[trigger] b[i] == x;
                    assert(a[i] == x);
                }
                if x == order[k - 1] {
                    assert(a[k - 1] == x);
                }
            }
        }
    }
}

/// A transfer in which every chunk arrives is accepted, whatever the order
/// in which the chunks arrive and however often one arrives: a fresh
/// receiver of a file of `n` chunks that takes chunks `order[0]`,
/// `order[1]`, ... (with the bytes `pieces[0]`, `pieces[1]`, ...), where
/// every index below `n` occurs, is complete, and it accepts the file as it
/// was written when that holds exactly the bytes the sender hashed.
pub proof fn law_complete_transfer_is_accepted(
    rs: Seq<FileReceiver>,
    order: Seq<u32>,
    pieces: Seq<Seq<u8>>,
    content: Seq<u8>,
    send: SendSession,
)
    requires
        rs.len() == order.len() + 1,
        pieces.len() == order.len(),
        rs[0].wf(),
        rs[0].state_view().completed_chunks@ == Set::<u32>::empty(),
        forall|j: int| 0 <= j < order.len() ==> took_chunk(#[trigger] rs[j], rs[j + 1], order[j], pieces[j]),
        forall|j: int| 0 <= j < order.len() ==> #[trigger] order[j] < rs[0].state_view().total_chunks,
        forall|i: u32| i < rs[0].state_view().total_chunks ==> #[trigger] order.contains(i),
        content == send.absorbed(),
    ensures
        rs.last().state_view().completed_chunks@.len() == rs.last().state_view().total_chunks,
        finalize_outcome(rs.last(), content, sha256_of(send.absorbed())) == Ok::<(), ReceiveError>(()),
{
    let n = order.len() as int;
    lemma_arrival_steps(rs, order, pieces, n);
    assert(order.take(n) =~= order);
    let first = rs[0].state_view();
    let last = rs[n].state_view();
    assert(last.completed_chunks@ =~= Set::new(|i: u32| i < first.total_chunks)) by {
        assert forall|i: u32| last.completed_chunks@.contains(i) <==> i < first.total_chunks by {
            if last.completed_chunks@.contains(i) {
                let j = choose|j: int| 0 <= j < order.len() && order[j] == i;
                assert(order[j] < first.total_chunks);
            }
            if i < first.total_chunks {
                assert(order.contains(i));
            }
        }
    }
    assert(last.wf());
    crate::transfer_state::law_complete_iff_every_chunk(last);
}

/// A receiver that has taken every chunk of the file once is complete.
pub proof fn law_all_chunks_complete(recv: FileReceiver)
    requires
        recv.wf(),
        forall|i: u32| i < recv.state_view().total_chunks ==> recv.state_view().completed_chunks@.contains(i),
    ensures
        recv.state_view().completed_chunks@.len() == recv.state_view().total_chunks,
{
    crate::transfer_state::law_complete_iff_every_chunk(recv.state_view());
}

// ---------------------------------------------------------------------------
// The receiving session: answers, chunks on the stream, the final check.
// ---------------------------------------------------------------------------

/// The answer to a request the user turned down.
pub fn rejection(file_id: &str) -> (m: Message)
    ensures
        m matches Message::TransferResponse(r) && r.file_id@ == file_id@ && !r.accepted
            && r.save_path is None && r.resume_from_chunk is None,
{
    Message::TransferResponse(
        TransferResponse {
            file_id: file_id.to_string(),
            accepted: false,
            save_path: None,
            resume_from_chunk: None,
        },
    )
}

/// An answer accepting the transfer `file_id` into `download_dir`, telling
/// the sender to start at chunk `resume_from` (said only when it is not 0).
pub open spec fn is_acceptance(m: Message, file_id: Seq<char>, download_dir: Seq<char>, resume_from: u32) -> bool {
    m matches Message::TransferResponse(r) && r.file_id@ == file_id && r.accepted && (
    r.save_path matches Some(p) && p@ == download_dir) && (if resume_from > 0 {
        r.resume_from_chunk == Some(resume_from)
    } else {
        r.resume_from_chunk is None
    })
}

/// The answer to an accepted request: where files are saved, and the chunk
/// to start from when some are already here.
pub fn acceptance(file_id: &str, download_dir: &str, resume_from: u32) -> (m: Message)
    ensures
        is_acceptance(m, file_id@, download_dir@, resume_from),
{
    Message::TransferResponse(
        TransferResponse {
            file_id: file_id.to_string(),
            accepted: true,
            save_path: Some(download_dir.to_string()),
            resume_from_chunk: if resume_from > 0 {
                Some(resume_from)
            } else {
                None
            },
        },
    )
}

/// How many chunks the sender still sends after the answer.
pub fn chunks_to_receive(r: &FileReceiver) -> (n: u32)
    requires
        r.wf(),
    ensures
        n == r.state_view().total_chunks - r.resume_from(),
{
    proof {
        use_wf(r);
    }
    r.state.total_chunks - r.resume_from_chunk
}

proof fn use_wf(r: &FileReceiver)
    requires
        r.wf(),
    ensures
        r.resume_from() <= r.state_view().total_chunks,
        r.state_view().wf(),
{
}

/// Why a chunk read from a data stream was not taken.
#[derive(Debug)]
pub enum ChunkRefusal {
    /// The chunk was marked compressed but did not decompress.
    Decompress(String),
    Receive(ReceiveError),
}

impl ChunkRefusal {
    /// The text sent to the peer in a transfer error.
    pub fn message(&self) -> (s: String)
        ensures
            *self matches ChunkRefusal::Receive(e) ==> s@ == receive_error_text(e),
            *self matches ChunkRefusal::Decompress(t) ==> s@ == t@,
    {
        match self {
            ChunkRefusal::Decompress(t) => t.clone(),
            ChunkRefusal::Receive(e) => e.message(),
        }
    }
}

/// Takes a chunk read from a data stream: decompressed first when it is
/// marked compressed, then written as [`FileReceiver::write_chunk_raw`] does.
pub fn receive_stream_chunk(
    receiver: &mut FileReceiver,
    chunk_index: u32,
    compressed: bool,
    data: Vec<u8>,
) -> (r: Result<ChunkWrite, ChunkRefusal>)
    requires
        old(receiver).wf(),
    ensures
        final(receiver).wf(),
        r is Err ==> *final(receiver) == *old(receiver),
        r matches Err(ChunkRefusal::Decompress(_)) ==> compressed,
        r matches Err(ChunkRefusal::Receive(e)) ==> e == ReceiveError::InvalidChunkIndex
            && chunk_index >= old(receiver).state_view().total_chunks,
        !compressed && chunk_index < old(receiver).state_view().total_chunks ==> r is Ok,
        compressed && chunk_index < old(receiver).state_view().total_chunks && (exists|
            o: Seq<u8>,
            l: i32,
        | #[trigger] zstd_encoded(o, l) == data@) ==> r is Ok,
        r matches Ok(w) ==> {
            &&& chunk_index < old(receiver).state_view().total_chunks
            &&& w.offset == chunk_index * old(receiver).state_view().chunk_size
            &&& (!compressed ==> w.data@ == data@)
            &&& (compressed ==> forall|o: Seq<u8>, l: i32|
                #[trigger] zstd_encoded(o, l) == data@ ==> w.data@ == o)
            &&& took_chunk(*old(receiver), *final(receiver), chunk_index, w.data@)
            &&& w.persist == (final(receiver).state_view().completed_chunks@.len() % 32 == 0)
        },
{
    let plain = if compressed {
        match Compressor::decompress(data.as_slice()) {
            Ok(d) => d,
            Err(CompressionError::Codec(t)) => {
                return Err(ChunkRefusal::Decompress(t));
            },
        }
    } else {
        data
    };
    match receiver.write_chunk_raw(chunk_index, plain) {
        Ok(w) => Ok(w),
        Err(e) => Err(ChunkRefusal::Receive(e)),
    }
}

/// What the receiver does with the message that ends a transfer.
#[derive(Debug)]
pub enum FinalStep {
    /// The file checked out: move it into place and send this reply.
    Accept(Message),
    /// The file is refused: discard it and send this reply.
    Refuse(Message),
    /// Something other than the end of the transfer came: discard the file
    /// and send nothing.
    Abandon,
}

/// The receiver's answer to the message after the last chunk: a transfer
/// completion is checked with [`FileReceiver::finalize`] and echoed back on
/// success, answered with a transfer error otherwise.
pub fn final_step(receiver: &FileReceiver, file: &FileDigest, msg: &Message) -> (s: FinalStep)
    ensures
        match msg {
            Message::TransferComplete(tc) => {
                let complete = receiver.state_view().completed_chunks@.len()
                    == receiver.state_view().total_chunks;
                if complete && sha256_of(file.fed()) == tc.file_hash@ {
                    s matches FinalStep::Accept(Message::TransferComplete(reply))
                        && reply.file_id@ == receiver.state_view().file_id@
                        && reply.file_hash == tc.file_hash
                } else {
                    s matches FinalStep::Refuse(Message::TransferError(err))
                        && err.file_id@ == receiver.state_view().file_id@
                        && err.error@ == receive_error_text(
                        if complete {
                            ReceiveError::HashMismatch
                        } else {
                            ReceiveError::NotComplete
                        },
                    )
                }
            },
            _ => s is Abandon,
        },
{
    match msg {
        Message::TransferComplete(tc) => {
            match receiver.finalize(file, tc.file_hash) {
                Ok(()) => FinalStep::Accept(
                    Message::TransferComplete(
                        TransferComplete {
                            file_id: receiver.state.file_id.clone(),
                            file_hash: tc.file_hash,
                        },
                    ),
                ),
                Err(e) => FinalStep::Refuse(
                    Message::TransferError(
                        TransferError { file_id: receiver.state.file_id.clone(), error: e.message() },
                    ),
                ),
            }
        },
        _ => FinalStep::Abandon,
    }
}

} // verus!
