//! The sending side of a file transfer: the request, where each chunk is
//! read from, what goes on the wire for it, the pacing that keeps to a
//! speed limit, and the digest sent at the end.  Reading the file and
//! writing to the peer are left to the caller.
use vstd::prelude::*;
use vstd::string::StringSliceAdditionalSpecFns;
use crate::compression::{choose_chunk_payload, compressible, zstd_encoded, COMPRESSION_LEVEL, MIN_COMPRESS_LEN};
use crate::config::{generate_instance_id, hyphenated_uuid};
use crate::digest::{Sha256Stream, sha256_absorbed, sha256_of, calculate_chunk_checksum, crc32_of, transfer_file_id, transfer_file_id_of};
use crate::paths::{file_name, file_name_of};
use crate::protocol::{ChunkData, Message, TransferComplete, TransferRequest};
use crate::text::concat_str;
use crate::transfer_state::{chunk_count, sizes_ok, total_chunks_for};

verus! {

proof fn lemma_mul_u32(a: u32, b: u32)
    ensures
        0 <= a * b <= u64::MAX,
{
    assert(0 <= a * b <= 0xFFFF_FFFFu64 * 0xFFFF_FFFFu64) by (nonlinear_arith)
        requires
            a <= 0xFFFF_FFFFu64,
            b <= 0xFFFF_FFFFu64,
    ;
}

/// A chunk below the chunk count starts inside the file.
proof fn lemma_chunk_inside(file_size: u64, chunk_size: u32, index: int)
    requires
        chunk_size > 0,
        0 <= index < chunk_count(file_size, chunk_size),
    ensures
        index * chunk_size < file_size,
{
    let c = chunk_size as int;
    let n = (file_size + c - 1) / c;
    assert(n * c <= file_size + c - 1) by (nonlinear_arith)
        requires
            c > 0,
            n == (file_size + c - 1) / c,
            file_size + c - 1 >= 0,
    ;
    assert(index * c < file_size) by (nonlinear_arith)
        requires
            index <= n - 1,
            c > 0,
            n * c <= file_size + c - 1,
    ;
}

/// The name a file is announced under: its path's last component, or
/// `unknown` when the path has none.
pub open spec fn announced_name(path: Seq<char>) -> Seq<char> {
    match file_name_of(path) {
        Some(n) => n,
        None => "unknown"@,
    }
}

pub fn announced_file_name(path: &str) -> (n: String)
    ensures
        n@ == announced_name(path@),
{
    match file_name(path) {
        Some(n) => n,
        None => "unknown".to_string(),
    }
}

// ---------------------------------------------------------------------------
// A file offered for sending.
// ---------------------------------------------------------------------------

pub struct FileSender {
    file_path: String,
    file_id: String,
    relative_path: Option<String>,
    chunk_size: u32,
    data_dir: String,
}

impl FileSender {
    pub closed spec fn path_view(&self) -> Seq<char> {
        self.file_path@
    }

    pub closed spec fn id_view(&self) -> Seq<char> {
        self.file_id@
    }

    pub closed spec fn relative_view(&self) -> Option<String> {
        self.relative_path
    }

    pub closed spec fn chunk_size_view(&self) -> u32 {
        self.chunk_size
    }

    pub closed spec fn data_dir_view(&self) -> Seq<char> {
        self.data_dir@
    }

    /// A sender for the file at `file_path`, under a fresh random id.
    pub fn new(file_path: String, chunk_size: u32, data_dir: String) -> (s: FileSender)
        ensures
            s.path_view() == file_path@,
            hyphenated_uuid(s.id_view()),
            s.relative_view() is None,
            s.chunk_size_view() == chunk_size,
            s.data_dir_view() == data_dir@,
    {
        let file_id = generate_instance_id();
        FileSender { file_path, file_id, relative_path: None, chunk_size, data_dir }
    }

    /// The same sender, for a file that goes to `relative_path` below the
    /// receiver's download directory.
    pub fn with_relative_path(self, relative_path: String) -> (s: FileSender)
        ensures
            s.path_view() == self.path_view(),
            s.id_view() == self.id_view(),
            s.relative_view() == Some(relative_path),
            s.chunk_size_view() == self.chunk_size_view(),
            s.data_dir_view() == self.data_dir_view(),
    {
        FileSender { relative_path: Some(relative_path), ..self }
    }

    /// The request announcing the file, given its size.
    pub fn prepare(&self, file_size: u64) -> (r: TransferRequest)
        ensures
            r.file_id@ == self.id_view(),
            r.file_name@ == announced_name(self.path_view()),
            r.relative_path == self.relative_view(),
            r.file_size == file_size,
            r.chunk_size == self.chunk_size_view(),
            r.device_id@ == Seq::<char>::empty(),
            r.password_hash is None,
            r.stream_count is None,
    {
        let relative_path = match &self.relative_path {
            Some(p) => Some(p.clone()),
            None => None,
        };
        TransferRequest {
            file_id: self.file_id.clone(),
            file_name: announced_file_name(self.file_path.as_str()),
            relative_path,
            file_size,
            chunk_size: self.chunk_size,
            device_id: String::new(),
            password_hash: None,
            stream_count: None,
        }
    }

    /// Where chunk `chunk_index` starts in the file.
    pub fn chunk_offset(&self, chunk_index: u32) -> (o: u64)
        ensures
            o == chunk_index * self.chunk_size_view(),
    {
        proof {
            lemma_mul_u32(chunk_index, self.chunk_size);
        }
        chunk_index as u64 * self.chunk_size as u64
    }

    /// The chunk message for the bytes read at chunk `chunk_index`, with
    /// their CRC-32, uncompressed.
    pub fn read_chunk(&self, chunk_index: u32, data: Vec<u8>) -> (c: ChunkData)
        ensures
            c.file_id@ == self.id_view(),
            c.chunk_index == chunk_index,
            c.checksum == crc32_of(data@),
            c.data@ == data@,
            !c.compressed,
    {
        let checksum = calculate_chunk_checksum(data.as_slice());
        ChunkData { file_id: self.file_id.clone(), chunk_index, data, checksum, compressed: false }
    }

    pub fn file_id(&self) -> (id: &str)
        ensures
            id@ == self.id_view(),
    {
        self.file_id.as_str()
    }
}

// ---------------------------------------------------------------------------
// A sending session.
// ---------------------------------------------------------------------------

/// Why a sending session ended without the receiver's confirmation.
#[derive(Debug)]
pub enum SendError {
    /// The receiver turned the transfer down.
    Rejected,
    /// The receiver reported an error at the end; its text.
    Receiver(String),
}

impl SendError {
    pub fn message(&self) -> (s: String)
        ensures
            *self is Rejected ==> s@ == "Transfer rejected by receiver"@,
            *self matches SendError::Receiver(t) ==> s@ == "Receiver error: "@ + t@,
    {
        match self {
            SendError::Rejected => "Transfer rejected by receiver".to_string(),
            SendError::Receiver(t) => concat_str("Receiver error: ", t.as_str()),
        }
    }
}

/// Where the next chunk is read from.
#[derive(Debug, Clone, Copy, PartialEq, Eq, Structural)]
pub struct ChunkRead {
    pub index: u32,
    pub offset: u64,
    pub len: u64,
}

/// What goes on the wire for a chunk, and how long to wait after sending it.
pub struct OutgoingChunk {
    pub index: u32,
    pub compressed: bool,
    pub payload: Vec<u8>,
    /// Microseconds to pause to keep to the speed limit (zero without one).
    pub delay_micros: u64,
}

/// The pause after sending `len` bytes under a limit of `limit` bytes per
/// second (none when the limit is zero).
pub open spec fn pacing_delay(len: nat, limit: u64) -> nat {
    if limit > 0 {
        (len * 1_000_000) / (limit as nat)
    } else {
        0
    }
}

pub fn pacing_delay_micros(len: u64, limit: u64) -> (d: u64)
    requires
        len <= u32::MAX,
    ensures
        d == pacing_delay(len as nat, limit),
{
    if limit > 0 {
        assert(len * 1_000_000 <= u64::MAX) by (nonlinear_arith)
            requires
                len <= u32::MAX,
        ;
        (len * 1_000_000) / limit
    } else {
        0
    }
}

/// Where the sender starts after the receiver's answer `msg`: nowhere when
/// the transfer is refused; at the chunk the receiver resumes from when it
/// accepts (chunk 0 when it names none); and at chunk 0 on any other answer.
pub open spec fn response_start(msg: Message) -> Option<u32> {
    match msg {
        Message::TransferResponse(resp) => if !resp.accepted {
            None
        } else {
            match resp.resume_from_chunk {
                Some(n) => Some(n),
                None => Some(0u32),
            }
        },
        _ => Some(0u32),
    }
}

pub struct SendSession {
    file_id: String,
    file_name: String,
    file_size: u64,
    chunk_size: u32,
    total_chunks: u32,
    next_chunk: u32,
    enable_compression: bool,
    speed_limit: u64,
    hasher: Sha256Stream,
}

impl SendSession {
    pub closed spec fn id_view(&self) -> Seq<char> {
        self.file_id@
    }

    pub closed spec fn name_view(&self) -> Seq<char> {
        self.file_name@
    }

    pub closed spec fn size_view(&self) -> u64 {
        self.file_size
    }

    pub closed spec fn chunk_size_view(&self) -> u32 {
        self.chunk_size
    }

    pub closed spec fn total_view(&self) -> u32 {
        self.total_chunks
    }

    /// The next chunk to send.
    pub closed spec fn next_view(&self) -> u32 {
        self.next_chunk
    }

    pub closed spec fn compression_view(&self) -> bool {
        self.enable_compression
    }

    pub closed spec fn limit_view(&self) -> u64 {
        self.speed_limit
    }

    /// The file bytes hashed so far, in order.
    pub closed spec fn absorbed(&self) -> Seq<u8> {
        sha256_absorbed(self.hasher)
    }

    pub closed spec fn wf(&self) -> bool {
        &&& sizes_ok(self.file_size, self.chunk_size)
        &&& self.total_chunks <= chunk_count(self.file_size, self.chunk_size)
    }

    /// A session for a file of this name and size: its id is derived from
    /// both (see `transfer_file_id`), so that a new attempt resumes the old.
    pub fn new(
        file_name: &str,
        file_size: u64,
        chunk_size: u32,
        enable_compression: bool,
        speed_limit: u64,
    ) -> (s: SendSession)
        requires
            sizes_ok(file_size, chunk_size),
        ensures
            s.wf(),
            s.id_view() == transfer_file_id_of(file_name.spec_bytes(), file_size),
            s.name_view() == file_name@,
            s.size_view() == file_size,
            s.chunk_size_view() == chunk_size,
            s.total_view() == #[verifier::truncate] (chunk_count(file_size, chunk_size) as u32),
            s.next_view() == 0,
            s.compression_view() == enable_compression,
            s.limit_view() == speed_limit,
            s.absorbed() == Seq::<u8>::empty(),
    {
        let total_chunks = total_chunks_for(file_size, chunk_size);
        SendSession {
            file_id: transfer_file_id(file_name, file_size),
            file_name: file_name.to_string(),
            file_size,
            chunk_size,
            total_chunks,
            next_chunk: 0,
            enable_compression,
            speed_limit,
            hasher: Sha256Stream::new(),
        }
    }

    /// The request announcing the file.
    pub fn request(&self, relative_path: Option<String>, stream_count: Option<u32>) -> (r: TransferRequest)
        ensures
            r.file_id@ == self.id_view(),
            r.file_name@ == self.name_view(),
            r.relative_path == relative_path,
            r.file_size == self.size_view(),
            r.chunk_size == self.chunk_size_view(),
            r.device_id@ == Seq::<char>::empty(),
            r.password_hash is None,
            r.stream_count == stream_count,
    {
        TransferRequest {
            file_id: self.file_id.clone(),
            file_name: self.file_name.clone(),
            relative_path,
            file_size: self.file_size,
            chunk_size: self.chunk_size,
            device_id: String::new(),
            password_hash: None,
            stream_count,
        }
    }

    /// Takes the receiver's answer.  A refusal ends the session; an
    /// acceptance sets the first chunk to send (the receiver's resume point,
    /// or zero); any other message is taken as a start from zero.  Gives back
    /// how many bytes of the file precede that chunk, which are hashed
    /// before the chunks are sent.
    pub fn on_response(&mut self, msg: &Message) -> (r: Result<u64, SendError>)
        requires
            old(self).wf(),
        ensures
            final(self).wf(),
            final(self).id_view() == old(self).id_view(),
            final(self).name_view() == old(self).name_view(),
            final(self).size_view() == old(self).size_view(),
            final(self).chunk_size_view() == old(self).chunk_size_view(),
            final(self).total_view() == old(self).total_view(),
            final(self).compression_view() == old(self).compression_view(),
            final(self).limit_view() == old(self).limit_view(),
            final(self).absorbed() == old(self).absorbed(),
            match response_start(*msg) {
                None => r matches Err(SendError::Rejected) && final(self).next_view() == old(
                    self,
                ).next_view(),
                Some(start) => r == Ok::<u64, SendError>((start * old(self).chunk_size_view()) as u64)
                    && final(self).next_view() == start,
            },
    {
        match msg {
            Message::TransferResponse(resp) => {
                if !resp.accepted {
                    return Err(SendError::Rejected);
                }
                let start: u32 = match resp.resume_from_chunk {
                    Some(n) => n,
                    None => 0,
                };
                self.next_chunk = start;
                proof {
                    lemma_mul_u32(start, self.chunk_size);
                }
                Ok(start as u64 * self.chunk_size as u64)
            },
            _ => {
                self.next_chunk = 0;
                Ok(0)
            },
        }
    }

    /// Hashes file bytes that precede the first chunk sent.
    pub fn absorb_skipped(&mut self, data: &[u8])
        ensures
            final(self).absorbed() == old(self).absorbed() + data@,
            final(self).id_view() == old(self).id_view(),
            final(self).name_view() == old(self).name_view(),
            final(self).size_view() == old(self).size_view(),
            final(self).chunk_size_view() == old(self).chunk_size_view(),
            final(self).total_view() == old(self).total_view(),
            final(self).next_view() == old(self).next_view(),
            final(self).compression_view() == old(self).compression_view(),
            final(self).limit_view() == old(self).limit_view(),
            old(self).wf() ==> final(self).wf(),
    {
        self.hasher.update(data);
    }

    /// Where the next chunk is read from, or nothing once all are sent: a
    /// chunk holds `chunk_size` bytes, the last one what remains.
    pub fn next_read(&self) -> (r: Option<ChunkRead>)
        requires
            self.wf(),
        ensures
            self.next_view() >= self.total_view() ==> r is None,
            self.next_view() < self.total_view() ==> (r matches Some(c) && {
                &&& c.index == self.next_view()
                &&& c.offset == self.next_view() * self.chunk_size_view()
                &&& c.offset < self.size_view()
                &&& c.len == if self.chunk_size_view() <= self.size_view() - c.offset {
                    self.chunk_size_view() as int
                } else {
                    self.size_view() - c.offset
                }
            }),
    {
        if self.next_chunk >= self.total_chunks {
            return None;
        }
        proof {
            lemma_mul_u32(self.next_chunk, self.chunk_size);
            lemma_chunk_inside(self.file_size, self.chunk_size, self.next_chunk as int);
        }
        let offset = self.next_chunk as u64 * self.chunk_size as u64;
        let remaining = self.file_size - offset;
        let len = if (self.chunk_size as u64) <= remaining {
            self.chunk_size as u64
        } else {
            remaining
        };
        Some(ChunkRead { index: self.next_chunk, offset, len })
    }

    /// Takes the bytes read for the next chunk: hashes them and gives back
    /// what to send (compressed when [`choose_chunk_payload`] says so) and
    /// the pause that keeps to the speed limit.
    pub fn take_chunk(&mut self, data: Vec<u8>) -> (out: OutgoingChunk)
        requires
            old(self).wf(),
            old(self).next_view() < old(self).total_view(),
            data@.len() <= old(self).chunk_size_view(),
        ensures
            final(self).wf(),
            final(self).next_view() == old(self).next_view() + 1,
            final(self).absorbed() == old(self).absorbed() + data@,
            final(self).id_view() == old(self).id_view(),
            final(self).name_view() == old(self).name_view(),
            final(self).size_view() == old(self).size_view(),
            final(self).chunk_size_view() == old(self).chunk_size_view(),
            final(self).total_view() == old(self).total_view(),
            final(self).compression_view() == old(self).compression_view(),
            final(self).limit_view() == old(self).limit_view(),
            out.index == old(self).next_view(),
            out.compressed ==> {
                &&& old(self).compression_view() && compressible(old(self).name_view())
                    && data@.len() > MIN_COMPRESS_LEN
                &&& out.payload@ == zstd_encoded(data@, COMPRESSION_LEVEL)
                &&& out.payload@.len() < data@.len()
            },
            !out.compressed ==> out.payload@ == data@,
            !(old(self).compression_view() && compressible(old(self).name_view()) && data@.len()
                > MIN_COMPRESS_LEN) ==> !out.compressed,
            old(self).compression_view() && compressible(old(self).name_view()) && data@.len()
                > MIN_COMPRESS_LEN && zstd_encoded(data@, COMPRESSION_LEVEL).len() < data@.len()
                ==> out.compressed,
            out.delay_micros == pacing_delay(out.payload@.len(), old(self).limit_view()),
    {
        self.hasher.update(data.as_slice());
        let index = self.next_chunk;
        self.next_chunk = self.next_chunk + 1;
        let (payload, compressed) = choose_chunk_payload(
            self.enable_compression,
            self.file_name.as_str(),
            data,
        );
        let delay_micros = pacing_delay_micros(payload.len() as u64, self.speed_limit);
        OutgoingChunk { index, compressed, payload, delay_micros }
    }

    /// The message that ends the file: its id and the SHA-256 of every byte
    /// hashed.
    pub fn complete_message(&self) -> (m: Message)
        ensures
            m matches Message::TransferComplete(tc) && tc.file_id@ == self.id_view()
                && tc.file_hash@ == sha256_of(self.absorbed()),
    {
        Message::TransferComplete(
            TransferComplete { file_id: self.file_id.clone(), file_hash: self.hasher.digest() },
        )
    }

    /// The outcome told by the receiver's last message: an error it reports
    /// ends the session with that error; anything else is success.
    pub fn on_final_reply(msg: &Message) -> (r: Result<(), SendError>)
        ensures
            match msg {
                Message::TransferError(e) => r matches Err(SendError::Receiver(t)) && t@
                    == e.error@,
                _ => r is Ok,
            },
    {
        match msg {
            Message::TransferError(e) => Err(SendError::Receiver(e.error.clone())),
            _ => Ok(()),
        }
    }

    pub fn file_id(&self) -> (id: &str)
        ensures
            id@ == self.id_view(),
    {
        self.file_id.as_str()
    }

    pub fn total_chunks(&self) -> (n: u32)
        ensures
            n == self.total_view(),
    {
        self.total_chunks
    }
}

// ---------------------------------------------------------------------------
// Several data streams.
// ---------------------------------------------------------------------------

/// Files of at least this size are sent over several streams.
pub const MULTI_STREAM_THRESHOLD: u64 = 8388608;

/// How many streams carry a file: the configured number when it is more
/// than one and the file is at least 8 MiB, else one.
pub fn stream_count_for(configured: u32, file_size: u64) -> (n: u32)
    ensures
        n == if configured > 1 && file_size >= MULTI_STREAM_THRESHOLD {
            configured
        } else {
            1
        },
{
    if configured > 1 && file_size >= MULTI_STREAM_THRESHOLD {
        configured
    } else {
        1
    }
}

/// The chunks one stream carries: `start..end`.
#[derive(Debug, Clone, Copy, PartialEq, Eq, Structural)]
pub struct ChunkRange {
    pub start: u32,
    pub end: u32,
}

/// The ranges of `total` chunks for `streams` streams: consecutive runs of
/// `ceil(total / streams)` chunks, the last one shorter, and no empty run.
pub open spec fn range_of(total: u32, streams: u32, i: int) -> (int, int) {
    let per = (total + streams - 1) / (streams as int);
    (i * per, if (i + 1) * per <= total {
        (i + 1) * per
    } else {
        total as int
    })
}

pub fn stream_ranges(total: u32, streams: u32) -> (r: Vec<ChunkRange>)
    requires
        streams > 0,
        total + streams <= u32::MAX,
    ensures
        forall|i: int|
            0 <= i < r@.len() ==> (#[trigger] r@[i]).start == range_of(total, streams, i).0
                && r@[i].end == range_of(total, streams, i).1,
        forall|i: int| 0 <= i < r@.len() ==> (#[trigger] r@[i]).start < r@[i].end,
        r@.len() <= streams,
        r@.len() == streams || r@.len() * ((total + streams - 1) / (streams as int)) >= total,
        total > 0 ==> r@.len() > 0 && r@[0].start == 0 && r@[r@.len() - 1].end == total,
        forall|i: int| 0 <= i < r@.len() - 1 ==> (#[trigger] r@[i]).end == r@[i + 1].start,
{
    let per: u32 = (total + streams - 1) / streams;
    let ghost p = per as int;
    proof {
        assert(p * streams <= total + streams - 1) by (nonlinear_arith)
            requires
                p == (total + streams - 1) / (streams as int),
                streams > 0,
                total + streams - 1 >= 0,
        ;
        assert(p * streams >= total) by (nonlinear_arith)
            requires
                p == (total + streams - 1) / (streams as int),
                streams > 0,
                total >= 0,
        ;
    }
    let mut out: Vec<ChunkRange> = Vec::new();
    let mut i: u32 = 0;
    loop
        invariant
            i <= streams,
            streams > 0,
            p == per,
            p == (total + streams - 1) / (streams as int),
            p * streams <= total + streams - 1,
            p * streams >= total,
            total + streams - 1 <= u32::MAX,
            out@.len() == i,
            forall|k: int|
                0 <= k < out@.len() ==> (#[trigger] out@[k]).start == range_of(total, streams, k).0
                    && out@[k].end == range_of(total, streams, k).1,
            forall|k: int| 0 <= k < out@.len() ==> (#[trigger] out@[k]).start < total,
        ensures
            out@.len() == streams || out@.len() * p >= total,
            out@.len() <= streams,
            forall|k: int|
                0 <= k < out@.len() ==> (#[trigger] out@[k]).start == range_of(total, streams, k).0
                    && out@[k].end == range_of(total, streams, k).1,
            forall|k: int| 0 <= k < out@.len() ==> (#[trigger] out@[k]).start < total,
        decreases streams - i,
    {
        if i >= streams {
            break;
        }
        proof {
            assert(i * p <= u32::MAX) by (nonlinear_arith)
                requires
                    i <= streams,
                    p >= 0,
                    p * streams <= total + streams - 1,
                    total + streams - 1 <= u32::MAX,
            ;
            assert((i + 1) * p <= u32::MAX) by (nonlinear_arith)
                requires
                    i + 1 <= streams,
                    p >= 0,
                    p * streams <= total + streams - 1,
                    total + streams - 1 <= u32::MAX,
            ;
        }
        let start: u32 = i * per;
        if start >= total {
            break;
        }
        let next: u32 = (i + 1) * per;
        let end: u32 = if next <= total {
            next
        } else {
            total
        };
        out.push(ChunkRange { start, end });
        i = i + 1;
    }
    proof {
        assert forall|k: int| 0 <= k < out@.len() implies (#[trigger] out@[k]).start < out@[k].end by {
            assert(out@[k].start < total);
            assert(k * p < total);
            assert(k * p < (k + 1) * p) by (nonlinear_arith)
                requires
                    k * p < total,
                    p * streams >= total,
                    streams > 0,
                    p >= 0,
            {
                if p == 0 {
                    assert(p * streams == 0) by (nonlinear_arith) requires p == 0;
                }
            }
        }
        assert forall|k: int| 0 <= k < out@.len() - 1 implies (#[trigger] out@[k]).end == out@[k
            + 1].start by {
            assert(out@[k + 1].start < total);
            assert((k + 1) * p < total);
        }
        if total > 0 {
            assert(out@.len() > 0) by {
                if out@.len() == 0 {
                    assert(0 * p == 0);
                }
            }
            assert(out@[0].start == 0 * p);
            let last = out@.len() - 1;
            assert((last + 1) * p >= total) by (nonlinear_arith)
                requires
                    out@.len() == streams || out@.len() * p >= total,
                    last + 1 == out@.len(),
                    p * streams >= total,
            ;
        }
    }
    out
}

} // verus!
