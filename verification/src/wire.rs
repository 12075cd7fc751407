//! Byte framing used on the wire: length-prefixed messages, raw chunk
//! headers, the discovery datagram prefix and the hole-punch datagrams.
use vstd::prelude::*;
use vstd::string::StringSliceAdditionalSpecFns;

verus! {

/// Largest message body a transfer peer accepts (64 MiB).
pub const MAX_MESSAGE_LEN: u32 = 67108864;

/// Largest raw chunk a transfer peer accepts (128 MiB).
pub const MAX_CHUNK_LEN: u32 = 134217728;

/// Version byte in front of a current discovery datagram.
pub const DISCOVERY_VERSION: u8 = 2;

/// First byte of a hole-punch request datagram.
pub const PUNCH_REQUEST: u8 = 0x10;

/// First byte of a hole-punch acknowledgement datagram.
pub const PUNCH_ACK: u8 = 0x11;

/// Longest session key a relay connection may announce.
pub const MAX_RELAY_KEY_LEN: u32 = 256;

#[derive(Debug, Clone, Copy, PartialEq, Eq, Structural)]
pub enum WireError {
    /// A length prefix announced more than [`MAX_MESSAGE_LEN`] bytes.
    MessageTooLarge { len: u32 },
    /// A chunk header announced more than [`MAX_CHUNK_LEN`] bytes.
    ChunkTooLarge { len: u32 },
}

// ---------------------------------------------------------------------------
// Integer encodings.
// ---------------------------------------------------------------------------

/// Big-endian bytes of `x` (`u32::to_be_bytes`).
pub open spec fn be32(x: u32) -> Seq<u8> {
    seq![(x >> 24u32) as u8, (x >> 16u32) as u8, (x >> 8u32) as u8, x as u8]
}

/// Little-endian bytes of `x` (`u32::to_le_bytes`).
pub open spec fn le32(x: u32) -> Seq<u8> {
    seq![x as u8, (x >> 8u32) as u8, (x >> 16u32) as u8, (x >> 24u32) as u8]
}

/// The `u32` whose big-endian bytes are `b0 b1 b2 b3` (`u32::from_be_bytes`).
pub open spec fn from_be32(b0: u8, b1: u8, b2: u8, b3: u8) -> u32 {
    ((b0 as u32) << 24u32) | ((b1 as u32) << 16u32) | ((b2 as u32) << 8u32) | (b3 as u32)
}

/// The big-endian bytes of `x`.
pub fn u32_to_be(x: u32) -> (b: [u8; 4])
    ensures
        b@ == be32(x),
{
    let b = [(x >> 24u32) as u8, (x >> 16u32) as u8, (x >> 8u32) as u8, x as u8];
    assert(b@ =~= be32(x));
    b
}

/// The little-endian bytes of `x`.
pub fn u32_to_le(x: u32) -> (b: [u8; 4])
    ensures
        b@ == le32(x),
{
    let b = [x as u8, (x >> 8u32) as u8, (x >> 16u32) as u8, (x >> 24u32) as u8];
    assert(b@ =~= le32(x));
    b
}

/// The `u32` encoded big-endian in `b`.
pub fn u32_from_be(b: [u8; 4]) -> (x: u32)
    ensures
        x == from_be32(b@[0], b@[1], b@[2], b@[3]),
{
    ((b[0] as u32) << 24u32) | ((b[1] as u32) << 16u32) | ((b[2] as u32) << 8u32) | (b[3] as u32)
}

proof fn lemma_be32_roundtrip(x: u32)
    ensures
        from_be32((x >> 24u32) as u8, (x >> 16u32) as u8, (x >> 8u32) as u8, x as u8) == x,
{
    assert(((((x >> 24u32) as u8) as u32) << 24u32) | ((((x >> 16u32) as u8) as u32) << 16u32) | (
    (((x >> 8u32) as u8) as u32) << 8u32) | ((x as u8) as u32) == x) by (bit_vector);
}

/// Decoding the big-endian bytes of a `u32` gives it back.
pub proof fn law_be32_roundtrip(x: u32)
    ensures
        from_be32(be32(x)[0], be32(x)[1], be32(x)[2], be32(x)[3]) == x,
{
    lemma_be32_roundtrip(x);
}

// ---------------------------------------------------------------------------
// Length-prefixed messages.
// ---------------------------------------------------------------------------

/// A message on a stream: the body's length as a big-endian `u32`
/// (truncated to 32 bits, as the sender computes it), then the body.
pub open spec fn framed(payload: Seq<u8>) -> Seq<u8> {
    be32(payload.len() as u32) + payload
}

/// Puts the length prefix in front of an encoded message body.
pub fn frame_message(payload: &[u8]) -> (out: Vec<u8>)
    ensures
        out@ == framed(payload@),
{
    let len: u32 = payload.len() as u32;
    let head = u32_to_be(len);
    let mut out: Vec<u8> = Vec::new();
    out.push(head[0]);
    out.push(head[1]);
    out.push(head[2]);
    out.push(head[3]);
    let mut i: usize = 0;
    while i < payload.len()
        invariant
            i <= payload@.len(),
            out@ == head@ + payload@.take(i as int),
        decreases payload@.len() - i,
    {
        out.push(payload[i]);
        i = i + 1;
        assert(payload@.take(i as int) == payload@.take((i - 1) as int).push(payload@[i - 1]));
    }
    assert(payload@.take(payload@.len() as int) == payload@);
    out
}

/// The body length announced by a message's 4-byte prefix, refused when it
/// exceeds [`MAX_MESSAGE_LEN`].
pub fn message_body_len(prefix: [u8; 4]) -> (r: Result<u32, WireError>)
    ensures
        ({
            let len = from_be32(prefix@[0], prefix@[1], prefix@[2], prefix@[3]);
            if len > MAX_MESSAGE_LEN {
                r == Err::<u32, WireError>(WireError::MessageTooLarge { len })
            } else {
                r == Ok::<u32, WireError>(len)
            }
        }),
{
    let len = u32_from_be(prefix);
    if len > MAX_MESSAGE_LEN {
        Err(WireError::MessageTooLarge { len })
    } else {
        Ok(len)
    }
}

/// The body length announced by a signalling message's prefix; the
/// signalling channel puts no bound on it.
pub fn signal_body_len(prefix: [u8; 4]) -> (len: u32)
    ensures
        len == from_be32(prefix@[0], prefix@[1], prefix@[2], prefix@[3]),
{
    u32_from_be(prefix)
}

/// A framed message announces the length of its own body, and the body
/// follows the prefix unchanged.
pub proof fn law_frame_roundtrip(payload: Seq<u8>)
    requires
        payload.len() <= u32::MAX,
    ensures
        ({
            let f = framed(payload);
            &&& from_be32(f[0], f[1], f[2], f[3]) == payload.len()
            &&& f.subrange(4, f.len() as int) == payload
        }),
{
    let f = framed(payload);
    lemma_be32_roundtrip(payload.len() as u32);
    assert(f.subrange(4, f.len() as int) =~= payload);
}

// ---------------------------------------------------------------------------
// Raw chunk headers: data length (LE), chunk index (LE), compressed flag.
// ---------------------------------------------------------------------------

#[derive(Debug, Clone, Copy, PartialEq, Eq, Structural)]
pub struct ChunkHeader {
    pub data_len: u32,
    pub chunk_index: u32,
    pub compressed: bool,
}

/// The nine header bytes sent in front of a raw chunk.
pub open spec fn chunk_header_bytes(data_len: u32, chunk_index: u32, compressed: bool) -> Seq<u8> {
    le32(data_len) + le32(chunk_index) + seq![if compressed { 1u8 } else { 0u8 }]
}

/// The `u32` encoded little-endian in `b0 b1 b2 b3`.
pub open spec fn from_le32(b0: u8, b1: u8, b2: u8, b3: u8) -> u32 {
    (b0 as u32) | ((b1 as u32) << 8u32) | ((b2 as u32) << 16u32) | ((b3 as u32) << 24u32)
}

/// Builds the header of a raw chunk; the length is the data length
/// truncated to 32 bits, as the sender computes it.
pub fn encode_chunk_header(data_len: usize, chunk_index: u32, compressed: bool) -> (h: [u8; 9])
    ensures
        h@ == chunk_header_bytes(data_len as u32, chunk_index, compressed),
{
    let l = u32_to_le(data_len as u32);
    let c = u32_to_le(chunk_index);
    let flag: u8 = if compressed {
        1
    } else {
        0
    };
    let h = [l[0], l[1], l[2], l[3], c[0], c[1], c[2], c[3], flag];
    assert(h@ =~= chunk_header_bytes(data_len as u32, chunk_index, compressed));
    h
}

/// Reads a raw chunk header; refuses a data length over [`MAX_CHUNK_LEN`].
/// Any non-zero flag byte means the data is compressed.
pub fn decode_chunk_header(h: [u8; 9]) -> (r: Result<ChunkHeader, WireError>)
    ensures
        ({
            let len = from_le32(h@[0], h@[1], h@[2], h@[3]);
            let idx = from_le32(h@[4], h@[5], h@[6], h@[7]);
            if len > MAX_CHUNK_LEN {
                r == Err::<ChunkHeader, WireError>(WireError::ChunkTooLarge { len })
            } else {
                r == Ok::<ChunkHeader, WireError>(
                    ChunkHeader { data_len: len, chunk_index: idx, compressed: h@[8] != 0 },
                )
            }
        }),
{
    let len: u32 = (h[0] as u32) | ((h[1] as u32) << 8u32) | ((h[2] as u32) << 16u32) | ((
    h[3] as u32) << 24u32);
    let idx: u32 = (h[4] as u32) | ((h[5] as u32) << 8u32) | ((h[6] as u32) << 16u32) | ((
    h[7] as u32) << 24u32);
    if len > MAX_CHUNK_LEN {
        Err(WireError::ChunkTooLarge { len })
    } else {
        Ok(ChunkHeader { data_len: len, chunk_index: idx, compressed: h[8] != 0 })
    }
}

proof fn lemma_le32_roundtrip(x: u32)
    ensures
        from_le32(x as u8, (x >> 8u32) as u8, (x >> 16u32) as u8, (x >> 24u32) as u8) == x,
{
    assert(((x as u8) as u32) | ((((x >> 8u32) as u8) as u32) << 8u32) | ((((x >> 16u32) as u8)
        as u32) << 16u32) | ((((x >> 24u32) as u8) as u32) << 24u32) == x) by (bit_vector);
}

/// Reading back a chunk header that was written gives the same length,
/// index and flag, as long as the length is within the accepted bound.
pub proof fn law_chunk_header_roundtrip(data_len: u32, chunk_index: u32, compressed: bool)
    requires
        data_len <= MAX_CHUNK_LEN,
    ensures
        ({
            let h = chunk_header_bytes(data_len, chunk_index, compressed);
            &&& from_le32(h[0], h[1], h[2], h[3]) == data_len
            &&& from_le32(h[4], h[5], h[6], h[7]) == chunk_index
            &&& (h[8] != 0) == compressed
        }),
{
    lemma_le32_roundtrip(data_len);
    lemma_le32_roundtrip(chunk_index);
}

// ---------------------------------------------------------------------------
// Discovery datagrams.
// ---------------------------------------------------------------------------

#[derive(Debug, Clone, PartialEq, Eq)]
pub enum DiscoveryPayload {
    /// Encoded with the current message layout (the version byte removed).
    Current(Vec<u8>),
    /// Encoded with the older layout that has no version byte.
    Legacy(Vec<u8>),
}

/// How a received discovery datagram is to be decoded.
pub open spec fn discovery_payload_of(data: Seq<u8>) -> (bool, Seq<u8>) {
    if data.len() > 1 && data[0] == DISCOVERY_VERSION {
        (true, data.subrange(1, data.len() as int))
    } else {
        (false, data)
    }
}

pub open spec fn payload_view(p: DiscoveryPayload) -> (bool, Seq<u8>) {
    match p {
        DiscoveryPayload::Current(v) => (true, v@),
        DiscoveryPayload::Legacy(v) => (false, v@),
    }
}

/// Puts the version byte in front of an encoded discovery message.
pub fn frame_discovery(payload: &[u8]) -> (out: Vec<u8>)
    ensures
        out@ == discovery_frame(payload@),
{
    let mut out: Vec<u8> = Vec::new();
    out.push(DISCOVERY_VERSION);
    let mut i: usize = 0;
    while i < payload.len()
        invariant
            i <= payload@.len(),
            out@ == seq![DISCOVERY_VERSION] + payload@.take(i as int),
        decreases payload@.len() - i,
    {
        out.push(payload[i]);
        i = i + 1;
        assert(payload@.take(i as int) == payload@.take((i - 1) as int).push(payload@[i - 1]));
    }
    assert(payload@.take(payload@.len() as int) == payload@);
    out
}

/// Splits a received discovery datagram: a leading version byte followed by
/// at least one byte marks the current layout; anything else is decoded with
/// the legacy layout as a whole.
pub fn split_discovery(data: &[u8]) -> (p: DiscoveryPayload)
    ensures
        payload_view(p) == discovery_payload_of(data@),
{
    let mut v: Vec<u8> = Vec::new();
    if data.len() > 1 && data[0] == DISCOVERY_VERSION {
        let mut i: usize = 1;
        while i < data.len()
            invariant
                1 <= i <= data@.len(),
                v@ == data@.subrange(1, i as int),
            decreases data@.len() - i,
        {
            v.push(data[i]);
            i = i + 1;
            assert(v@ =~= data@.subrange(1, i as int));
        }
        DiscoveryPayload::Current(v)
    } else {
        let mut i: usize = 0;
        while i < data.len()
            invariant
                i <= data@.len(),
                v@ == data@.take(i as int),
            decreases data@.len() - i,
        {
            v.push(data[i]);
            i = i + 1;
            assert(v@ =~= data@.take(i as int));
        }
        assert(data@.take(data@.len() as int) =~= data@);
        DiscoveryPayload::Legacy(v)
    }
}

/// A discovery datagram: the version marker, then the payload.
pub open spec fn discovery_frame(payload: Seq<u8>) -> Seq<u8> {
    seq![DISCOVERY_VERSION] + payload
}

/// What [`frame_discovery`] makes of a payload, [`split_discovery`] reads
/// back with the current layout and the payload unchanged, whenever the
/// payload is not empty.
pub proof fn law_discovery_roundtrip(payload: Seq<u8>)
    requires
        payload.len() > 0,
    ensures
        discovery_payload_of(discovery_frame(payload)) == (true, payload),
{
    let d = seq![DISCOVERY_VERSION] + payload;
    assert(d.subrange(1, d.len() as int) =~= payload);
}

// ---------------------------------------------------------------------------
// Hole-punch datagrams on the discovery port.
// ---------------------------------------------------------------------------

#[derive(Debug, Clone, Copy, PartialEq, Eq, Structural)]
pub enum PacketKind {
    PunchRequest,
    PunchAck,
    Discovery,
}

/// What a datagram received on the discovery port is, by its first byte.
pub open spec fn packet_kind_of(data: Seq<u8>) -> PacketKind {
    if data.len() > 0 && data[0] == PUNCH_REQUEST {
        PacketKind::PunchRequest
    } else if data.len() > 0 && data[0] == PUNCH_ACK {
        PacketKind::PunchAck
    } else {
        PacketKind::Discovery
    }
}

pub fn classify_packet(data: &[u8]) -> (k: PacketKind)
    ensures
        k == packet_kind_of(data@),
{
    if data.len() > 0 && data[0] == PUNCH_REQUEST {
        PacketKind::PunchRequest
    } else if data.len() > 0 && data[0] == PUNCH_ACK {
        PacketKind::PunchAck
    } else {
        PacketKind::Discovery
    }
}

/// A hole-punch datagram: its tag byte, then the UTF-8 of the sender's
/// public transfer address when it knows one.
pub open spec fn punch_bytes(tag: u8, addr: Option<Seq<u8>>) -> Seq<u8> {
    match addr {
        Some(a) => seq![tag] + a,
        None => seq![tag],
    }
}

/// Builds a hole-punch request or acknowledgement.
pub fn punch_packet(tag: u8, addr: Option<&str>) -> (out: Vec<u8>)
    ensures
        out@ == punch_bytes(
            tag,
            match addr {
                Some(a) => Some(a.spec_bytes()),
                None => None,
            },
        ),
{
    let mut out: Vec<u8> = Vec::new();
    out.push(tag);
    match addr {
        Some(a) => {
            let bytes = a.as_bytes();
            let mut i: usize = 0;
            while i < bytes.len()
                invariant
                    i <= bytes@.len(),
                    out@ == seq![tag] + bytes@.take(i as int),
                decreases bytes@.len() - i,
            {
                out.push(bytes[i]);
                i = i + 1;
                assert(bytes@.take(i as int) == bytes@.take((i - 1) as int).push(bytes@[i - 1]));
            }
            assert(bytes@.take(bytes@.len() as int) == bytes@);
        },
        None => {},
    }
    out
}

/// The datagram that asks a peer to open a hole.
pub open spec fn punch_probe() -> Seq<u8> {
    seq![0x50u8, 0x55u8, 0x4Eu8, 0x43u8, 0x48u8]
}

/// The datagram that answers a probe.
pub open spec fn punch_probe_ack() -> Seq<u8> {
    punch_probe() + seq![0x5Fu8, 0x41u8, 0x43u8, 0x4Bu8]
}

fn bytes_equal(a: &[u8], b: &[u8]) -> (r: bool)
    ensures
        r == (a@ == b@),
{
    if a.len() != b.len() {
        return false;
    }
    let mut i: usize = 0;
    while i < a.len()
        invariant
            a@.len() == b@.len(),
            i <= a@.len(),
            a@.take(i as int) == b@.take(i as int),
        decreases a@.len() - i,
    {
        if a[i] != b[i] {
            return false;
        }
        i = i + 1;
        assert(a@.take(i as int) =~= b@.take(i as int));
    }
    assert(a@ =~= a@.take(a@.len() as int));
    assert(b@ =~= b@.take(b@.len() as int));
    true
}

/// The probe datagram, `PUNCH`.
pub fn probe_datagram() -> (v: Vec<u8>)
    ensures
        v@ == punch_probe(),
{
    let v: Vec<u8> = vec![0x50u8, 0x55, 0x4E, 0x43, 0x48];
    assert(v@ =~= punch_probe());
    v
}

/// The acknowledgement datagram, `PUNCH_ACK`.
pub fn probe_ack_datagram() -> (v: Vec<u8>)
    ensures
        v@ == punch_probe_ack(),
{
    let v: Vec<u8> = vec![0x50u8, 0x55, 0x4E, 0x43, 0x48, 0x5F, 0x41, 0x43, 0x4B];
    assert(v@ =~= punch_probe_ack());
    v
}

/// Whether a datagram is exactly the probe.
pub fn is_probe(data: &[u8]) -> (r: bool)
    ensures
        r == (data@ == punch_probe()),
{
    let p = probe_datagram();
    bytes_equal(data, p.as_slice())
}

/// Whether a datagram is exactly the acknowledgement.
pub fn is_probe_ack(data: &[u8]) -> (r: bool)
    ensures
        r == (data@ == punch_probe_ack()),
{
    let p = probe_ack_datagram();
    bytes_equal(data, p.as_slice())
}

/// Whether a relay connection's announced key length is acceptable: one to
/// [`MAX_RELAY_KEY_LEN`] bytes.
pub fn relay_key_len_ok(len: u32) -> (ok: bool)
    ensures
        ok == (1 <= len <= MAX_RELAY_KEY_LEN),
{
    len != 0 && len <= MAX_RELAY_KEY_LEN
}

/// How many times a failed connection is tried again.
pub const MAX_CONNECT_RETRIES: u32 = 3;

/// The pause before the next try after `failed` connection attempts have
/// failed: 200, 400 and 800 ms (doubling), and no further try after three.
pub open spec fn retry_delay(failed: u32) -> Option<u64> {
    if failed == 0 {
        Some(200)
    } else if failed == 1 {
        Some(400)
    } else if failed == 2 {
        Some(800)
    } else {
        None
    }
}

/// The pause before trying a connection again, or `None` to give up.
pub fn connect_retry_delay_ms(failed: u32) -> (d: Option<u64>)
    ensures
        d == retry_delay(failed),
        d is Some <==> failed < MAX_CONNECT_RETRIES,
{
    if failed < MAX_CONNECT_RETRIES {
        let mut d: u64 = 200;
        let mut k: u32 = 0;
        while k < failed
            invariant
                k <= failed < 3,
                d == (if k == 0 {
                    200u64
                } else if k == 1 {
                    400u64
                } else {
                    800u64
                }),
            decreases failed - k,
        {
            d = d * 2;
            k = k + 1;
        }
        Some(d)
    } else {
        None
    }
}

/// How many probes a hole-punching attempt sends before giving up.
pub const MAX_PUNCH_ATTEMPTS: u32 = 10;

/// The progress of one hole-punching attempt: how many probes were sent.
pub struct PunchAttempt {
    sent: u32,
}

impl PunchAttempt {
    pub closed spec fn sent_view(&self) -> u32 {
        self.sent
    }

    pub fn new() -> (a: PunchAttempt)
        ensures
            a.sent_view() == 0,
    {
        PunchAttempt { sent: 0 }
    }

    /// Whether another probe is to be sent (fewer than ten so far); if so,
    /// it is counted.
    pub fn next_probe(&mut self) -> (go: bool)
        ensures
            go == (old(self).sent_view() < MAX_PUNCH_ATTEMPTS),
            go ==> final(self).sent_view() == old(self).sent_view() + 1,
            old(self).sent_view() <= MAX_PUNCH_ATTEMPTS ==> final(self).sent_view() <= MAX_PUNCH_ATTEMPTS,
            !go ==> final(self).sent_view() == old(self).sent_view(),
    {
        if self.sent < MAX_PUNCH_ATTEMPTS {
            self.sent = self.sent + 1;
            true
        } else {
            false
        }
    }

    /// Whether a reply ends the attempt with success: it is the probe
    /// acknowledgement.
    pub fn reply_succeeds(reply: &[u8]) -> (ok: bool)
        ensures
            ok == (reply@ == punch_probe_ack()),
    {
        is_probe_ack(reply)
    }
}

} // verus!
