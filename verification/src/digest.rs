//! Checksums and digests: CRC-32 of chunks, SHA-256 of files and
//! passwords, and the identifiers derived from them.
use vstd::prelude::*;
use vstd::string::StringSliceAdditionalSpecFns;
use crate::text::{lower_hex, to_lower_hex, string_of, push_decimal};

verus! {

/// The SHA-256 digest of `data` (FIPS 180-4), as computed by the `sha2` crate.
pub uninterp spec fn sha256_of(data: Seq<u8>) -> Seq<u8>;

/// The CRC-32 (IEEE) checksum of `data`, as computed by `crc32fast`.
pub uninterp spec fn crc32_of(data: Seq<u8>) -> u32;

/// `sha2::Sha256::digest`: the digest of `data`, which is 32 bytes long.
#[verifier::external_body]
fn sha256(data: &[u8]) -> (h: [u8; 32])
    ensures
        h@ == sha256_of(data@),
{
    let d = <sha2::Sha256 as sha2::Digest>::digest(data);
    let mut h = [0u8; 32];
    h.copy_from_slice(&d);
    h
}

/// `crc32fast::Hasher` fed with `data` once, then finalized: the CRC-32 of `data`.
#[verifier::external_body]
pub fn calculate_chunk_checksum(data: &[u8]) -> (c: u32)
    ensures
        c == crc32_of(data@),
{
    let mut hasher = crc32fast::Hasher::new();
    hasher.update(data);
    hasher.finalize()
}

/// A running SHA-256 computation over the bytes fed to it so far.  The
/// `sha2::Sha256` it holds is an alias of a deeply generic type that Verus
/// cannot be told about, so the struct is opaque and its contents are named
/// by [`sha256_absorbed`].
#[verifier::external_body]
pub struct Sha256Stream {
    inner: sha2::Sha256,
}

/// The bytes a running SHA-256 computation has absorbed so far.
pub uninterp spec fn sha256_absorbed(h: Sha256Stream) -> Seq<u8>;

impl Sha256Stream {
    /// `Sha256::new`: a computation that has absorbed nothing.
    #[verifier::external_body]
    pub(crate) fn new() -> (h: Sha256Stream)
        ensures
            sha256_absorbed(h) == Seq::<u8>::empty(),
    {
        Sha256Stream { inner: <sha2::Sha256 as sha2::Digest>::new() }
    }

    /// `Digest::update`: absorbs `data` after what was absorbed before.
    #[verifier::external_body]
    pub(crate) fn update(&mut self, data: &[u8])
        ensures
            sha256_absorbed(*final(self)) == sha256_absorbed(*old(self)) + data@,
    {
        sha2::Digest::update(&mut self.inner, data);
    }

    /// `Digest::finalize` on a copy: the digest of everything absorbed so far.
    #[verifier::external_body]
    pub(crate) fn digest(&self) -> (h: [u8; 32])
        ensures
            h@ == sha256_of(sha256_absorbed(*self)),
    {
        let d = sha2::Digest::finalize(self.inner.clone());
        let mut h = [0u8; 32];
        h.copy_from_slice(&d);
        h
    }
}

/// Lower-case hex of the SHA-256 of `data` (64 characters).
pub fn sha256_hex(data: &[u8]) -> (s: String)
    ensures
        s@ == lower_hex(sha256_of(data@)),
        s@.len() == 64,
{
    let h = sha256(data);
    let hex = to_lower_hex(&h);
    string_of(hex.as_slice())
}

/// The SHA-256 of a file that is read back piece by piece, in offset order.
pub struct FileDigest {
    hasher: Sha256Stream,
}

impl FileDigest {
    /// The bytes fed so far, in order.
    pub closed spec fn fed(&self) -> Seq<u8> {
        sha256_absorbed(self.hasher)
    }

    /// A digest that has been fed nothing.
    pub fn new() -> (d: FileDigest)
        ensures
            d.fed() == Seq::<u8>::empty(),
    {
        FileDigest { hasher: Sha256Stream::new() }
    }

    /// Feeds the next piece of the file.
    pub fn update(&mut self, piece: &[u8])
        ensures
            final(self).fed() == old(self).fed() + piece@,
    {
        self.hasher.update(piece);
    }

    /// The SHA-256 of everything fed so far.
    pub fn digest(&self) -> (h: [u8; 32])
        ensures
            h@ == sha256_of(self.fed()),
    {
        self.hasher.digest()
    }
}

/// The bytes of a file read in pieces, one after another.
pub open spec fn joined_pieces(pieces: Seq<Vec<u8>>) -> Seq<u8> {
    pieces.map_values(|p: Vec<u8>| p@).flatten()
}

fn hash_pieces(pieces: &Vec<Vec<u8>>) -> (h: Sha256Stream)
    ensures
        sha256_absorbed(h) == joined_pieces(pieces@),
{
    let mut h = Sha256Stream::new();
    let mut i: usize = 0;
    while i < pieces.len()
        invariant
            i <= pieces@.len(),
            sha256_absorbed(h) == joined_pieces(pieces@.take(i as int)),
        decreases pieces@.len() - i,
    {
        h.update(pieces[i].as_slice());
        proof {
            let f = |p: Vec<u8>| p@;
            let before = pieces@.take(i as int).map_values(f);
            assert(pieces@.take(i as int + 1).map_values(f) =~= before.push(pieces@[i as int]@));
            before.lemma_flatten_push(pieces@[i as int]@);
        }
        i = i + 1;
    }
    assert(pieces@.take(pieces@.len() as int) =~= pieces@);
    h
}

/// The SHA-256 of a file given as the pieces it was read in.
pub fn calculate_file_hash(pieces: &Vec<Vec<u8>>) -> (h: [u8; 32])
    ensures
        h@ == sha256_of(joined_pieces(pieces@)),
{
    hash_pieces(pieces).digest()
}

/// The SHA-256 of a file given as the pieces it was read in, in lower-case
/// hex (64 characters).
pub fn compute_file_sha256(pieces: &Vec<Vec<u8>>) -> (s: String)
    ensures
        s@ == lower_hex(sha256_of(joined_pieces(pieces@))),
        s@.len() == 64,
{
    let h = calculate_file_hash(pieces);
    let hex = to_lower_hex(&h);
    string_of(hex.as_slice())
}

/// The little-endian bytes of `x` (`u64::to_le_bytes`).
pub open spec fn le64(x: u64) -> Seq<u8> {
    Seq::new(8, |i: int| ((x >> (8 * i) as u64) & 0xFFu64) as u8)
}

/// The identifier a sender gives a file: the first 16 bytes of the SHA-256
/// of its name's UTF-8 followed by its size in little-endian, in lower-case
/// hex (32 characters).  The same name and size always give the same id,
/// which lets an interrupted transfer be resumed.
pub open spec fn transfer_file_id_of(file_name: Seq<u8>, file_size: u64) -> Seq<char> {
    lower_hex(sha256_of(file_name + le64(file_size)).take(16))
}

/// The transfer identifier for a file of this name and size.
pub fn transfer_file_id(file_name: &str, file_size: u64) -> (id: String)
    ensures
        id@ == transfer_file_id_of(file_name.spec_bytes(), file_size),
        id@.len() == 32,
{
    let name = file_name.as_bytes();
    let mut data: Vec<u8> = Vec::new();
    let mut i: usize = 0;
    while i < name.len()
        invariant
            i <= name@.len(),
            data@ == name@.take(i as int),
        decreases name@.len() - i,
    {
        data.push(name[i]);
        i = i + 1;
        assert(data@ =~= name@.take(i as int));
    }
    let mut k: u64 = 0;
    while k < 8
        invariant
            k <= 8,
            data@.len() == name@.len() + k,
            data@.take(name@.len() as int) == name@,
            forall|j: int| 0 <= j < k ==> #[trigger] data@[name@.len() + j] == le64(file_size)[j],
        decreases 8 - k,
    {
        let b: u8 = ((file_size >> (8 * k)) & 0xFFu64) as u8;
        data.push(b);
        proof {
            assert(data@.take(name@.len() as int) =~= name@);
        }
        k = k + 1;
    }
    assert forall|i: int| 0 <= i < data@.len() implies #[trigger] data@[i] == (name@ + le64(
        file_size,
    ))[i] by {
        if i < name@.len() {
            assert(data@.take(name@.len() as int)[i] == data@[i]);
        } else {
            let j = i - name@.len();
            assert(data@[name@.len() + j] == le64(file_size)[j]);
        }
    }
    assert(data@ =~= name@ + le64(file_size));
    let h = sha256(data.as_slice());
    let mut head: Vec<u8> = Vec::new();
    let mut j: usize = 0;
    while j < 16
        invariant
            j <= 16,
            h@.len() == 32,
            head@ == h@.take(j as int),
        decreases 16 - j,
    {
        head.push(h[j]);
        j = j + 1;
        assert(head@ =~= h@.take(j as int));
    }
    let hex = to_lower_hex(head.as_slice());
    string_of(hex.as_slice())
}

/// The decimal representation of `n` as a string.
pub fn decimal_string(n: u64) -> (s: String)
    ensures
        s@ == crate::text::decimal(n as nat),
{
    let mut v: Vec<char> = Vec::new();
    push_decimal(&mut v, n);
    assert(v@ =~= crate::text::decimal(n as nat));
    string_of(v.as_slice())
}

} // verus!
