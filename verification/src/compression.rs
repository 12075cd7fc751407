//! zstd compression of chunk data, and when to use it.
use vstd::prelude::*;
use crate::text::{chars_of, string_of, str_equal};

verus! {

#[verifier::external_type_specification]
#[verifier::external_body]
pub struct ExIoError(std::io::Error);

/// The zstd frame that `zstd::encode_all` produces for `data` at `level`.
pub uninterp spec fn zstd_encoded(data: Seq<u8>, level: i32) -> Seq<u8>;

/// The compression level used for chunk data.
pub const COMPRESSION_LEVEL: i32 = 3;

/// `zstd::encode_all(data, level)`: the encoded frame.  Reading from a
/// slice and writing into a `Vec` cannot fail, and zstd accepts every level
/// from 1 to its maximum, 22, so the encoder's only
/// failure is the C library running out of memory, which this crate, like
/// every allocation in Rust, does not count on.
#[verifier::external_body]
fn zstd_encode(data: &[u8], level: i32) -> (r: Result<Vec<u8>, std::io::Error>)
    ensures
        1 <= level <= 22 ==> r is Ok,
        r matches Ok(v) ==> v@ == zstd_encoded(data@, level),
{
    zstd::encode_all(data, level)
}

/// `zstd::decode_all(data)`.  zstd is lossless: the frame that `encode_all`
/// made of some bytes decodes to exactly those bytes.
#[verifier::external_body]
fn zstd_decode(data: &[u8]) -> (r: Result<Vec<u8>, std::io::Error>)
    ensures
        r is Ok || !(exists|original: Seq<u8>, level: i32| #[trigger] zstd_encoded(original, level) == data@),
        r matches Ok(v) ==> forall|original: Seq<u8>, level: i32|
            #[trigger] zstd_encoded(original, level) == data@ ==> v@ == original,
{
    zstd::decode_all(data)
}

#[derive(Debug)]
pub enum CompressionError {
    /// The codec reported an error; its message.
    Codec(String),
}

pub struct Compressor;

impl Compressor {
    /// Compresses `data` as one zstd frame at level 3.
    pub fn compress(data: &[u8]) -> (r: Result<Vec<u8>, CompressionError>)
        ensures
            r is Ok,
            r matches Ok(v) ==> v@ == zstd_encoded(data@, COMPRESSION_LEVEL),
    {
        match zstd_encode(data, COMPRESSION_LEVEL) {
            Ok(v) => Ok(v),
            Err(e) => Err(CompressionError::Codec(e.to_string())),
        }
    }

    /// Decompresses a zstd frame.
    pub fn decompress(data: &[u8]) -> (r: Result<Vec<u8>, CompressionError>)
        ensures
            forall|original: Seq<u8>, level: i32|
                #[trigger] zstd_encoded(original, level) == data@ ==> (r matches Ok(v) && v@
                    == original),
    {
        match zstd_decode(data) {
            Ok(v) => Ok(v),
            Err(e) => Err(CompressionError::Codec(e.to_string())),
        }
    }

    /// A rough guess of the compressed size: 60% of the original, rounded
    /// down.
    pub fn estimate_compressed_size(original_size: u64) -> (r: u64)
        ensures
            r == original_size * 3 / 5,
    {
        ((original_size as u128) * 3 / 5) as u64
    }
}

/// Whatever `compress` produced, `decompress` gives back the original bytes.
pub proof fn law_compress_roundtrip(original: Seq<u8>, compressed: Seq<u8>, restored: Result<
    Vec<u8>,
    CompressionError,
>)
    requires
        compressed == zstd_encoded(original, COMPRESSION_LEVEL),
        forall|o: Seq<u8>, level: i32|
            #[trigger] zstd_encoded(o, level) == compressed ==> (restored matches Ok(v) && v@ == o),
    ensures
        restored matches Ok(v) && v@ == original,
{
}

// ---------------------------------------------------------------------------
// Which files are worth compressing.
// ---------------------------------------------------------------------------

/// Extensions of formats that are already compressed.
pub open spec fn precompressed_extensions() -> Seq<&'static str> {
    seq![
        "mp4", "mov", "mkv", "avi", "wmv", "flv", "webm",
        "mp3", "aac", "ogg", "flac", "m4a", "wav",
        "jpg", "jpeg", "png", "gif", "webp", "heic", "avif",
        "zip", "gz", "bz2", "xz", "7z", "rar", "zst", "lz4",
        "pdf", "docx", "xlsx", "pptx",
    ]
}

/// The extension of `stem.ext` is `ext` when `ext` has no dot.
proof fn lemma_last_dot_segment_of(stem: Seq<char>, ext: Seq<char>)
    requires
        !ext.contains('.'),
    ensures
        last_dot_segment(stem + seq!['.'] + ext) == ext,
    decreases ext.len(),
{
    let name = stem + seq!['.'] + ext;
    if ext.len() == 0 {
        assert(name =~= stem.push('.'));
        assert(name.last() == '.');
    } else {
        let shorter = ext.drop_last();
        assert(!shorter.contains('.')) by {
            if shorter.contains('.') {
                let i = choose|i: int| 0 <= i < shorter.len() && shorter[i] == '.';
                assert(ext[i] == '.');
            }
        }
        lemma_last_dot_segment_of(stem, shorter);
        assert(name.drop_last() =~= stem + seq!['.'] + shorter);
        assert(name.last() == ext.last());
        assert(ext[ext.len() - 1] != '.');
        assert(shorter.push(ext.last()) =~= ext);
    }
}

/// A file whose extension names an already compressed format (audio,
/// video, images, archives and office documents: mp4, mov, mkv, avi, wmv,
/// flv, webm, mp3, aac, ogg, flac, m4a, wav, jpg, jpeg, png, gif, webp, heic,
/// avif, zip, gz, bz2, xz, 7z, rar, zst, lz4, pdf, docx, xlsx, pptx), in any
/// letter case, is sent as it is; a file with any other extension is worth
/// compressing.
pub proof fn law_compressed_formats_are_not_compressed(stem: Seq<char>, ext: Seq<char>)
    requires
        !ext.contains('.'),
    ensures
        ({
            let e = ext.map_values(|c: char| ascii_lower(c));
            compressible(stem + seq!['.'] + ext) <==> !({
            ||| e == "mp4"@
            ||| e == "mov"@
            ||| e == "mkv"@
            ||| e == "avi"@
            ||| e == "wmv"@
            ||| e == "flv"@
            ||| e == "webm"@
            ||| e == "mp3"@
            ||| e == "aac"@
            ||| e == "ogg"@
            ||| e == "flac"@
            ||| e == "m4a"@
            ||| e == "wav"@
            ||| e == "jpg"@
            ||| e == "jpeg"@
            ||| e == "png"@
            ||| e == "gif"@
            ||| e == "webp"@
            ||| e == "heic"@
            ||| e == "avif"@
            ||| e == "zip"@
            ||| e == "gz"@
            ||| e == "bz2"@
            ||| e == "xz"@
            ||| e == "7z"@
            ||| e == "rar"@
            ||| e == "zst"@
            ||| e == "lz4"@
            ||| e == "pdf"@
            ||| e == "docx"@
            ||| e == "xlsx"@
            ||| e == "pptx"@
            })
        }),
{
    lemma_last_dot_segment_of(stem, ext);
    let e = ext.map_values(|c: char| ascii_lower(c));
    let names = precompressed_extensions().map_values(|x: &'static str| x@);
    if names.contains(e) {
        let k = choose|k: int| 0 <= k < names.len() && names[k] == e;
        assert(names[k] == precompressed_extensions()[k]@);
    }
        if e == "mp4"@ {
            assert(names[0] == e);
        }
        if e == "mov"@ {
            assert(names[1] == e);
        }
        if e == "mkv"@ {
            assert(names[2] == e);
        }
        if e == "avi"@ {
            assert(names[3] == e);
        }
        if e == "wmv"@ {
            assert(names[4] == e);
        }
        if e == "flv"@ {
            assert(names[5] == e);
        }
        if e == "webm"@ {
            assert(names[6] == e);
        }
        if e == "mp3"@ {
            assert(names[7] == e);
        }
        if e == "aac"@ {
            assert(names[8] == e);
        }
        if e == "ogg"@ {
            assert(names[9] == e);
        }
        if e == "flac"@ {
            assert(names[10] == e);
        }
        if e == "m4a"@ {
            assert(names[11] == e);
        }
        if e == "wav"@ {
            assert(names[12] == e);
        }
        if e == "jpg"@ {
            assert(names[13] == e);
        }
        if e == "jpeg"@ {
            assert(names[14] == e);
        }
        if e == "png"@ {
            assert(names[15] == e);
        }
        if e == "gif"@ {
            assert(names[16] == e);
        }
        if e == "webp"@ {
            assert(names[17] == e);
        }
        if e == "heic"@ {
            assert(names[18] == e);
        }
        if e == "avif"@ {
            assert(names[19] == e);
        }
        if e == "zip"@ {
            assert(names[20] == e);
        }
        if e == "gz"@ {
            assert(names[21] == e);
        }
        if e == "bz2"@ {
            assert(names[22] == e);
        }
        if e == "xz"@ {
            assert(names[23] == e);
        }
        if e == "7z"@ {
            assert(names[24] == e);
        }
        if e == "rar"@ {
            assert(names[25] == e);
        }
        if e == "zst"@ {
            assert(names[26] == e);
        }
        if e == "lz4"@ {
            assert(names[27] == e);
        }
        if e == "pdf"@ {
            assert(names[28] == e);
        }
        if e == "docx"@ {
            assert(names[29] == e);
        }
        if e == "xlsx"@ {
            assert(names[30] == e);
        }
        if e == "pptx"@ {
            assert(names[31] == e);
        }
}

fn extension_table() -> (v: Vec<&'static str>)
    ensures
        v@ == precompressed_extensions(),
{
    let v: Vec<&'static str> = vec![
        "mp4", "mov", "mkv", "avi", "wmv", "flv", "webm",
        "mp3", "aac", "ogg", "flac", "m4a", "wav",
        "jpg", "jpeg", "png", "gif", "webp", "heic", "avif",
        "zip", "gz", "bz2", "xz", "7z", "rar", "zst", "lz4",
        "pdf", "docx", "xlsx", "pptx",
    ];
    assert(v@ =~= precompressed_extensions());
    v
}

/// The part of a file name after its last `'.'`, or the whole name when it
/// has none (`rsplit('.').next()`).
pub open spec fn last_dot_segment(name: Seq<char>) -> Seq<char>
    decreases name.len(),
{
    if name.len() == 0 {
        name
    } else if name.last() == '.' {
        Seq::empty()
    } else {
        last_dot_segment(name.drop_last()).push(name.last())
    }
}

/// ASCII upper-case letters mapped to lower case, other characters kept
/// (`to_ascii_lowercase`).
pub open spec fn ascii_lower(c: char) -> char {
    if 'A' <= c <= 'Z' {
        ((c as u32) + 32) as char
    } else {
        c
    }
}

/// Whether a file is worth compressing: its extension, compared without
/// case, is not one of an already compressed format.
pub open spec fn compressible(name: Seq<char>) -> bool {
    let ext = last_dot_segment(name).map_values(|c: char| ascii_lower(c));
    !precompressed_extensions().map_values(|e: &'static str| e@).contains(ext)
}

fn lower_char(c: char) -> (d: char)
    ensures
        d == ascii_lower(c),
{
    if 'A' <= c && c <= 'Z' {
        ((c as u32) + 32) as u8 as char
    } else {
        c
    }
}

pub fn is_compressible(file_name: &str) -> (r: bool)
    ensures
        r == compressible(file_name@),
{
    let cs = chars_of(file_name);
    let n = cs.len();
    let mut start: usize = n;
    assert(cs@.take(n as int) =~= cs@);
    assert(cs@.subrange(n as int, n as int) =~= Seq::<char>::empty());
    assert(last_dot_segment(cs@) =~= last_dot_segment(cs@.take(n as int)) + cs@.subrange(
        n as int,
        n as int,
    ));
    while start > 0 && cs[start - 1] != '.'
        invariant
            start <= n,
            n == cs@.len(),
            last_dot_segment(cs@) == last_dot_segment(cs@.take(start as int)) + cs@.subrange(
                start as int,
                n as int,
            ),
        decreases start,
    {
        proof {
            let p = cs@.take(start as int);
            assert(p.drop_last() =~= cs@.take(start - 1));
            assert(p.last() == cs@[start - 1]);
            assert(cs@.subrange(start - 1, n as int) =~= seq![cs@[start - 1]] + cs@.subrange(
                start as int,
                n as int,
            ));
        }
        start = start - 1;
    }
    proof {
        if start > 0 {
            let p = cs@.take(start as int);
            assert(p.last() == cs@[start - 1]);
        }
        assert(last_dot_segment(cs@.take(start as int)).len() == 0);
        assert(cs@.take(n as int) =~= cs@);
    }
    let mut ext: Vec<char> = Vec::new();
    let mut i: usize = start;
    while i < n
        invariant
            start <= i <= n,
            n == cs@.len(),
            ext@ == cs@.subrange(start as int, i as int).map_values(|c: char| ascii_lower(c)),
        decreases n - i,
    {
        ext.push(lower_char(cs[i]));
        i = i + 1;
        assert(ext@ =~= cs@.subrange(start as int, i as int).map_values(|c: char| ascii_lower(c)));
    }
    assert(last_dot_segment(cs@) =~= cs@.subrange(start as int, n as int));
    assert(last_dot_segment(cs@).map_values(|c: char| ascii_lower(c)) =~= ext@);
    let ext_s = string_of(ext.as_slice());
    let table = extension_table();
    let ghost names = precompressed_extensions().map_values(|e: &'static str| e@);
    let mut k: usize = 0;
    while k < table.len()
        invariant
            k <= table@.len(),
            table@ == precompressed_extensions(),
            names == precompressed_extensions().map_values(|e: &'static str| e@),
            ext_s@ == ext@,
            ext@ == last_dot_segment(file_name@).map_values(|c: char| ascii_lower(c)),
            forall|j: int| 0 <= j < k ==> names[j] != ext_s@,
        decreases table@.len() - k,
    {
        if str_equal(ext_s.as_str(), table[k]) {
            assert(names[k as int] == ext_s@);
            assert(names.contains(ext@));
            return false;
        }
        k = k + 1;
    }
    proof {
        if names.contains(ext@) {
            let j = choose|j: int| 0 <= j < names.len() && names[j] == ext@;
            assert(names[j] != ext_s@);
        }
    }
    true
}

/// Files below this size are sent as they are.
pub const MIN_COMPRESS_LEN: usize = 1024;

/// What a sender puts on the wire for a chunk: compressed only when
/// compression is on, the file's format is worth it, the chunk is larger
/// than 1 KiB, and the compressed form is strictly smaller.
pub fn choose_chunk_payload(enable: bool, file_name: &str, data: Vec<u8>) -> (r: (Vec<u8>, bool))
    ensures
        r.1 ==> {
            &&& enable && compressible(file_name@) && data@.len() > MIN_COMPRESS_LEN
            &&& r.0@ == zstd_encoded(data@, COMPRESSION_LEVEL)
            &&& r.0@.len() < data@.len()
        },
        !r.1 ==> r.0@ == data@,
        (enable && compressible(file_name@) && data@.len() > MIN_COMPRESS_LEN && zstd_encoded(
            data@,
            COMPRESSION_LEVEL,
        ).len() >= data@.len()) ==> !r.1,
        !(enable && compressible(file_name@) && data@.len() > MIN_COMPRESS_LEN) ==> !r.1,
        (enable && compressible(file_name@) && data@.len() > MIN_COMPRESS_LEN && zstd_encoded(
            data@,
            COMPRESSION_LEVEL,
        ).len() < data@.len()) ==> r.1,
{
    if enable && is_compressible(file_name) && data.len() > MIN_COMPRESS_LEN {
        match Compressor::compress(data.as_slice()) {
            Ok(c) => {
                if c.len() < data.len() {
                    (c, true)
                } else {
                    (data, false)
                }
            },
            Err(_) => (data, false),
        }
    } else {
        (data, false)
    }
}

} // verus!
