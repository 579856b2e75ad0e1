//! Stream compression for sync transfers: gzip or zstd, in memory.
use vstd::prelude::*;
use std::io::Write;
use std::io::Read;
use crate::text::{ascii_lower, bytes_to_vec, ends_with, has_suffix, is_ascii_text, lowercase, lowercase_of, str_eq};

verus! {

#[verifier::external_type_specification]
#[verifier::external_body]
pub struct ExIoError(std::io::Error);

/// Compression algorithm type.
#[derive(Debug, Clone, Copy, PartialEq, Eq, Structural)]
pub enum CompressionType {
    /// No compression.
    NoCompression,
    /// Gzip compression (widely compatible).
    Gzip,
    /// Zstd compression (fast, good ratio).
    Zstd,
}

impl Default for CompressionType {
    fn default() -> (r: Self)
        ensures
            r == CompressionType::NoCompression,
    {
        CompressionType::NoCompression
    }
}

/// The lowercase suffixes of file names that are already compressed.
pub open spec fn compressed_suffix(s: Seq<char>) -> bool {
    ||| has_suffix(s, ".gz"@)
    ||| has_suffix(s, ".gzip"@)
    ||| has_suffix(s, ".zst"@)
    ||| has_suffix(s, ".zstd"@)
    ||| has_suffix(s, ".zip"@)
    ||| has_suffix(s, ".7z"@)
    ||| has_suffix(s, ".rar"@)
    ||| has_suffix(s, ".xz"@)
    ||| has_suffix(s, ".bz2"@)
    ||| has_suffix(s, ".lz4"@)
    ||| has_suffix(s, ".lzma"@)
    ||| has_suffix(s, ".jpg"@)
    ||| has_suffix(s, ".jpeg"@)
    ||| has_suffix(s, ".png"@)
    ||| has_suffix(s, ".gif"@)
    ||| has_suffix(s, ".webp"@)
    ||| has_suffix(s, ".mp3"@)
    ||| has_suffix(s, ".mp4"@)
    ||| has_suffix(s, ".mkv"@)
    ||| has_suffix(s, ".avi"@)
    ||| has_suffix(s, ".mov"@)
    ||| has_suffix(s, ".webm"@)
    ||| has_suffix(s, ".flac"@)
    ||| has_suffix(s, ".aac"@)
    ||| has_suffix(s, ".ogg"@)
    ||| has_suffix(s, ".pdf"@)
    ||| has_suffix(s, ".docx"@)
    ||| has_suffix(s, ".xlsx"@)
    ||| has_suffix(s, ".pptx"@)
}

/// The extensions of files that are already compressed: archives,
/// compressed audio, images and video, PDF and office documents.
pub open spec fn already_compressed_extensions() -> Seq<Seq<char>> {
    seq![
        ".gz"@,
        ".gzip"@,
        ".zst"@,
        ".zstd"@,
        ".zip"@,
        ".7z"@,
        ".rar"@,
        ".xz"@,
        ".bz2"@,
        ".lz4"@,
        ".lzma"@,
        ".jpg"@,
        ".jpeg"@,
        ".png"@,
        ".gif"@,
        ".webp"@,
        ".mp3"@,
        ".mp4"@,
        ".mkv"@,
        ".avi"@,
        ".mov"@,
        ".webm"@,
        ".flac"@,
        ".aac"@,
        ".ogg"@,
        ".pdf"@,
        ".docx"@,
        ".xlsx"@,
        ".pptx"@,
    ]
}

/// A (lowercase) name ending in one of the listed extensions counts as
/// already compressed, and only such a name.
pub proof fn lemma_listed_suffix_is_compressed(s: Seq<char>)
    ensures
        forall|i: int|
            0 <= i < already_compressed_extensions().len() && has_suffix(
                s,
                #[trigger] already_compressed_extensions()[i],
            ) ==> compressed_suffix(s),
        compressed_suffix(s) ==> exists|i: int|
            0 <= i < already_compressed_extensions().len() && has_suffix(
                s,
                #[trigger] already_compressed_extensions()[i],
            ),
{
    let list = already_compressed_extensions();
    assert forall|i: int| 0 <= i < list.len() && has_suffix(s, #[trigger] list[i]) implies compressed_suffix(s) by {
        if i == 0 {
            assert(list[0] == ".gz"@);
        } else if i == 1 {
            assert(list[1] == ".gzip"@);
        } else if i == 2 {
            assert(list[2] == ".zst"@);
        } else if i == 3 {
            assert(list[3] == ".zstd"@);
        } else if i == 4 {
            assert(list[4] == ".zip"@);
        } else if i == 5 {
            assert(list[5] == ".7z"@);
        } else if i == 6 {
            assert(list[6] == ".rar"@);
        } else if i == 7 {
            assert(list[7] == ".xz"@);
        } else if i == 8 {
            assert(list[8] == ".bz2"@);
        } else if i == 9 {
            assert(list[9] == ".lz4"@);
        } else if i == 10 {
            assert(list[10] == ".lzma"@);
        } else if i == 11 {
            assert(list[11] == ".jpg"@);
        } else if i == 12 {
            assert(list[12] == ".jpeg"@);
        } else if i == 13 {
            assert(list[13] == ".png"@);
        } else if i == 14 {
            assert(list[14] == ".gif"@);
        } else if i == 15 {
            assert(list[15] == ".webp"@);
        } else if i == 16 {
            assert(list[16] == ".mp3"@);
        } else if i == 17 {
            assert(list[17] == ".mp4"@);
        } else if i == 18 {
            assert(list[18] == ".mkv"@);
        } else if i == 19 {
            assert(list[19] == ".avi"@);
        } else if i == 20 {
            assert(list[20] == ".mov"@);
        } else if i == 21 {
            assert(list[21] == ".webm"@);
        } else if i == 22 {
            assert(list[22] == ".flac"@);
        } else if i == 23 {
            assert(list[23] == ".aac"@);
        } else if i == 24 {
            assert(list[24] == ".ogg"@);
        } else if i == 25 {
            assert(list[25] == ".pdf"@);
        } else if i == 26 {
            assert(list[26] == ".docx"@);
        } else if i == 27 {
            assert(list[27] == ".xlsx"@);
        } else if i == 28 {
            assert(list[28] == ".pptx"@);
        }
    }
    if compressed_suffix(s) {
        if has_suffix(s, ".gz"@) {
            assert(list[0] == ".gz"@);
        }
        if has_suffix(s, ".gzip"@) {
            assert(list[1] == ".gzip"@);
        }
        if has_suffix(s, ".zst"@) {
            assert(list[2] == ".zst"@);
        }
        if has_suffix(s, ".zstd"@) {
            assert(list[3] == ".zstd"@);
        }
        if has_suffix(s, ".zip"@) {
            assert(list[4] == ".zip"@);
        }
        if has_suffix(s, ".7z"@) {
            assert(list[5] == ".7z"@);
        }
        if has_suffix(s, ".rar"@) {
            assert(list[6] == ".rar"@);
        }
        if has_suffix(s, ".xz"@) {
            assert(list[7] == ".xz"@);
        }
        if has_suffix(s, ".bz2"@) {
            assert(list[8] == ".bz2"@);
        }
        if has_suffix(s, ".lz4"@) {
            assert(list[9] == ".lz4"@);
        }
        if has_suffix(s, ".lzma"@) {
            assert(list[10] == ".lzma"@);
        }
        if has_suffix(s, ".jpg"@) {
            assert(list[11] == ".jpg"@);
        }
        if has_suffix(s, ".jpeg"@) {
            assert(list[12] == ".jpeg"@);
        }
        if has_suffix(s, ".png"@) {
            assert(list[13] == ".png"@);
        }
        if has_suffix(s, ".gif"@) {
            assert(list[14] == ".gif"@);
        }
        if has_suffix(s, ".webp"@) {
            assert(list[15] == ".webp"@);
        }
        if has_suffix(s, ".mp3"@) {
            assert(list[16] == ".mp3"@);
        }
        if has_suffix(s, ".mp4"@) {
            assert(list[17] == ".mp4"@);
        }
        if has_suffix(s, ".mkv"@) {
            assert(list[18] == ".mkv"@);
        }
        if has_suffix(s, ".avi"@) {
            assert(list[19] == ".avi"@);
        }
        if has_suffix(s, ".mov"@) {
            assert(list[20] == ".mov"@);
        }
        if has_suffix(s, ".webm"@) {
            assert(list[21] == ".webm"@);
        }
        if has_suffix(s, ".flac"@) {
            assert(list[22] == ".flac"@);
        }
        if has_suffix(s, ".aac"@) {
            assert(list[23] == ".aac"@);
        }
        if has_suffix(s, ".ogg"@) {
            assert(list[24] == ".ogg"@);
        }
        if has_suffix(s, ".pdf"@) {
            assert(list[25] == ".pdf"@);
        }
        if has_suffix(s, ".docx"@) {
            assert(list[26] == ".docx"@);
        }
        if has_suffix(s, ".xlsx"@) {
            assert(list[27] == ".xlsx"@);
        }
        if has_suffix(s, ".pptx"@) {
            assert(list[28] == ".pptx"@);
        }
    }
}

/// Any name followed by one of the listed extensions counts as already
/// compressed: `photo.png`, `backup.tar.gz`, `clip.mp4`, ...
pub proof fn lemma_any_name_with_listed_extension(name: Seq<char>)
    ensures
        compressed_suffix(name + ".gz"@),
        compressed_suffix(name + ".gzip"@),
        compressed_suffix(name + ".zst"@),
        compressed_suffix(name + ".zstd"@),
        compressed_suffix(name + ".zip"@),
        compressed_suffix(name + ".7z"@),
        compressed_suffix(name + ".rar"@),
        compressed_suffix(name + ".xz"@),
        compressed_suffix(name + ".bz2"@),
        compressed_suffix(name + ".lz4"@),
        compressed_suffix(name + ".lzma"@),
        compressed_suffix(name + ".jpg"@),
        compressed_suffix(name + ".jpeg"@),
        compressed_suffix(name + ".png"@),
        compressed_suffix(name + ".gif"@),
        compressed_suffix(name + ".webp"@),
        compressed_suffix(name + ".mp3"@),
        compressed_suffix(name + ".mp4"@),
        compressed_suffix(name + ".mkv"@),
        compressed_suffix(name + ".avi"@),
        compressed_suffix(name + ".mov"@),
        compressed_suffix(name + ".webm"@),
        compressed_suffix(name + ".flac"@),
        compressed_suffix(name + ".aac"@),
        compressed_suffix(name + ".ogg"@),
        compressed_suffix(name + ".pdf"@),
        compressed_suffix(name + ".docx"@),
        compressed_suffix(name + ".xlsx"@),
        compressed_suffix(name + ".pptx"@),
{
    assert((name + ".gz"@).skip(name.len() as int) =~= ".gz"@);
    assert((name + ".gzip"@).skip(name.len() as int) =~= ".gzip"@);
    assert((name + ".zst"@).skip(name.len() as int) =~= ".zst"@);
    assert((name + ".zstd"@).skip(name.len() as int) =~= ".zstd"@);
    assert((name + ".zip"@).skip(name.len() as int) =~= ".zip"@);
    assert((name + ".7z"@).skip(name.len() as int) =~= ".7z"@);
    assert((name + ".rar"@).skip(name.len() as int) =~= ".rar"@);
    assert((name + ".xz"@).skip(name.len() as int) =~= ".xz"@);
    assert((name + ".bz2"@).skip(name.len() as int) =~= ".bz2"@);
    assert((name + ".lz4"@).skip(name.len() as int) =~= ".lz4"@);
    assert((name + ".lzma"@).skip(name.len() as int) =~= ".lzma"@);
    assert((name + ".jpg"@).skip(name.len() as int) =~= ".jpg"@);
    assert((name + ".jpeg"@).skip(name.len() as int) =~= ".jpeg"@);
    assert((name + ".png"@).skip(name.len() as int) =~= ".png"@);
    assert((name + ".gif"@).skip(name.len() as int) =~= ".gif"@);
    assert((name + ".webp"@).skip(name.len() as int) =~= ".webp"@);
    assert((name + ".mp3"@).skip(name.len() as int) =~= ".mp3"@);
    assert((name + ".mp4"@).skip(name.len() as int) =~= ".mp4"@);
    assert((name + ".mkv"@).skip(name.len() as int) =~= ".mkv"@);
    assert((name + ".avi"@).skip(name.len() as int) =~= ".avi"@);
    assert((name + ".mov"@).skip(name.len() as int) =~= ".mov"@);
    assert((name + ".webm"@).skip(name.len() as int) =~= ".webm"@);
    assert((name + ".flac"@).skip(name.len() as int) =~= ".flac"@);
    assert((name + ".aac"@).skip(name.len() as int) =~= ".aac"@);
    assert((name + ".ogg"@).skip(name.len() as int) =~= ".ogg"@);
    assert((name + ".pdf"@).skip(name.len() as int) =~= ".pdf"@);
    assert((name + ".docx"@).skip(name.len() as int) =~= ".docx"@);
    assert((name + ".xlsx"@).skip(name.len() as int) =~= ".xlsx"@);
    assert((name + ".pptx"@).skip(name.len() as int) =~= ".pptx"@);
}

/// The compression named by a lowercase extension.
pub open spec fn extension_compression(ext: Seq<char>) -> Option<CompressionType> {
    if ext == "gz"@ || ext == "gzip"@ {
        Some(CompressionType::Gzip)
    } else if ext == "zst"@ || ext == "zstd"@ {
        Some(CompressionType::Zstd)
    } else {
        None
    }
}

impl CompressionType {
    /// Get a human-readable name.
    pub fn name(&self) -> (r: &'static str)
        ensures
            r@ == (match self {
                CompressionType::NoCompression => "none"@,
                CompressionType::Gzip => "gzip"@,
                CompressionType::Zstd => "zstd"@,
            }),
    {
        match self {
            CompressionType::NoCompression => "none",
            CompressionType::Gzip => "gzip",
            CompressionType::Zstd => "zstd",
        }
    }

    /// Detect compression from a file extension (case-insensitively).
    pub fn from_extension(ext: &str) -> (r: Option<Self>)
        ensures
            r == extension_compression(lowercase_of(ext@)),
    {
        let lower = lowercase(ext);
        let l = lower.as_str();
        if str_eq(l, "gz") || str_eq(l, "gzip") {
            Some(CompressionType::Gzip)
        } else if str_eq(l, "zst") || str_eq(l, "zstd") {
            Some(CompressionType::Zstd)
        } else {
            None
        }
    }

    /// Check if a file is already compressed based on its (case-insensitive)
    /// extension: archives, compressed media and office documents.
    pub fn is_already_compressed(path: &str) -> (r: bool)
        ensures
            r == compressed_suffix(lowercase_of(path@)),
            forall|i: int|
                0 <= i < already_compressed_extensions().len() && has_suffix(
                    lowercase_of(path@),
                    #[trigger] already_compressed_extensions()[i],
                ) ==> r,
            forall|i: int|
                0 <= i < already_compressed_extensions().len() && is_ascii_text(path@) && has_suffix(
                    path@.map_values(|c: char| ascii_lower(c)),
                    #[trigger] already_compressed_extensions()[i],
                ) ==> r,
    {
        proof {
            lemma_listed_suffix_is_compressed(lowercase_of(path@));
        }
        let lower = lowercase(path);
        let l = lower.as_str();
        ends_with(l, ".gz") || ends_with(l, ".gzip") || ends_with(l, ".zst") || ends_with(
            l,
            ".zstd",
        ) || ends_with(l, ".zip") || ends_with(l, ".7z") || ends_with(l, ".rar") || ends_with(
            l,
            ".xz",
        ) || ends_with(l, ".bz2") || ends_with(l, ".lz4") || ends_with(l, ".lzma") || ends_with(
            l,
            ".jpg",
        ) || ends_with(l, ".jpeg") || ends_with(l, ".png") || ends_with(l, ".gif") || ends_with(
            l,
            ".webp",
        ) || ends_with(l, ".mp3") || ends_with(l, ".mp4") || ends_with(l, ".mkv") || ends_with(
            l,
            ".avi",
        ) || ends_with(l, ".mov") || ends_with(l, ".webm") || ends_with(l, ".flac") || ends_with(
            l,
            ".aac",
        ) || ends_with(l, ".ogg") || ends_with(l, ".pdf") || ends_with(l, ".docx") || ends_with(
            l,
            ".xlsx",
        ) || ends_with(l, ".pptx")
    }
}

/// Compression level (1-9, where 1 is fastest-lowest and 9 is
/// slowest-highest).
#[derive(Debug, Clone, Copy)]
pub struct CompressionLevel(u8);

impl CompressionLevel {
    #[verifier::type_invariant]
    spec fn in_range(self) -> bool {
        1 <= self.0 <= 9
    }

    /// The level as a number.
    pub closed spec fn level(self) -> u8 {
        self.0
    }

    /// Create a new compression level (clamped to 1-9).
    pub fn new(level: u8) -> (r: Self)
        ensures
            r.level() == (if level < 1 {
                1
            } else if level > 9 {
                9
            } else {
                level
            }),
    {
        if level < 1 {
            CompressionLevel(1)
        } else if level > 9 {
            CompressionLevel(9)
        } else {
            CompressionLevel(level)
        }
    }

    /// Fastest compression (level 1).
    pub fn fast() -> (r: Self)
        ensures
            r.level() == 1,
    {
        CompressionLevel(1)
    }

    /// Balanced compression (level 3).
    pub fn balanced() -> (r: Self)
        ensures
            r.level() == 3,
    {
        CompressionLevel(3)
    }

    /// Maximum compression (level 9).
    pub fn max() -> (r: Self)
        ensures
            r.level() == 9,
    {
        CompressionLevel(9)
    }

    /// Get the level value.
    pub fn value(&self) -> (r: u8)
        ensures
            r == self.level(),
            1 <= r <= 9,
    {
        proof {
            use_type_invariant(self);
        }
        self.0
    }
}

impl Default for CompressionLevel {
    fn default() -> (r: Self)
        ensures
            r.level() == 3,
    {
        CompressionLevel(3)
    }
}

/// The gzip stream that `flate2`'s `GzEncoder` writes for `data` at `level`.
pub uninterp spec fn gzip_encoded(data: Seq<u8>, level: u32) -> Seq<u8>;

/// The bytes that `flate2`'s `GzDecoder` reads out of `data`.
pub uninterp spec fn gzip_decoded(data: Seq<u8>) -> Seq<u8>;

/// The zstd frame that `zstd::Encoder` writes for `data` at `level`.
pub uninterp spec fn zstd_encoded(data: Seq<u8>, level: i32) -> Seq<u8>;

/// The bytes that `zstd::Decoder` reads out of `data`.
pub uninterp spec fn zstd_decoded(data: Seq<u8>) -> Seq<u8>;

/// Gzip compression through `flate2::write::GzEncoder` (new, `write_all`,
/// `finish`) into a vector, which cannot fail to take the bytes; at a level
/// in 1..=9 it succeeds, giving the bytes `gzip_encoded`.
#[verifier::external_body]
fn gzip_compress(data: &[u8], level: u32) -> (r: Result<Vec<u8>, std::io::Error>)
    requires
        1 <= level <= 9,
    ensures
        r is Ok,
        r matches Ok(v) ==> v@ == gzip_encoded(data@, level),
{
    let mut encoder = flate2::write::GzEncoder::new(Vec::new(), flate2::Compression::new(level));
    encoder.write_all(data)?;
    encoder.finish()
}

/// Gzip decompression through `flate2::read::GzDecoder` and
/// `read_to_end`. On success the bytes are `gzip_decoded(data)`; a stream
/// that `GzEncoder` wrote at a level in 1..=9 decodes to what was written.
#[verifier::external_body]
fn gzip_decompress(data: &[u8]) -> (r: Result<Vec<u8>, std::io::Error>)
    ensures
        r matches Ok(v) ==> v@ == gzip_decoded(data@),
        forall|x: Seq<u8>, l: u32|
            1 <= l <= 9 && #[trigger] gzip_encoded(x, l) == data@ ==> r is Ok && r.unwrap()@ == x,
{
    let mut output = Vec::new();
    let mut decoder = flate2::read::GzDecoder::new(data);
    decoder.read_to_end(&mut output)?;
    Ok(output)
}

/// Zstd compression through `zstd::Encoder` (new, `write_all`, `finish`)
/// into a vector, which cannot fail to take the bytes; at a level in 1..=9
/// (all valid zstd levels) it succeeds, giving the bytes `zstd_encoded`.
#[verifier::external_body]
fn zstd_compress(data: &[u8], level: i32) -> (r: Result<Vec<u8>, std::io::Error>)
    requires
        1 <= level <= 9,
    ensures
        r is Ok,
        r matches Ok(v) ==> v@ == zstd_encoded(data@, level),
{
    let mut encoder = zstd::Encoder::new(Vec::new(), level)?;
    encoder.write_all(data)?;
    encoder.finish()
}

/// Zstd decompression through `zstd::Decoder` and `read_to_end`. On
/// success the bytes are `zstd_decoded(data)`; a frame that `zstd::Encoder`
/// wrote at a level in 1..=9 decodes to what was written.
#[verifier::external_body]
fn zstd_decompress(data: &[u8]) -> (r: Result<Vec<u8>, std::io::Error>)
    ensures
        r matches Ok(v) ==> v@ == zstd_decoded(data@),
        forall|x: Seq<u8>, l: i32|
            1 <= l <= 9 && #[trigger] zstd_encoded(x, l) == data@ ==> r is Ok && r.unwrap()@ == x,
{
    let mut output = Vec::new();
    let mut decoder = zstd::Decoder::new(data)?;
    decoder.read_to_end(&mut output)?;
    Ok(output)
}

/// The bytes that compressing `data` with `c` at level `level` produces.
pub open spec fn compressed_form(data: Seq<u8>, c: CompressionType, level: u8) -> Seq<u8> {
    match c {
        CompressionType::NoCompression => data,
        CompressionType::Gzip => gzip_encoded(data, level as u32),
        CompressionType::Zstd => zstd_encoded(data, level as i32),
    }
}

/// The bytes that decompressing `data` with `c` produces.
pub open spec fn decompressed_form(data: Seq<u8>, c: CompressionType) -> Seq<u8> {
    match c {
        CompressionType::NoCompression => data,
        CompressionType::Gzip => gzip_decoded(data),
        CompressionType::Zstd => zstd_decoded(data),
    }
}

/// Compress data in memory: always succeeds, giving the data unchanged
/// without compression, else its gzip stream or zstd frame at the level.
pub fn compress(data: &[u8], compression: CompressionType, level: CompressionLevel) -> (r: Result<
    Vec<u8>,
    std::io::Error,
>)
    ensures
        r matches Ok(v) && v@ == compressed_form(data@, compression, level.level()),
{
    match compression {
        CompressionType::NoCompression => Ok(bytes_to_vec(data)),
        CompressionType::Gzip => gzip_compress(data, level.value() as u32),
        CompressionType::Zstd => zstd_compress(data, level.value() as i32),
    }
}

/// Decompress data in memory. Without compression the data comes back
/// unchanged and the call succeeds.
pub fn decompress(data: &[u8], compression: CompressionType) -> (r: Result<
    Vec<u8>,
    std::io::Error,
>)
    ensures
        r matches Ok(v) ==> v@ == decompressed_form(data@, compression),
        compression == CompressionType::NoCompression ==> r is Ok,
        forall|x: Seq<u8>, l: CompressionLevel|
            #[trigger] compressed_form(x, compression, l.level()) == data@ && 1 <= l.level() <= 9
                ==> (r matches Ok(v) && v@ == x),
{
    match compression {
        CompressionType::NoCompression => Ok(bytes_to_vec(data)),
        CompressionType::Gzip => {
            let r = gzip_decompress(data);
            proof {
                assert forall|x: Seq<u8>, l: CompressionLevel|
                    #[trigger] compressed_form(x, compression, l.level()) == data@ && 1
                        <= l.level() <= 9 implies (r matches Ok(v) && v@ == x) by {
                    assert(gzip_encoded(x, l.level() as u32) == data@);
                }
            }
            r
        },
        CompressionType::Zstd => {
            let r = zstd_decompress(data);
            proof {
                assert forall|x: Seq<u8>, l: CompressionLevel|
                    #[trigger] compressed_form(x, compression, l.level()) == data@ && 1
                        <= l.level() <= 9 implies (r matches Ok(v) && v@ == x) by {
                    assert(zstd_encoded(x, l.level() as i32) == data@);
                }
            }
            r
        },
    }
}

} // verus!
