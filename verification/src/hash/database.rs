//! Plain text hash databases: the standard format
//! (`hash  algorithm  mode  path`, fields separated by two spaces) and the
//! hashdeep CSV format (`size,hash1,...,filename`), read from lines and
//! written into text buffers.
use vstd::prelude::*;
use std::io::Read;
use std::io::Write;
use crate::paths::{file_extension, path_extension, path_with_extension, with_extension};
use crate::hash::error::{classified, HashUtilityError, IoErrorKind};
use crate::text::{
    chars_of,
    contains_char,
    dec_str,
    decimal,
    joined,
    push_char,
    push_str,
    split_char,
    split_on,
    str_eq,
    string_of_range,
    to_string,
    trim,
    trim_of,
    whitespace_fields,
    split_whitespace,
    is_white_space,
    trim_start_of,
    trim_end_of,
    starts_with,
    has_prefix,
    lemma_dec_str_digits,
    lemma_split_on_concat,
    lemma_split_on_none,
};
use vstd::utf8::encode_utf8;
use crate::hash::hash::{algorithm_named, is_hex_digest, is_lower_hex};

verus! {

/// Database entry with metadata
#[derive(Debug, Clone)]
pub struct DatabaseEntry {
    pub hash: String,
    pub algorithm: String,
    pub fast_mode: bool,
}

/// Database format type
#[derive(Debug, Clone, Copy, PartialEq, Eq, Structural)]
pub enum DatabaseFormat {
    /// Standard format: hash  algorithm  fast_mode  filepath
    Standard,
    /// Hashdeep format: size,hash1,hash2,...,filename
    Hashdeep,
}

/// Handler for reading and writing hash database files
pub struct DatabaseHandler;

/// The text of an entry read from a database, with the path it belongs to.
pub struct EntryText {
    pub path: Seq<char>,
    pub hash: Seq<char>,
    pub algorithm: Seq<char>,
    pub fast_mode: bool,
}

/// The text of a path/entry pair.
pub open spec fn entry_text(e: (String, DatabaseEntry)) -> EntryText {
    EntryText { path: e.0@, hash: e.1.hash@, algorithm: e.1.algorithm@, fast_mode: e.1.fast_mode }
}

/// The texts of a list of path/entry pairs.
pub open spec fn entry_texts(v: Seq<(String, DatabaseEntry)>) -> Seq<EntryText> {
    v.map_values(|e: (String, DatabaseEntry)| entry_text(e))
}

/// `s` with every backslash turned into a slash, the separator used here.
pub open spec fn slashes_normalized(s: Seq<char>) -> Seq<char> {
    s.map_values(|c: char| if c == '\\' { '/' } else { c })
}

/// Normalize the separators of a path string to `/`.
pub fn normalize_path_string(s: &str) -> (r: String)
    ensures
        r@ == slashes_normalized(s@),
{
    let cs = chars_of(s);
    let mut out = String::new();
    let mut i: usize = 0;
    while i < cs.len()
        invariant
            i <= cs@.len(),
            cs@ == s@,
            out@ == slashes_normalized(cs@.take(i as int)),
        decreases cs@.len() - i,
    {
        let c = cs[i];
        if c == '\\' {
            push_char(&mut out, '/');
        } else {
            push_char(&mut out, c);
        }
        assert(slashes_normalized(cs@.take(i + 1)) =~= slashes_normalized(cs@.take(i as int)).push(
            if c == '\\' {
                '/'
            } else {
                c
            },
        ));
        i = i + 1;
    }
    assert(cs@.take(cs@.len() as int) =~= cs@);
    out
}

/// The path a database line names, with its separators normalized.
pub fn parse_database_path(s: &str) -> (r: String)
    ensures
        r@ == slashes_normalized(s@),
{
    normalize_path_string(s)
}

/// A two-space delimiter starts at position `i` of `s`.
pub open spec fn delim_at(s: Seq<char>, i: int) -> bool {
    0 <= i && i + 1 < s.len() && s[i] == ' ' && s[i + 1] == ' '
}

/// The position of the first two-space delimiter of `s`.
pub open spec fn first_delim(s: Seq<char>) -> Option<int>
    decreases s.len(),
{
    if s.len() < 2 {
        None
    } else if s[0] == ' ' && s[1] == ' ' {
        Some(0)
    } else {
        match first_delim(s.drop_first()) {
            Some(i) => Some(i + 1),
            None => None,
        }
    }
}

/// The pieces of `s` that `str::splitn(n, "  ")` yields, for `n` of at least
/// one: at most `n - 1` splits, each at the first delimiter left, the last
/// piece holding the rest.
pub open spec fn split_two_spaces(s: Seq<char>, n: nat) -> Seq<Seq<char>>
    decreases n,
{
    if n <= 1 {
        seq![s]
    } else {
        match first_delim(s) {
            Some(i) => seq![s.take(i)] + split_two_spaces(s.skip(i + 2), (n - 1) as nat),
            None => seq![s],
        }
    }
}

proof fn lemma_first_delim(s: Seq<char>, i: int)
    requires
        0 <= i,
        forall|j: int| 0 <= j < i ==> !delim_at(s, j),
    ensures
        delim_at(s, i) ==> first_delim(s) == Some(i),
        i + 1 >= s.len() ==> first_delim(s) is None,
    decreases i,
{
    if s.len() >= 2 && i > 0 {
        assert(!delim_at(s, 0));
        assert forall|j: int| 0 <= j < i - 1 implies !delim_at(s.drop_first(), j) by {
            assert(!delim_at(s, j + 1));
        }
        lemma_first_delim(s.drop_first(), i - 1);
    }
}

/// The first two-space delimiter of `cs` at or after `start`.
fn find_delim(cs: &Vec<char>, start: usize) -> (r: Option<usize>)
    requires
        start <= cs@.len(),
    ensures
        match r {
            Some(i) => start <= i && i + 1 < cs@.len() && first_delim(cs@.skip(start as int))
                == Some(i - start),
            None => first_delim(cs@.skip(start as int)) is None,
        },
{
    let ghost t = cs@.skip(start as int);
    let mut i: usize = start;
    while i < cs.len() && cs.len() - i > 1
        invariant
            start <= i <= cs@.len(),
            t == cs@.skip(start as int),
            forall|j: int| 0 <= j < i - start ==> !delim_at(t, j),
        decreases cs@.len() - i,
    {
        if cs[i] == ' ' && cs[i + 1] == ' ' {
            proof {
                lemma_first_delim(t, i - start);
            }
            return Some(i);
        }
        i = i + 1;
    }
    proof {
        lemma_first_delim(t, i - start);
    }
    None
}

/// `line.splitn(n, "  ")`, the pieces copied into strings.
fn splitn_two_spaces(line: &str, n: usize) -> (r: Vec<String>)
    requires
        n >= 1,
    ensures
        r@.map_values(|p: String| p@) == split_two_spaces(line@, n as nat),
{
    let cs = chars_of(line);
    let mut parts: Vec<String> = Vec::new();
    let mut start: usize = 0;
    proof {
        assert(cs@.skip(0) =~= cs@);
        assert(parts@.map_values(|p: String| p@) + split_two_spaces(cs@.skip(0), n as nat)
            =~= split_two_spaces(cs@, n as nat));
    }
    while parts.len() < n - 1
        invariant
            start <= cs@.len(),
            cs@ == line@,
            parts@.len() < n,
            parts@.map_values(|p: String| p@) + split_two_spaces(
                cs@.skip(start as int),
                (n - parts@.len()) as nat,
            ) == split_two_spaces(cs@, n as nat),
        decreases n - parts@.len(),
    {
        let ghost rest = cs@.skip(start as int);
        let ghost before = parts@.map_values(|p: String| p@);
        match find_delim(&cs, start) {
            Some(i) => {
                let piece = string_of_range(&cs, start, i);
                parts.push(piece);
                proof {
                    let k = i - start;
                    assert(rest.take(k) =~= cs@.subrange(start as int, i as int));
                    assert(rest.skip(k + 2) =~= cs@.skip(i + 2));
                    assert(split_two_spaces(rest, (n - before.len()) as nat) == seq![rest.take(k)]
                        + split_two_spaces(rest.skip(k + 2), (n - before.len() - 1) as nat));
                    assert(parts@.map_values(|p: String| p@) =~= before.push(rest.take(k)));
                    assert(parts@.map_values(|p: String| p@) + split_two_spaces(
                        cs@.skip(i + 2),
                        (n - parts@.len()) as nat,
                    ) =~= before + split_two_spaces(rest, (n - before.len()) as nat));
                }
                assert(i + 1 < cs.len());
                start = i + 2;
            },
            None => {
                let piece = string_of_range(&cs, start, cs.len());
                parts.push(piece);
                proof {
                    assert(cs@.subrange(start as int, cs@.len() as int) =~= rest);
                    assert(parts@.map_values(|p: String| p@) =~= before.push(rest));
                    assert(before + split_two_spaces(rest, (n - before.len()) as nat) =~= before
                        + seq![rest]);
                }
                return parts;
            },
        }
    }
    let ghost before = parts@.map_values(|p: String| p@);
    let piece = string_of_range(&cs, start, cs.len());
    parts.push(piece);
    proof {
        assert(cs@.subrange(start as int, cs@.len() as int) =~= cs@.skip(start as int));
        assert(parts@.map_values(|p: String| p@) =~= before.push(cs@.skip(start as int)));
        assert(before + seq![cs@.skip(start as int)] =~= before.push(cs@.skip(start as int)));
    }
    parts
}

/// What `parse_line` makes of a standard line: the hash, the algorithm,
/// whether it was hashed in fast mode, and the normalized path.
pub open spec fn parse_line_spec(line: Seq<char>) -> Option<
    (Seq<char>, Seq<char>, bool, Seq<char>),
> {
    let parts = split_two_spaces(line, 4);
    if parts.len() == 4 {
        let hash = trim_of(parts[0]);
        let algorithm = trim_of(parts[1]);
        let mode = trim_of(parts[2]);
        let path = trim_of(parts[3]);
        if mode != "fast"@ && mode != "normal"@ {
            None
        } else if hash.len() > 0 && algorithm.len() > 0 && path.len() > 0 {
            Some((hash, algorithm, mode == "fast"@, slashes_normalized(path)))
        } else {
            None
        }
    } else {
        None
    }
}

/// The algorithm a hash of `n` bytes is taken to be: MD5, SHA-1, SHA-224,
/// SHA-256, SHA-384 or SHA-512 by its hexadecimal length, else unknown.
pub open spec fn algorithm_for_length(n: nat) -> Seq<char> {
    if n == 32 {
        "md5"@
    } else if n == 40 {
        "sha1"@
    } else if n == 56 {
        "sha224"@
    } else if n == 64 {
        "sha256"@
    } else if n == 96 {
        "sha384"@
    } else if n == 128 {
        "sha512"@
    } else {
        "unknown"@
    }
}

/// The entries that a hashdeep line gives for its first `n` hashes: one per
/// non-empty hash, named by the header's algorithms when `use_header`, else
/// by the hash's length.
pub open spec fn hashdeep_entries_upto(
    path: Seq<char>,
    hashes: Seq<Seq<char>>,
    algorithms: Seq<Seq<char>>,
    use_header: bool,
    n: nat,
) -> Seq<EntryText>
    decreases n,
{
    if n == 0 {
        Seq::empty()
    } else {
        let prev = hashdeep_entries_upto(path, hashes, algorithms, use_header, (n - 1) as nat);
        let h = hashes[n - 1];
        if h.len() == 0 {
            prev
        } else {
            prev.push(
                EntryText {
                    path,
                    hash: h,
                    algorithm: if use_header {
                        algorithms[n - 1]
                    } else {
                        algorithm_for_length(byte_len(h) as nat)
                    },
                    fast_mode: false,
                },
            )
        }
    }
}

/// What `parse_hashdeep_line` makes of a line: the entries, one per
/// non-empty hash, or nothing when the line is malformed.
pub open spec fn hashdeep_line_spec(line: Seq<char>, algorithms: Seq<Seq<char>>) -> Option<
    Seq<EntryText>,
> {
    let parts = split_on(line, ',');
    if parts.len() < 3 {
        None
    } else {
        let filename = trim_of(parts.last());
        if filename.len() == 0 {
            None
        } else {
            let hashes = parts.subrange(1, parts.len() - 1).map_values(|p: Seq<char>| trim_of(p));
            let use_header = algorithms.len() > 0 && algorithms.len() == hashes.len();
            let es = hashdeep_entries_upto(
                slashes_normalized(filename),
                hashes,
                algorithms,
                use_header,
                hashes.len(),
            );
            if es.len() == 0 {
                None
            } else {
                Some(es)
            }
        }
    }
}

/// The format a trimmed line shows, if any: a header (`%`) or a comma
/// means hashdeep, a two-space delimiter the standard format.
pub open spec fn line_format(t: Seq<char>) -> Option<DatabaseFormat> {
    if t.len() == 0 {
        None
    } else if t[0] == '%' || t.contains(',') {
        Some(DatabaseFormat::Hashdeep)
    } else if first_delim(t) is Some {
        Some(DatabaseFormat::Standard)
    } else {
        None
    }
}

/// The format of the first line of `lines` that shows one; standard when
/// none does.
pub open spec fn format_of_lines(lines: Seq<Seq<char>>) -> DatabaseFormat
    decreases lines.len(),
{
    if lines.len() == 0 {
        DatabaseFormat::Standard
    } else {
        match line_format(trim_of(lines[0])) {
            Some(f) => f,
            None => format_of_lines(lines.drop_first()),
        }
    }
}

/// The first ten lines of `lines`, or all of them when there are fewer.
pub open spec fn first_lines(lines: Seq<Seq<char>>) -> Seq<Seq<char>> {
    if lines.len() < 10 {
        lines
    } else {
        lines.take(10)
    }
}

/// The texts of a list of strings.
pub open spec fn string_texts(v: Seq<String>) -> Seq<Seq<char>> {
    v.map_values(|s: String| s@)
}

/// Whether the text contains a two-space delimiter.
fn has_delim(s: &str) -> (r: bool)
    ensures
        r == (first_delim(s@) is Some),
{
    let cs = chars_of(s);
    proof {
        assert(cs@.skip(0) =~= cs@);
    }
    find_delim(&cs, 0).is_some()
}

/// The xz stream that `xz2::write::XzEncoder` writes for `data` at preset
/// `level`.
pub uninterp spec fn xz_encoded(data: Seq<u8>, level: nat) -> Seq<u8>;

/// What `xz2::read::XzDecoder` reads out of `data`: the decoded bytes, or
/// nothing when `data` is not a well-formed xz stream.
pub uninterp spec fn xz_decoded(data: Seq<u8>) -> Option<Seq<u8>>;

/// Xz compression through `xz2::write::XzEncoder` (new, `write_all`,
/// `finish`) into a vector, which cannot fail to take the bytes; at a
/// preset in 0..=9 (all valid presets; another one panics) it succeeds,
/// giving the bytes `xz_encoded`.
#[verifier::external_body]
fn xz_compress(data: &[u8], level: u32) -> (r: Result<Vec<u8>, std::io::Error>)
    requires
        level <= 9,
    ensures
        r is Ok,
        r matches Ok(v) ==> v@ == xz_encoded(data@, level as nat),
{
    let mut encoder = xz2::write::XzEncoder::new(Vec::new(), level);
    encoder.write_all(data)?;
    encoder.finish()
}

/// Xz decompression through `xz2::read::XzDecoder` and `read_to_end`: it
/// succeeds exactly on well-formed streams, giving `xz_decoded(data)`; a
/// stream that `XzEncoder` wrote at a preset in 0..=9 decodes to what was
/// written.
#[verifier::external_body]
fn xz_decompress(data: &[u8]) -> (r: Result<Vec<u8>, std::io::Error>)
    ensures
        r is Ok <==> xz_decoded(data@) is Some,
        r matches Ok(v) ==> xz_decoded(data@) == Some(v@),
        forall|x: Seq<u8>, l: nat|
            l <= 9 && #[trigger] xz_encoded(x, l) == data@ ==> r is Ok && r.unwrap()@ == x,
{
    let mut output = Vec::new();
    let mut decoder = xz2::read::XzDecoder::new(data);
    decoder.read_to_end(&mut output)?;
    Ok(output)
}

/// The extension that the compressed copy of a database at `input` gets:
/// the input's extension (`txt` when it has none) followed by `.xz`.
pub open spec fn compressed_extension(input: Seq<char>) -> Seq<char> {
    match path_extension(input) {
        Some(e) => e + ".xz"@,
        None => "txt.xz"@,
    }
}

impl DatabaseHandler {
    /// Check if a path has .xz extension (compressed database)
    pub fn is_compressed(path: &str) -> (r: bool)
        ensures
            r == (path_extension(path@) == Some("xz"@)),
    {
        match file_extension(path) {
            Some(ext) => str_eq(ext.as_str(), "xz"),
            None => false,
        }
    }

    /// The bytes of a database file whose raw contents are `raw`: decoded
    /// from xz for a `.xz` path (a malformed stream is a read error on the
    /// path), else as they are.
    pub fn database_bytes(path: &str, raw: &[u8]) -> (r: Result<Vec<u8>, HashUtilityError>)
        ensures
            path_extension(path@) == Some("xz"@) ==> {
                &&& (r is Ok <==> xz_decoded(raw@) is Some)
                &&& (r matches Ok(v) ==> xz_decoded(raw@) == Some(v@))
                &&& (r matches Err(e) ==> exists|p: String, k: IoErrorKind, err: std::io::Error|
                    p@ == path@ && #[trigger] classified(k, "reading database"@, Some(p), err, e))
                &&& forall|x: Seq<u8>, l: nat|
                    l <= 9 && #[trigger] xz_encoded(x, l) == raw@ ==> (r matches Ok(v) && v@ == x)
            },
            path_extension(path@) != Some("xz"@) ==> (r matches Ok(v) && v@ == raw@),
    {
        if Self::is_compressed(path) {
            match xz_decompress(raw) {
                Ok(v) => Ok(v),
                Err(e) => {
                    let p = to_string(path);
                    let err = HashUtilityError::from_io_error(e, "reading database", Some(p));
                    Err(err)
                },
            }
        } else {
            Ok(crate::text::bytes_to_vec(raw))
        }
    }

    /// The name of the compressed copy of the database at `input`: the
    /// input with its extension (`txt` when it has none) followed by `.xz`.
    pub fn compressed_database_name(input: &str) -> (r: String)
        ensures
            r@ == path_with_extension(input@, compressed_extension(input@)),
    {
        let mut ext = match file_extension(input) {
            Some(e) => e,
            None => to_string("txt"),
        };
        push_str(&mut ext, ".xz");
        proof {
            reveal_strlit("txt");
            reveal_strlit(".xz");
            reveal_strlit("txt.xz");
            assert(ext@ =~= compressed_extension(input@));
        }
        with_extension(input, ext.as_str())
    }

    /// Compress a database whose contents are `data`, read from `input`,
    /// with xz at preset 6: the name of the compressed copy and its bytes.
    pub fn compress_database(input: &str, data: &[u8]) -> (r: (String, Vec<u8>))
        ensures
            r.0@ == path_with_extension(input@, compressed_extension(input@)),
            r.1@ == xz_encoded(data@, 6),
    {
        let name = Self::compressed_database_name(input);
        let bytes = match xz_compress(data, 6) {
            Ok(v) => v,
            Err(_) => Vec::new(),
        };
        (name, bytes)
    }

    /// The format of a database from its first lines: the first of the
    /// first ten lines that shows a format decides it; standard otherwise.
    pub fn detect_format(lines: &[String]) -> (r: DatabaseFormat)
        ensures
            r == format_of_lines(first_lines(string_texts(lines@))),
    {
        let ghost first = first_lines(string_texts(lines@));
        let n: usize = if lines.len() < 10 {
            lines.len()
        } else {
            10
        };
        proof {
            assert(first.len() == n);
            assert(first.skip(0) =~= first);
        }
        let mut i: usize = 0;
        while i < n
            invariant
                i <= n <= lines@.len(),
                n == first.len(),
                first == first_lines(string_texts(lines@)),
                format_of_lines(first) == format_of_lines(first.skip(i as int)),
            decreases n - i,
        {
            let t = trim(lines[i].as_str());
            proof {
                assert(first[i as int] == string_texts(lines@)[i as int]);
                assert(first.skip(i as int)[0] == lines@[i as int]@);
                assert(first.skip(i as int).drop_first() =~= first.skip(i + 1));
            }
            if !t.is_empty() {
                let tc = chars_of(t);
                if tc[0] == '%' || contains_char(t, ',') {
                    return DatabaseFormat::Hashdeep;
                }
                if has_delim(t) {
                    return DatabaseFormat::Standard;
                }
            }
            i = i + 1;
        }
        DatabaseFormat::Standard
    }

    /// Write a single hash entry to the output buffer
    /// Format: `<hash>  <algorithm>  <fast_mode>  <filepath>` (two spaces between fields)
    pub fn write_entry(out: &mut String, hash: &str, algorithm: &str, fast_mode: bool, path: &str)
        ensures
            final(out)@ == old(out)@ + entry_line(hash@, algorithm@, fast_mode, path@) + "\n"@,
    {
        push_str(out, hash);
        push_str(out, "  ");
        push_str(out, algorithm);
        push_str(out, "  ");
        if fast_mode {
            push_str(out, "fast");
        } else {
            push_str(out, "normal");
        }
        push_str(out, "  ");
        push_str(out, path);
        push_str(out, "\n");
    }

    /// Write hashdeep format header
    /// Includes metadata and column definitions
    pub fn write_hashdeep_header(out: &mut String, algorithms: &[String])
        ensures
            final(out)@ == old(out)@ + "%%%% HASHDEEP-1.0\n"@ + "%%%% size,"@ + joined(
                string_texts(algorithms@),
                ","@,
            ) + ",filename\n"@ + "## Invoked from: hash utility\n"@
                + "## $ hash scan --format hashdeep\n"@ + "##\n"@,
    {
        push_str(out, "%%%% HASHDEEP-1.0\n");
        push_str(out, "%%%% size,");
        let ghost base = out@;
        let mut i: usize = 0;
        while i < algorithms.len()
            invariant
                i <= algorithms@.len(),
                out@ == base + joined(string_texts(algorithms@).take(i as int), ","@),
            decreases algorithms@.len() - i,
        {
            proof {
                let t = string_texts(algorithms@).take(i + 1);
                assert(t.drop_last() =~= string_texts(algorithms@).take(i as int));
                assert(t.last() == algorithms@[i as int]@);
            }
            if i > 0 {
                push_str(out, ",");
            }
            push_str(out, algorithms[i].as_str());
            proof {
                if i == 0 {
                    assert(string_texts(algorithms@).take(1)[0] == algorithms@[0]@);
                }
            }
            i = i + 1;
        }
        proof {
            assert(string_texts(algorithms@).take(algorithms@.len() as int) =~= string_texts(
                algorithms@,
            ));
        }
        push_str(out, ",filename\n");
        push_str(out, "## Invoked from: hash utility\n");
        push_str(out, "## $ hash scan --format hashdeep\n");
        push_str(out, "##\n");
    }

    /// Write a single entry in hashdeep format
    /// Format: size,hash1,hash2,...,filename
    pub fn write_hashdeep_entry(out: &mut String, size: u64, hashes: &[String], path: &str)
        ensures
            final(out)@ == old(out)@ + hashdeep_line(size as nat, string_texts(hashes@), path@) + "\n"@,
    {
        let d = decimal(size);
        push_str(out, d.as_str());
        let ghost base = out@;
        let mut i: usize = 0;
        while i < hashes.len()
            invariant
                i <= hashes@.len(),
                out@ == base + prefixed_each(string_texts(hashes@).take(i as int), ","@),
            decreases hashes@.len() - i,
        {
            proof {
                let t = string_texts(hashes@).take(i + 1);
                assert(t.drop_last() =~= string_texts(hashes@).take(i as int));
                assert(t.last() == hashes@[i as int]@);
            }
            push_str(out, ",");
            push_str(out, hashes[i].as_str());
            i = i + 1;
        }
        proof {
            assert(string_texts(hashes@).take(hashes@.len() as int) =~= string_texts(hashes@));
        }
        push_str(out, ",");
        push_str(out, path);
        push_str(out, "\n");
    }
}

/// Every text of `parts` preceded by `sep`, concatenated.
pub open spec fn prefixed_each(parts: Seq<Seq<char>>, sep: Seq<char>) -> Seq<char>
    decreases parts.len(),
{
    if parts.len() == 0 {
        Seq::empty()
    } else {
        prefixed_each(parts.drop_last(), sep) + sep + parts.last()
    }
}

/// The byte length that `str::len` reports for a text.
pub open spec fn byte_len(s: Seq<char>) -> usize {
    encode_utf8(s).len() as usize
}

/// A hash computed under MD5, SHA-1 or one of the SHA-2 algorithms, named by
/// its short name, is one byte per hexadecimal digit long, so inferring the
/// algorithm from its length gives that name back.
pub proof fn lemma_inferred_algorithm_of_hex_digest(name: Seq<char>, hex: Seq<char>)
    requires
        name == "md5"@ || name == "sha1"@ || name == "sha224"@ || name == "sha256"@ || name
            == "sha384"@ || name == "sha512"@,
        is_hex_digest(hex, algorithm_named(name)->0),
    ensures
        algorithm_for_length(byte_len(hex) as nat) == name,
{
    reveal_strlit("md5");
    reveal_strlit("sha1");
    reveal_strlit("sha224");
    reveal_strlit("sha-224");
    reveal_strlit("sha256");
    reveal_strlit("sha-256");
    reveal_strlit("sha384");
    reveal_strlit("sha-384");
    reveal_strlit("sha512");
    reveal_strlit("sha-512");
    assert(vstd::utf8::is_ascii_chars(hex)) by {
        assert forall|i: int| 0 <= i < hex.len() implies '\0' <= #[trigger] hex[i] <= '\u{7f}' by {
            assert(is_lower_hex(hex[i]));
        }
    }
    vstd::utf8::is_ascii_chars_encode_utf8(hex);
}

impl DatabaseHandler {
    /// Parse a single line from the database file
    /// Expected format: `<hash>  <algorithm>  <fast_mode>  <filepath>` (two spaces between fields)
    /// Returns None if the line is malformed
    /// Handles both forward and backward slashes in paths
    /// Note: Filenames may contain two spaces, so we only split on the first 3 delimiters
    pub fn parse_line(line: &str) -> (r: Option<(String, String, bool, String)>)
        ensures
            match parse_line_spec(line@) {
                Some((h, a, f, p)) => r matches Some(x) && x.0@ == h && x.1@ == a && x.2 == f
                    && x.3@ == p,
                None => r is None,
            },
    {
        let parts = splitn_two_spaces(line, 4);
        if parts.len() == 4 {
            let hash = trim(parts[0].as_str());
            let algorithm = trim(parts[1].as_str());
            let mode = trim(parts[2].as_str());
            let path = trim(parts[3].as_str());
            let fast_mode = if str_eq(mode, "fast") {
                true
            } else if str_eq(mode, "normal") {
                false
            } else {
                return None;
            };
            if !hash.is_empty() && !algorithm.is_empty() && !path.is_empty() {
                return Some(
                    (to_string(hash), to_string(algorithm), fast_mode, parse_database_path(path)),
                );
            }
        }
        None
    }

    /// Infer hash algorithm from hash string length
    pub fn infer_algorithm_from_hash(hash: &str) -> (r: String)
        ensures
            r@ == algorithm_for_length(byte_len(hash@) as nat),
    {
        let n = hash.len();
        if n == 32 {
            to_string("md5")
        } else if n == 40 {
            to_string("sha1")
        } else if n == 56 {
            to_string("sha224")
        } else if n == 64 {
            to_string("sha256")
        } else if n == 96 {
            to_string("sha384")
        } else if n == 128 {
            to_string("sha512")
        } else {
            to_string("unknown")
        }
    }

    /// Parse a single hashdeep format line
    /// Format: size,hash1,hash2,...,filename
    /// Returns multiple entries (one per hash algorithm)
    pub fn parse_hashdeep_line(line: &str, algorithms: &[String]) -> (r: Option<
        Vec<(String, DatabaseEntry)>,
    >)
        ensures
            match hashdeep_line_spec(line@, string_texts(algorithms@)) {
                Some(es) => r matches Some(v) && entry_texts(v@) == es,
                None => r is None,
            },
    {
        let parts = split_char(line, ',');
        let ghost texts = parts@.map_values(|p: String| p@);
        if parts.len() < 3 {
            return None;
        }
        let filename = trim(parts[parts.len() - 1].as_str());
        proof {
            assert(texts.last() == parts@[parts@.len() - 1]@);
        }
        if filename.is_empty() {
            return None;
        }
        let path = parse_database_path(filename);
        let ghost hash_texts = texts.subrange(1, texts.len() - 1).map_values(
            |p: Seq<char>| trim_of(p),
        );
        let mut hashes: Vec<&str> = Vec::new();
        let mut k: usize = 1;
        while k < parts.len() - 1
            invariant
                1 <= k <= parts@.len() - 1,
                parts@.len() >= 3,
                texts == parts@.map_values(|p: String| p@),
                hash_texts == texts.subrange(1, texts.len() - 1).map_values(
                    |p: Seq<char>| trim_of(p),
                ),
                hashes@.len() == k - 1,
                forall|j: int| 0 <= j < hashes@.len() ==> (#[trigger] hashes@[j])@ == hash_texts[j],
            decreases parts@.len() - k,
        {
            let h = trim(parts[k].as_str());
            hashes.push(h);
            proof {
                assert(hash_texts[k - 1] == trim_of(texts[k as int]));
            }
            k = k + 1;
        }
        let use_header = algorithms.len() > 0 && algorithms.len() == hashes.len();
        let ghost alg_texts = string_texts(algorithms@);
        let mut entries: Vec<(String, DatabaseEntry)> = Vec::new();
        let mut i: usize = 0;
        while i < hashes.len()
            invariant
                i <= hashes@.len(),
                hashes@.len() == hash_texts.len(),
                forall|j: int| 0 <= j < hashes@.len() ==> (#[trigger] hashes@[j])@ == hash_texts[j],
                alg_texts == string_texts(algorithms@),
                use_header == (alg_texts.len() > 0 && alg_texts.len() == hash_texts.len()),
                entry_texts(entries@) == hashdeep_entries_upto(
                    slashes_normalized(filename@),
                    hash_texts,
                    alg_texts,
                    use_header,
                    i as nat,
                ),
                path@ == slashes_normalized(filename@),
            decreases hashes@.len() - i,
        {
            let h = hashes[i];
            let ghost prev = entry_texts(entries@);
            if !h.is_empty() {
                let algorithm = if use_header {
                    algorithms[i].clone()
                } else {
                    Self::infer_algorithm_from_hash(h)
                };
                entries.push(
                    (path.clone(), DatabaseEntry { hash: to_string(h), algorithm, fast_mode: false }),
                );
                proof {
                    assert(entry_texts(entries@) =~= prev.push(entry_text(entries@.last())));
                    assert(h@ == hash_texts[i as int]);
                    if use_header {
                        assert(alg_texts[i as int] == algorithms@[i as int]@);
                    }
                }
            }
            i = i + 1;
        }
        if entries.len() == 0 {
            None
        } else {
            Some(entries)
        }
    }
}

/// What reading a database gives: the entries in line order (a later entry
/// for a path replaces an earlier one when they are collected into a map)
/// and the numbers (from one) of the malformed lines that were skipped.
#[derive(Debug)]
pub struct ParsedDatabase {
    pub entries: Vec<(String, DatabaseEntry)>,
    pub malformed: Vec<usize>,
}

/// Line numbers as naturals.
pub open spec fn line_numbers(v: Seq<usize>) -> Seq<nat> {
    v.map_values(|n: usize| n as nat)
}

/// The entries and malformed line numbers of a standard database: blank
/// lines are skipped, the others parsed by `parse_line`.
pub open spec fn standard_read(lines: Seq<Seq<char>>) -> (Seq<EntryText>, Seq<nat>)
    decreases lines.len(),
{
    if lines.len() == 0 {
        (Seq::empty(), Seq::empty())
    } else {
        let prev = standard_read(lines.drop_last());
        let line = lines.last();
        if trim_of(line).len() == 0 {
            prev
        } else {
            match parse_line_spec(line) {
                Some((h, a, f, p)) => (
                    prev.0.push(EntryText { path: p, hash: h, algorithm: a, fast_mode: f }),
                    prev.1,
                ),
                None => (prev.0, prev.1.push(lines.len())),
            }
        }
    }
}

/// The algorithm list after a trimmed header line `t` of a hashdeep
/// database: a `%%%%` line with a comma names the columns
/// `size,alg1,...,filename` in its second whitespace-separated field.
pub open spec fn header_algorithms(t: Seq<char>, current: Seq<Seq<char>>) -> Seq<Seq<char>> {
    if has_prefix(t, "%%%%"@) && t.contains(',') {
        let fields = whitespace_fields(t);
        if fields.len() >= 2 {
            let columns = split_on(fields[1], ',');
            if columns.len() >= 3 {
                columns.subrange(1, columns.len() - 1)
            } else {
                current
            }
        } else {
            current
        }
    } else {
        current
    }
}

/// The algorithms, entries and malformed line numbers after reading the
/// lines of a hashdeep database: header lines (`%`) update the algorithms,
/// blank lines are skipped, and of each data line the first entry counts.
pub open spec fn hashdeep_read(lines: Seq<Seq<char>>) -> (Seq<Seq<char>>, Seq<EntryText>, Seq<nat>)
    decreases lines.len(),
{
    if lines.len() == 0 {
        (Seq::empty(), Seq::empty(), Seq::empty())
    } else {
        let prev = hashdeep_read(lines.drop_last());
        let t = trim_of(lines.last());
        if t.len() == 0 {
            prev
        } else if t[0] == '%' {
            (header_algorithms(t, prev.0), prev.1, prev.2)
        } else {
            match hashdeep_line_spec(t, prev.0) {
                Some(es) => (prev.0, prev.1.push(es[0]), prev.2),
                None => (prev.0, prev.1, prev.2.push(lines.len())),
            }
        }
    }
}

proof fn lemma_entries_upto_len(
    path: Seq<char>,
    hashes: Seq<Seq<char>>,
    algorithms: Seq<Seq<char>>,
    use_header: bool,
    n: nat,
)
    ensures
        hashdeep_entries_upto(path, hashes, algorithms, use_header, n).len() <= n,
    decreases n,
{
    if n > 0 {
        lemma_entries_upto_len(path, hashes, algorithms, use_header, (n - 1) as nat);
    }
}

impl DatabaseHandler {
    /// Read the lines of a standard format database.
    pub fn read_standard_database(lines: &[String]) -> (r: ParsedDatabase)
        ensures
            entry_texts(r.entries@) == standard_read(string_texts(lines@)).0,
            line_numbers(r.malformed@) == standard_read(string_texts(lines@)).1,
    {
        let ghost texts = string_texts(lines@);
        let mut entries: Vec<(String, DatabaseEntry)> = Vec::new();
        let mut malformed: Vec<usize> = Vec::new();
        let mut i: usize = 0;
        proof {
            assert(texts.take(0) =~= Seq::<Seq<char>>::empty());
        }
        while i < lines.len()
            invariant
                i <= lines@.len(),
                texts == string_texts(lines@),
                entry_texts(entries@) == standard_read(texts.take(i as int)).0,
                line_numbers(malformed@) == standard_read(texts.take(i as int)).1,
            decreases lines@.len() - i,
        {
            let line = lines[i].as_str();
            let ghost prev_e = entry_texts(entries@);
            let ghost prev_m = line_numbers(malformed@);
            proof {
                assert(texts.take(i + 1).drop_last() =~= texts.take(i as int));
                assert(texts.take(i + 1).last() == line@);
            }
            if !trim(line).is_empty() {
                match Self::parse_line(line) {
                    Some((hash, algorithm, fast_mode, path)) => {
                        entries.push((path, DatabaseEntry { hash, algorithm, fast_mode }));
                        assert(entry_texts(entries@) =~= prev_e.push(entry_text(entries@.last())));
                    },
                    None => {
                        malformed.push(i + 1);
                        assert(line_numbers(malformed@) =~= prev_m.push((i + 1) as nat));
                    },
                }
            }
            i = i + 1;
        }
        proof {
            assert(texts.take(lines@.len() as int) =~= texts);
        }
        ParsedDatabase { entries, malformed }
    }

    /// Read the lines of a hashdeep format database.
    /// Format: size,hash1,hash2,...,filename
    /// Header lines start with %
    /// Note: For files with multiple hashes, only the first hash is stored
    pub fn read_hashdeep_database(lines: &[String]) -> (r: ParsedDatabase)
        ensures
            entry_texts(r.entries@) == hashdeep_read(string_texts(lines@)).1,
            line_numbers(r.malformed@) == hashdeep_read(string_texts(lines@)).2,
    {
        let ghost texts = string_texts(lines@);
        let mut entries: Vec<(String, DatabaseEntry)> = Vec::new();
        let mut malformed: Vec<usize> = Vec::new();
        let mut algorithms: Vec<String> = Vec::new();
        let mut i: usize = 0;
        proof {
            assert(texts.take(0) =~= Seq::<Seq<char>>::empty());
            assert(string_texts(algorithms@) =~= Seq::<Seq<char>>::empty());
        }
        while i < lines.len()
            invariant
                i <= lines@.len(),
                texts == string_texts(lines@),
                string_texts(algorithms@) == hashdeep_read(texts.take(i as int)).0,
                entry_texts(entries@) == hashdeep_read(texts.take(i as int)).1,
                line_numbers(malformed@) == hashdeep_read(texts.take(i as int)).2,
            decreases lines@.len() - i,
        {
            let t = trim(lines[i].as_str());
            let ghost prev_e = entry_texts(entries@);
            let ghost prev_m = line_numbers(malformed@);
            proof {
                assert(texts.take(i + 1).drop_last() =~= texts.take(i as int));
                assert(texts.take(i + 1).last() == lines@[i as int]@);
            }
            if !t.is_empty() {
                let tc = chars_of(t);
                if tc[0] == '%' {
                    if starts_with(t, "%%%%") && contains_char(t, ',') {
                        let fields = split_whitespace(t);
                        let ghost ftexts = fields@.map_values(|p: String| p@);
                        if fields.len() >= 2 {
                            proof {
                                assert(ftexts[1] == fields@[1]@);
                            }
                            let columns = split_char(fields[1].as_str(), ',');
                            let ghost ctexts = columns@.map_values(|p: String| p@);
                            if columns.len() >= 3 {
                                let mut algs: Vec<String> = Vec::new();
                                let mut k: usize = 1;
                                while k < columns.len() - 1
                                    invariant
                                        1 <= k <= columns@.len() - 1,
                                        columns@.len() >= 3,
                                        ctexts == columns@.map_values(|p: String| p@),
                                        string_texts(algs@) == ctexts.subrange(1, k as int),
                                    decreases columns@.len() - k,
                                {
                                    let ghost before = string_texts(algs@);
                                    algs.push(columns[k].clone());
                                    assert(ctexts[k as int] == columns@[k as int]@);
                                    assert(string_texts(algs@) =~= before.push(ctexts[k as int]));
                                    assert(string_texts(algs@) =~= ctexts.subrange(1, k + 1));
                                    k = k + 1;
                                }
                                algorithms = algs;
                            }
                        }
                    }
                } else {
                    match Self::parse_hashdeep_line(t, algorithms.as_slice()) {
                        Some(found) => {
                            proof {
                                assert(entry_texts(found@)[0] == entry_text(found@[0]));
                            }
                            let mut found = found;
                            let first = found.remove(0);
                            entries.push(first);
                            assert(entry_texts(entries@) =~= prev_e.push(entry_text(first)));
                        },
                        None => {
                            malformed.push(i + 1);
                            assert(line_numbers(malformed@) =~= prev_m.push((i + 1) as nat));
                        },
                    }
                }
            }
            i = i + 1;
        }
        proof {
            assert(texts.take(lines@.len() as int) =~= texts);
        }
        ParsedDatabase { entries, malformed }
    }

    /// Read a hash database from its lines, in the format that its first
    /// lines show.
    pub fn read_database(lines: &[String]) -> (r: ParsedDatabase)
        ensures
            format_of_lines(first_lines(string_texts(lines@))) == DatabaseFormat::Standard ==> {
                &&& entry_texts(r.entries@) == standard_read(string_texts(lines@)).0
                &&& line_numbers(r.malformed@) == standard_read(string_texts(lines@)).1
            },
            format_of_lines(first_lines(string_texts(lines@))) == DatabaseFormat::Hashdeep ==> {
                &&& entry_texts(r.entries@) == hashdeep_read(string_texts(lines@)).1
                &&& line_numbers(r.malformed@) == hashdeep_read(string_texts(lines@)).2
            },
    {
        match Self::detect_format(lines) {
            DatabaseFormat::Standard => Self::read_standard_database(lines),
            DatabaseFormat::Hashdeep => Self::read_hashdeep_database(lines),
        }
    }
}

/// The standard line for an entry, without its line ending.
pub open spec fn entry_line(hash: Seq<char>, algorithm: Seq<char>, fast_mode: bool, path: Seq<char>) -> Seq<
    char,
> {
    hash + "  "@ + algorithm + "  "@ + (if fast_mode {
        "fast"@
    } else {
        "normal"@
    }) + "  "@ + path
}

/// A text without any whitespace.
pub open spec fn no_white_space(s: Seq<char>) -> bool {
    forall|i: int| 0 <= i < s.len() ==> !is_white_space(#[trigger] s[i])
}

proof fn lemma_trim_no_edges(s: Seq<char>)
    requires
        s.len() > 0,
        !is_white_space(s[0]),
        !is_white_space(s.last()),
    ensures
        trim_of(s) == s,
{
}

proof fn lemma_split_field(f: Seq<char>, rest: Seq<char>, n: nat)
    requires
        n >= 2,
        no_white_space(f),
    ensures
        split_two_spaces(f + "  "@ + rest, n) == seq![f] + split_two_spaces(rest, (n - 1) as nat),
{
    reveal_strlit("  ");
    let line = f + "  "@ + rest;
    assert forall|j: int| 0 <= j < f.len() implies !delim_at(line, j) by {
        assert(line[j] == f[j]);
        assert(!is_white_space(f[j]));
    }
    assert(delim_at(line, f.len() as int));
    lemma_first_delim(line, f.len() as int);
    assert(line.take(f.len() as int) =~= f);
    assert(line.skip(f.len() as int + 2) =~= rest);
}

/// Reading back a written standard line gives the entry that was written,
/// with the path's separators normalized: for a hash and an algorithm
/// without whitespace and a path that neither starts nor ends with
/// whitespace.
pub proof fn lemma_entry_line_round_trip(
    hash: Seq<char>,
    algorithm: Seq<char>,
    fast_mode: bool,
    path: Seq<char>,
)
    requires
        hash.len() > 0,
        algorithm.len() > 0,
        path.len() > 0,
        no_white_space(hash),
        no_white_space(algorithm),
        !is_white_space(path[0]),
        !is_white_space(path.last()),
    ensures
        parse_line_spec(entry_line(hash, algorithm, fast_mode, path)) == Some(
            (hash, algorithm, fast_mode, slashes_normalized(path)),
        ),
{
    reveal_strlit("fast");
    reveal_strlit("normal");
    reveal_strlit("  ");
    let mode: Seq<char> = if fast_mode {
        "fast"@
    } else {
        "normal"@
    };
    let line = entry_line(hash, algorithm, fast_mode, path);
    let rest2 = mode + "  "@ + path;
    let rest1 = algorithm + "  "@ + rest2;
    assert(line =~= hash + "  "@ + rest1);
    assert(no_white_space(mode));
    lemma_split_field(hash, rest1, 4);
    lemma_split_field(algorithm, rest2, 3);
    lemma_split_field(mode, path, 2);
    let parts = split_two_spaces(line, 4);
    assert(parts =~= seq![hash, algorithm, mode, path]);
    lemma_trim_no_edges(hash);
    lemma_trim_no_edges(algorithm);
    lemma_trim_no_edges(mode);
    lemma_trim_no_edges(path);
    assert(fast_mode ==> mode == "fast"@);
    assert(!fast_mode ==> mode != "fast"@);
}

/// A text without commas.
pub open spec fn no_comma(s: Seq<char>) -> bool {
    forall|i: int| 0 <= i < s.len() ==> #[trigger] s[i] != ','
}

/// An entry that the standard format writes and reads back unchanged but
/// for its path's separators: a hash and an algorithm without whitespace or
/// commas, the hash not starting with `%`, and a path without commas that
/// neither starts nor ends with whitespace.
pub open spec fn writable_entry(e: EntryText) -> bool {
    &&& e.hash.len() > 0
    &&& e.algorithm.len() > 0
    &&& e.path.len() > 0
    &&& no_white_space(e.hash)
    &&& no_white_space(e.algorithm)
    &&& no_comma(e.hash)
    &&& no_comma(e.algorithm)
    &&& no_comma(e.path)
    &&& e.hash[0] != '%'
    &&& !is_white_space(e.path[0])
    &&& !is_white_space(e.path.last())
}

/// The standard lines written for `es`, one per entry, in order.
pub open spec fn entry_lines(es: Seq<EntryText>) -> Seq<Seq<char>> {
    es.map_values(|e: EntryText| entry_line(e.hash, e.algorithm, e.fast_mode, e.path))
}

/// An entry as it is read back: its path's separators normalized.
pub open spec fn as_read(e: EntryText) -> EntryText {
    EntryText { path: slashes_normalized(e.path), ..e }
}

proof fn lemma_entry_line_is_standard(e: EntryText)
    requires
        writable_entry(e),
    ensures
        line_format(trim_of(entry_line(e.hash, e.algorithm, e.fast_mode, e.path))) == Some(
            DatabaseFormat::Standard,
        ),
        trim_of(entry_line(e.hash, e.algorithm, e.fast_mode, e.path)).len() > 0,
{
    reveal_strlit("fast");
    reveal_strlit("normal");
    reveal_strlit("  ");
    let mode: Seq<char> = if e.fast_mode {
        "fast"@
    } else {
        "normal"@
    };
    let line = entry_line(e.hash, e.algorithm, e.fast_mode, e.path);
    let rest = e.algorithm + "  "@ + mode + "  "@ + e.path;
    assert(line =~= e.hash + "  "@ + rest);
    assert(line.last() == e.path.last());
    lemma_trim_no_edges(line);
    assert(no_comma(mode));
    assert(no_comma(line)) by {
        assert forall|i: int| 0 <= i < line.len() implies #[trigger] line[i] != ',' by {
            let a = e.hash.len() as int;
            let b = a + 2 + e.algorithm.len();
            let c = b + 2 + mode.len();
            if i < a {
                assert(line[i] == e.hash[i]);
            } else if i < a + 2 {
            } else if i < b {
                assert(line[i] == e.algorithm[i - a - 2]);
            } else if i < b + 2 {
            } else if i < c {
                assert(line[i] == mode[i - b - 2]);
            } else if i < c + 2 {
            } else {
                assert(line[i] == e.path[i - c - 2]);
            }
        }
    }
    assert(!line.contains(','));
    lemma_split_field(e.hash, rest, 4);
    assert forall|j: int| 0 <= j < e.hash.len() implies !delim_at(line, j) by {
        assert(line[j] == e.hash[j]);
        assert(!is_white_space(e.hash[j]));
    }
    assert(delim_at(line, e.hash.len() as int));
    lemma_first_delim(line, e.hash.len() as int);
}

/// Reading back the standard lines written for entries gives those entries,
/// in order and with their paths' separators normalized, and no malformed
/// line; the lines are recognized as a standard database. (A later entry
/// for a path then stands for it, as `stored_hash` says.)
pub proof fn lemma_read_written_entries(es: Seq<EntryText>)
    requires
        forall|i: int| 0 <= i < es.len() ==> writable_entry(#[trigger] es[i]),
    ensures
        standard_read(entry_lines(es)) == (
            es.map_values(|e: EntryText| as_read(e)),
            Seq::<nat>::empty(),
        ),
        format_of_lines(first_lines(entry_lines(es))) == DatabaseFormat::Standard,
    decreases es.len(),
{
    let lines = entry_lines(es);
    if es.len() > 0 {
        let init = es.drop_last();
        lemma_read_written_entries(init);
        assert(lines.drop_last() =~= entry_lines(init));
        let e = es.last();
        lemma_entry_line_is_standard(e);
        lemma_entry_line_round_trip(e.hash, e.algorithm, e.fast_mode, e.path);
        assert(es.map_values(|e: EntryText| as_read(e)) =~= init.map_values(
            |e: EntryText| as_read(e),
        ).push(as_read(e)));
        let first = first_lines(lines);
        assert(first[0] == lines[0]);
        lemma_entry_line_is_standard(es[0]);
    }
}

/// The hashdeep line `write_hashdeep_entry` writes (before its newline):
/// the size, each hash after a comma, a comma and the path.
pub open spec fn hashdeep_line(size: nat, hashes: Seq<Seq<char>>, path: Seq<char>) -> Seq<char> {
    dec_str(size) + prefixed_each(hashes, ","@) + ","@ + path
}

/// A field of a hashdeep line that reads back as it was written: not
/// empty, without a comma, neither starting nor ending with whitespace.
pub open spec fn clean_field(f: Seq<char>) -> bool {
    &&& f.len() > 0
    &&& !f.contains(',')
    &&& !is_white_space(f[0])
    &&& !is_white_space(f.last())
}

/// The size and the hashes split apart at their commas.
proof fn lemma_split_size_and_hashes(size: nat, hashes: Seq<Seq<char>>, k: int)
    requires
        0 <= k <= hashes.len(),
        forall|i: int| 0 <= i < hashes.len() ==> clean_field(#[trigger] hashes[i]),
    ensures
        split_on(dec_str(size) + prefixed_each(hashes.take(k), ","@), ',') == seq![dec_str(size)]
            + hashes.take(k),
    decreases k,
{
    reveal_strlit(",");
    let d = dec_str(size);
    if k == 0 {
        assert(prefixed_each(hashes.take(0), ","@) =~= Seq::<char>::empty());
        assert(d + Seq::<char>::empty() =~= d);
        lemma_dec_str_digits(size);
        assert(!d.contains(',')) by {
            if d.contains(',') {
                let i = choose|i: int| 0 <= i < d.len() && d[i] == ',';
                assert('0' <= d[i] && d[i] <= '9');
            }
        }
        lemma_split_on_none(d, ',');
        assert(seq![d] + hashes.take(0) =~= seq![d]);
    } else {
        lemma_split_size_and_hashes(size, hashes, k - 1);
        let t = hashes.take(k);
        assert(t.drop_last() =~= hashes.take(k - 1));
        assert(t.last() == hashes[k - 1]);
        let front = d + prefixed_each(hashes.take(k - 1), ","@);
        assert(d + prefixed_each(t, ","@) =~= front + seq![','] + hashes[k - 1]);
        lemma_split_on_concat(front, ',', hashes[k - 1]);
        assert(clean_field(hashes[k - 1]));
        lemma_split_on_none(hashes[k - 1], ',');
        assert(seq![d] + hashes.take(k - 1) + seq![hashes[k - 1]] =~= seq![d] + t);
    }
}

/// The entries of the first `k` hashes, all present, named by the header.
proof fn lemma_entries_named_by_header(
    path: Seq<char>,
    hashes: Seq<Seq<char>>,
    algorithms: Seq<Seq<char>>,
    k: nat,
)
    requires
        k <= hashes.len(),
        forall|i: int| 0 <= i < hashes.len() ==> (#[trigger] hashes[i]).len() > 0,
    ensures
        hashdeep_entries_upto(path, hashes, algorithms, true, k) == Seq::new(
            k,
            |i: int| EntryText { path, hash: hashes[i], algorithm: algorithms[i], fast_mode: false },
        ),
    decreases k,
{
    if k > 0 {
        lemma_entries_named_by_header(path, hashes, algorithms, (k - 1) as nat);
        assert(hashes[k - 1].len() > 0);
        assert(Seq::new(
            (k - 1) as nat,
            |i: int| EntryText { path, hash: hashes[i], algorithm: algorithms[i], fast_mode: false },
        ).push(EntryText { path, hash: hashes[k - 1], algorithm: algorithms[k - 1], fast_mode: false })
            =~= Seq::new(
            k,
            |i: int| EntryText { path, hash: hashes[i], algorithm: algorithms[i], fast_mode: false },
        ));
    } else {
        assert(Seq::new(
            0,
            |i: int| EntryText { path, hash: hashes[i], algorithm: algorithms[i], fast_mode: false },
        ) =~= Seq::<EntryText>::empty());
    }
}

/// Reading back a written hashdeep line with the header's algorithms gives
/// one entry per hash, in order, named by the header, for the path with
/// its separators normalized: for hashes and a path that are clean fields
/// and as many algorithms as hashes.
pub proof fn lemma_hashdeep_line_round_trip(
    size: nat,
    hashes: Seq<Seq<char>>,
    algorithms: Seq<Seq<char>>,
    path: Seq<char>,
)
    requires
        hashes.len() >= 1,
        algorithms.len() == hashes.len(),
        forall|i: int| 0 <= i < hashes.len() ==> clean_field(#[trigger] hashes[i]),
        clean_field(path),
    ensures
        hashdeep_line_spec(hashdeep_line(size, hashes, path), algorithms) == Some(
            Seq::new(
                hashes.len(),
                |i: int|
                    EntryText {
                        path: slashes_normalized(path),
                        hash: hashes[i],
                        algorithm: algorithms[i],
                        fast_mode: false,
                    },
            ),
        ),
{
    reveal_strlit(",");
    let n = hashes.len();
    let d = dec_str(size);
    let front = d + prefixed_each(hashes, ","@);
    let line = hashdeep_line(size, hashes, path);
    assert(line =~= front + seq![','] + path);
    lemma_split_size_and_hashes(size, hashes, n as int);
    assert(hashes.take(n as int) =~= hashes);
    lemma_split_on_concat(front, ',', path);
    lemma_split_on_none(path, ',');
    let parts = split_on(line, ',');
    assert(parts =~= seq![d] + hashes + seq![path]);
    assert(parts.last() == path);
    lemma_trim_no_edges(path);
    let hs = parts.subrange(1, parts.len() - 1).map_values(|p: Seq<char>| trim_of(p));
    assert forall|i: int| 0 <= i < n implies hs[i] == hashes[i] by {
        assert(parts[i + 1] == hashes[i]);
        assert(clean_field(hashes[i]));
        lemma_trim_no_edges(hashes[i]);
    }
    assert(hs =~= hashes);
    assert forall|i: int| 0 <= i < hashes.len() implies (#[trigger] hashes[i]).len() > 0 by {
        assert(clean_field(hashes[i]));
    }
    lemma_entries_named_by_header(slashes_normalized(path), hashes, algorithms, n);
}

} // verus!
