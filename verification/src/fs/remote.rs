//! Volumes reached through a helper pod: the listings, disk usage and
//! directory sizes read from the output of `ls -la`, `df -h` and `du -s`
//! run in the pod.
use vstd::prelude::*;
use crate::fs::backend::{parent_and_name, parent_and_name_spec};
use crate::paths::{file_name, parent_dir, path_file_name, path_parent};
use crate::fs::local::{listed_in_order, sort_listing};
use crate::fs::types::FileEntry;
use crate::text::{
    chars_of,
    contains_str,
    has_prefix,
    has_substring,
    joined,
    lines,
    lines_of,
    push_str,
    split_whitespace,
    starts_with,
    str_eq,
    string_of_range,
    to_string,
    trim,
    trim_of,
    whitespace_fields,
};

verus! {

/// An ASCII decimal digit.
pub open spec fn is_digit(c: char) -> bool {
    '0' <= c && c <= '9'
}

/// Every character is a digit.
pub open spec fn all_digits(s: Seq<char>) -> bool {
    forall|i: int| 0 <= i < s.len() ==> is_digit(#[trigger] s[i])
}

/// The number the digits spell.
pub open spec fn digits_value(s: Seq<char>) -> int
    decreases s.len(),
{
    if s.len() == 0 {
        0
    } else {
        digits_value(s.drop_last()) * 10 + ((s.last() as u32) - 48)
    }
}

/// What `str::parse::<u64>` gives for `s`: after an optional plus sign, a
/// nonempty run of digits whose value fits in 64 bits; nothing otherwise.
pub open spec fn parse_u64_spec(s: Seq<char>) -> Option<u64> {
    let d = if s.len() > 0 && s[0] == '+' {
        s.drop_first()
    } else {
        s
    };
    if d.len() == 0 || !all_digits(d) || digits_value(d) > u64::MAX {
        None
    } else {
        Some(digits_value(d) as u64)
    }
}

proof fn lemma_digits_prefix(s: Seq<char>, k: int)
    requires
        0 <= k <= s.len(),
        all_digits(s),
    ensures
        0 <= digits_value(s.take(k)) <= digits_value(s),
    decreases s.len(),
{
    if k == s.len() {
        assert(s.take(k) =~= s);
        if s.len() > 0 {
            lemma_digits_prefix(s.drop_last(), k - 1);
        }
    } else {
        assert(s.drop_last().take(k) =~= s.take(k));
        lemma_digits_prefix(s.drop_last(), k);
    }
}

/// Parse an unsigned decimal number.
pub fn parse_u64(s: &str) -> (r: Option<u64>)
    ensures
        r == parse_u64_spec(s@),
{
    let cs = chars_of(s);
    let start: usize = if cs.len() > 0 && cs[0] == '+' {
        1
    } else {
        0
    };
    let ghost d = if cs@.len() > 0 && cs@[0] == '+' {
        cs@.drop_first()
    } else {
        cs@
    };
    assert(d =~= cs@.skip(start as int));
    if start == cs.len() {
        return None;
    }
    let mut v: u64 = 0;
    let mut i: usize = start;
    assert(d.take(0) =~= Seq::<char>::empty());
    while i < cs.len()
        invariant
            start <= i <= cs@.len(),
            cs@ == s@,
            d == cs@.skip(start as int),
            d == (if s@.len() > 0 && s@[0] == '+' {
                s@.drop_first()
            } else {
                s@
            }),
            all_digits(d.take(i - start)),
            v as int == digits_value(d.take(i - start)),
        decreases cs@.len() - i,
    {
        let c = cs[i];
        assert(d[i - start] == c);
        if !('0' <= c && c <= '9') {
            assert(!is_digit(d[i - start]));
            assert(!all_digits(d));
            return None;
        }
        assert(48 <= c as u32 <= 57);
        let dig = (c as u32 - 48) as u64;
        assert(d.take(i - start + 1).drop_last() =~= d.take(i - start));
        assert(d.take(i - start + 1).last() == c);
        assert(all_digits(d.take(i - start + 1)));
        assert(digits_value(d.take(i - start + 1)) == v * 10 + dig);
        if v > (u64::MAX - dig) / 10 {
            proof {
                assert(digits_value(d.take(i - start + 1)) > u64::MAX) by (nonlinear_arith)
                    requires
                        digits_value(d.take(i - start + 1)) == v * 10 + dig,
                        v > (u64::MAX - dig) / 10,
                        dig <= 9,
                ;
                if all_digits(d) {
                    lemma_digits_prefix(d, i - start + 1);
                    assert(digits_value(d) > u64::MAX);
                }
            }
            return None;
        }
        assert(v * 10 + dig <= u64::MAX) by (nonlinear_arith)
            requires
                v <= (u64::MAX - dig) / 10,
                dig <= 9,
        ;
        v = v * 10 + dig;
        i = i + 1;
    }
    assert(d.take(i - start) =~= d);
    Some(v)
}

/// The texts of a list of strings.
pub open spec fn texts(v: Seq<String>) -> Seq<Seq<char>> {
    v.map_values(|s: String| s@)
}

/// The strings `parts[start..]` joined with single spaces.
fn join_from(parts: &Vec<String>, start: usize) -> (r: String)
    requires
        start < parts@.len(),
    ensures
        r@ == joined(texts(parts@).subrange(start as int, parts@.len() as int), " "@),
{
    let ghost t = texts(parts@);
    let n = parts.len();
    let mut s = parts[start].clone();
    let mut i: usize = start + 1;
    assert(t.subrange(start as int, i as int) =~= seq![parts@[start as int]@]);
    while i < parts.len()
        invariant
            start < i <= parts@.len(),
            t == texts(parts@),
            s@ == joined(t.subrange(start as int, i as int), " "@),
        decreases parts@.len() - i,
    {
        push_str(&mut s, " ");
        push_str(&mut s, parts[i].as_str());
        proof {
            let next = t.subrange(start as int, i + 1);
            assert(next.drop_last() =~= t.subrange(start as int, i as int));
            assert(next.last() == parts@[i as int]@);
        }
        i = i + 1;
    }
    s
}

/// The lines after the first (`ls -la` starts with a total).
pub open spec fn after_first(ls: Seq<Seq<char>>) -> Seq<Seq<char>> {
    if ls.len() == 0 {
        ls
    } else {
        ls.drop_first()
    }
}

/// The name an `ls -la` line gives: its ninth field on, joined by spaces
/// (the eighth field when there are only eight).
pub open spec fn ls_name(fields: Seq<Seq<char>>) -> Seq<char> {
    if fields.len() > 8 {
        joined(fields.subrange(8, fields.len() as int), " "@)
    } else {
        fields[7]
    }
}

/// An `ls -la` line names an entry: it has eight fields or more, and its
/// name is neither `.` nor `..`.
pub open spec fn ls_keeps(fields: Seq<Seq<char>>) -> bool {
    fields.len() >= 8 && ls_name(fields) != "."@ && ls_name(fields) != ".."@
}

/// The entry an `ls -la` line gives: its name, a directory when the mode
/// starts with `d`, the size field as a number (zero when it is not one),
/// the mode as its permissions.
pub open spec fn ls_entry(fields: Seq<Seq<char>>, e: FileEntry) -> bool {
    &&& e.name@ == ls_name(fields)
    &&& e.is_dir == has_prefix(fields[0], "d"@)
    &&& e.size == match parse_u64_spec(fields[4]) {
        Some(n) => n,
        None => 0,
    }
    &&& e.modified is None
    &&& e.permissions matches Some(p) && p@ == fields[0]
}

/// `entries` are the entries the lines give, in order.
pub open spec fn ls_entries_ok(ls: Seq<Seq<char>>, entries: Seq<FileEntry>) -> bool
    decreases ls.len(),
{
    if ls.len() == 0 {
        entries.len() == 0
    } else {
        let f = whitespace_fields(ls.last());
        if ls_keeps(f) {
            entries.len() > 0 && ls_entry(f, entries.last()) && ls_entries_ok(
                ls.drop_last(),
                entries.drop_last(),
            )
        } else {
            ls_entries_ok(ls.drop_last(), entries)
        }
    }
}

/// The listing command failed: its output reports an error or a missing
/// path.
pub open spec fn ls_failed(output: Seq<char>) -> bool {
    has_substring(output, "ERROR:"@) || has_substring(output, "No such file"@)
}

/// The entry of one `ls -la` line, if it names one.
fn ls_line_entry(line: &str) -> (r: Option<FileEntry>)
    ensures
        ({
            let f = whitespace_fields(line@);
            &&& ls_keeps(f) ==> (r matches Some(e) && ls_entry(f, e))
            &&& !ls_keeps(f) ==> r is None
        }),
{
    let parts = split_whitespace(line);
    let ghost f = texts(parts@);
    assert(f == whitespace_fields(line@));
    if parts.len() < 8 {
        return None;
    }
    let name = if parts.len() > 8 {
        join_from(&parts, 8)
    } else {
        parts[7].clone()
    };
    if str_eq(name.as_str(), ".") || str_eq(name.as_str(), "..") {
        return None;
    }
    let mode = parts[0].as_str();
    let size = match parse_u64(parts[4].as_str()) {
        Some(n) => n,
        None => 0,
    };
    Some(
        FileEntry {
            name,
            size,
            is_dir: starts_with(mode, "d"),
            modified: None,
            permissions: Some(to_string(mode)),
        },
    )
}

/// A directory's listing from the output of `ls -la` in the pod: nothing
/// when the command failed; else an entry for each line after the first
/// that names one, directories first, then by name without regard to case.
pub fn parse_ls_output(output: &str) -> (r: Vec<FileEntry>)
    ensures
        ls_failed(output@) ==> r@.len() == 0,
        !ls_failed(output@) ==> exists|entries: Seq<FileEntry>, ord: Seq<usize>|
            ls_entries_ok(after_first(lines_of(output@)), entries) && listed_in_order(
                entries,
                ord,
                r@,
            ),
{
    if contains_str(output, "ERROR:") || contains_str(output, "No such file") {
        return Vec::new();
    }
    let all = lines(output);
    let ghost ls = after_first(lines_of(output@));
    let mut entries: Vec<FileEntry> = Vec::new();
    if all.len() == 0 {
        assert(ls.len() == 0);
        return sort_listing(entries.as_slice());
    }
    let mut i: usize = 1;
    proof {
        assert(texts(all@) == lines_of(output@));
        assert(ls.take(0) =~= Seq::<Seq<char>>::empty());
    }
    while i < all.len()
        invariant
            1 <= i <= all@.len(),
            texts(all@) == lines_of(output@),
            ls == lines_of(output@).drop_first(),
            ls_entries_ok(ls.take(i - 1), entries@),
        decreases all@.len() - i,
    {
        proof {
            assert(ls.take(i as int).drop_last() =~= ls.take(i - 1));
            assert(ls.take(i as int).last() == all@[i as int]@);
        }
        match ls_line_entry(all[i].as_str()) {
            Some(e) => {
                let ghost before = entries@;
                entries.push(e);
                assert(entries@.drop_last() =~= before);
            },
            None => {},
        }
        i = i + 1;
    }
    assert(ls.take(i - 1) =~= ls);
    sort_listing(entries.as_slice())
}

/// `s` without its trailing `c`s.
pub open spec fn trim_end_char(s: Seq<char>, c: char) -> Seq<char>
    decreases s.len(),
{
    if s.len() > 0 && s.last() == c {
        trim_end_char(s.drop_last(), c)
    } else {
        s
    }
}

/// The disk usage line from the last line of `df -h`: size, used and
/// available space and the use percentage; the trimmed output when it has
/// fewer than five fields.
pub open spec fn disk_usage_spec(output: Seq<char>) -> Seq<char> {
    let f = whitespace_fields(output);
    if f.len() >= 5 {
        "Size: "@ + f[1] + " | Used: "@ + f[2] + " | Avail: "@ + f[3] + " | "@ + trim_end_char(
            f[4],
            '%',
        ) + "%"@
    } else {
        trim_of(output)
    }
}

/// The disk usage of a volume as shown, from the output of `df -h`.
pub fn parse_disk_usage(output: &str) -> (r: String)
    ensures
        r@ == disk_usage_spec(output@),
{
    let parts = split_whitespace(output);
    assert(texts(parts@) == whitespace_fields(output@));
    if parts.len() < 5 {
        return to_string(trim(output));
    }
    let pct = chars_of(parts[4].as_str());
    let mut k: usize = pct.len();
    assert(pct@.take(k as int) =~= pct@);
    while k > 0 && pct[k - 1] == '%'
        invariant
            k <= pct@.len(),
            pct@ == parts@[4]@,
            trim_end_char(parts@[4]@, '%') == trim_end_char(pct@.take(k as int), '%'),
        decreases k,
    {
        assert(pct@.take(k as int).drop_last() =~= pct@.take(k - 1));
        k = k - 1;
    }
    let used = string_of_range(&pct, 0, k);
    assert(used@ =~= pct@.take(k as int));
    let mut s = to_string("Size: ");
    push_str(&mut s, parts[1].as_str());
    push_str(&mut s, " | Used: ");
    push_str(&mut s, parts[2].as_str());
    push_str(&mut s, " | Avail: ");
    push_str(&mut s, parts[3].as_str());
    push_str(&mut s, " | ");
    push_str(&mut s, used.as_str());
    push_str(&mut s, "%");
    s
}

/// The size in bytes a `du -s` line gives: its first field in KiB (zero
/// when it is not a number).
pub open spec fn du_size(fields: Seq<Seq<char>>) -> int {
    match parse_u64_spec(fields[0]) {
        Some(n) => n * 1024,
        None => 0,
    }
}

/// Every `du -s` line's size fits in 64 bits.
pub open spec fn du_sizes_fit(ls: Seq<Seq<char>>) -> bool {
    forall|i: int|
        0 <= i < ls.len() && whitespace_fields(#[trigger] ls[i]).len() >= 2 ==> du_size(
            whitespace_fields(ls[i]),
        ) <= u64::MAX
}

/// The entry a `du -s` line gives: the name after the last slash of the
/// path (the rest of the line), the size, and a directory.
pub open spec fn du_entry(fields: Seq<Seq<char>>, e: (String, u64, bool)) -> bool {
    &&& e.0@ == parent_and_name_spec(joined(fields.subrange(1, fields.len() as int), " "@)).1
    &&& e.1 == du_size(fields)
    &&& e.2
}

/// `entries` are the entries the `du -s` lines give, in order.
pub open spec fn du_entries_ok(ls: Seq<Seq<char>>, entries: Seq<(String, u64, bool)>) -> bool
    decreases ls.len(),
{
    if ls.len() == 0 {
        entries.len() == 0
    } else {
        let f = whitespace_fields(ls.last());
        if f.len() >= 2 {
            entries.len() > 0 && du_entry(f, entries.last()) && du_entries_ok(
                ls.drop_last(),
                entries.drop_last(),
            )
        } else {
            du_entries_ok(ls.drop_last(), entries)
        }
    }
}

/// The size of one `du -s` line, whether it fits in 64 bits.
fn du_line_size(fields: &Vec<String>) -> (r: Option<u64>)
    requires
        fields@.len() >= 1,
    ensures
        match r {
            Some(n) => n == du_size(texts(fields@)),
            None => du_size(texts(fields@)) > u64::MAX,
        },
{
    let kib = match parse_u64(fields[0].as_str()) {
        Some(n) => n,
        None => 0,
    };
    assert(texts(fields@)[0] == fields@[0]@);
    if kib > u64::MAX / 1024 {
        None
    } else {
        Some(kib * 1024)
    }
}

/// Whether every size in the output of `du -s` fits in 64 bits.
pub fn du_output_fits(output: &str) -> (r: bool)
    ensures
        r == du_sizes_fit(lines_of(output@)),
{
    let all = lines(output);
    let ghost ls = lines_of(output@);
    let mut i: usize = 0;
    while i < all.len()
        invariant
            i <= all@.len(),
            texts(all@) == ls,
            ls == lines_of(output@),
            forall|j: int|
                0 <= j < i && whitespace_fields(#[trigger] ls[j]).len() >= 2 ==> du_size(
                    whitespace_fields(ls[j]),
                ) <= u64::MAX,
        decreases all@.len() - i,
    {
        let parts = split_whitespace(all[i].as_str());
        assert(ls[i as int] == all@[i as int]@);
        assert(texts(parts@) == whitespace_fields(ls[i as int]));
        if parts.len() >= 2 {
            if du_line_size(&parts).is_none() {
                assert(whitespace_fields(ls[i as int]).len() >= 2 && du_size(
                    whitespace_fields(ls[i as int]),
                ) > u64::MAX);
                return false;
            }
        }
        i = i + 1;
    }
    true
}

/// The sizes of the entries of a directory from the output of `du -s` on
/// each of them: a name, a size in bytes and a directory flag per line of
/// two fields or more.
pub fn parse_directory_sizes(output: &str) -> (r: Vec<(String, u64, bool)>)
    requires
        du_sizes_fit(lines_of(output@)),
    ensures
        du_entries_ok(lines_of(output@), r@),
{
    let all = lines(output);
    let ghost ls = lines_of(output@);
    let mut out: Vec<(String, u64, bool)> = Vec::new();
    let mut i: usize = 0;
    assert(ls.take(0) =~= Seq::<Seq<char>>::empty());
    while i < all.len()
        invariant
            i <= all@.len(),
            texts(all@) == ls,
            du_sizes_fit(ls),
            du_entries_ok(ls.take(i as int), out@),
        decreases all@.len() - i,
    {
        proof {
            assert(ls.take(i + 1).drop_last() =~= ls.take(i as int));
            assert(ls.take(i + 1).last() == all@[i as int]@);
        }
        let parts = split_whitespace(all[i].as_str());
        assert(texts(parts@) == whitespace_fields(ls[i as int]));
        if parts.len() >= 2 {
            let size = match du_line_size(&parts) {
                Some(n) => n,
                None => {
                    assert(false);
                    0
                },
            };
            let full = join_from(&parts, 1);
            let (_dir, name) = parent_and_name(full.as_str());
            let ghost before = out@;
            out.push((name, size, true));
            assert(out@.drop_last() =~= before);
        }
        i = i + 1;
    }
    assert(ls.take(i as int) =~= ls);
    out
}

/// The texts of a command's words.
pub open spec fn words(v: Seq<String>) -> Seq<Seq<char>> {
    v.map_values(|s: String| s@)
}

/// A command of three words.
fn command3(a: &str, b: &str, c: String) -> (r: Vec<String>)
    ensures
        words(r@) == seq![a@, b@, c@],
{
    let mut v: Vec<String> = Vec::new();
    v.push(to_string(a));
    v.push(to_string(b));
    v.push(c);
    assert(words(v@) =~= seq![a@, b@, c@]);
    v
}

/// The shell command that lists `path` in the pod, reporting a failure
/// in its output.
pub fn ls_command(path: &str) -> (r: Vec<String>)
    ensures
        words(r@) == seq![
            "sh"@,
            "-c"@,
            "ls -la "@ + path@ + " 2>&1 || echo 'ERROR: Failed to list directory'"@,
        ],
{
    let mut script = to_string("ls -la ");
    push_str(&mut script, path);
    push_str(&mut script, " 2>&1 || echo 'ERROR: Failed to list directory'");
    command3("sh", "-c", script)
}

/// The shell command that reports the disk usage of the volume.
pub fn df_command() -> (r: Vec<String>)
    ensures
        words(r@) == seq!["sh"@, "-c"@, "df -h /data 2>/dev/null | tail -1"@],
{
    command3("sh", "-c", to_string("df -h /data 2>/dev/null | tail -1"))
}

/// The shell command that sums the sizes of the entries of `path`,
/// largest first.
pub fn du_command(path: &str) -> (r: Vec<String>)
    ensures
        words(r@) == seq!["sh"@, "-c"@, "du -s "@ + path@ + "/* 2>/dev/null | sort -rn"@],
{
    let mut script = to_string("du -s ");
    push_str(&mut script, path);
    push_str(&mut script, "/* 2>/dev/null | sort -rn");
    command3("sh", "-c", script)
}

/// The command that deletes `path` in the pod.
pub fn delete_command(path: &str) -> (r: Vec<String>)
    ensures
        words(r@) == seq!["rm"@, "-rf"@, path@],
{
    command3("rm", "-rf", to_string(path))
}

/// The command that creates the directory `path` in the pod.
pub fn mkdir_command(path: &str) -> (r: Vec<String>)
    ensures
        words(r@) == seq!["mkdir"@, "-p"@, path@],
{
    command3("mkdir", "-p", to_string(path))
}

/// The directory an upload to `remote_path` unpacks into: the path's
/// parent under `/data/`, `/data` otherwise.
pub open spec fn upload_dir_spec(remote_path: Seq<char>) -> Seq<char> {
    if has_prefix(remote_path, "/data/"@) {
        match path_parent(remote_path) {
            Some(p) => p,
            None => "/data"@,
        }
    } else {
        "/data"@
    }
}

/// The shell command that unpacks an uploaded archive, read from standard
/// input, for `remote_path`.
pub fn upload_command(remote_path: &str) -> (r: Vec<String>)
    ensures
        words(r@) == seq![
            "sh"@,
            "-c"@,
            "cat > /tmp/upload.tar && tar -xf /tmp/upload.tar -C "@ + upload_dir_spec(remote_path@)
                + " && rm /tmp/upload.tar"@,
        ],
{
    let dir = if starts_with(remote_path, "/data/") {
        match parent_dir(remote_path) {
            Some(p) => p,
            None => to_string("/data"),
        }
    } else {
        to_string("/data")
    };
    let mut script = to_string("cat > /tmp/upload.tar && tar -xf /tmp/upload.tar -C ");
    push_str(&mut script, dir.as_str());
    push_str(&mut script, " && rm /tmp/upload.tar");
    command3("sh", "-c", script)
}

/// The command that packs `remote_path` to standard output: `tar` run in
/// its parent (`/data` when it has none) on its name (`.` when it has
/// none).
pub fn download_command(remote_path: &str) -> (r: Vec<String>)
    ensures
        words(r@) == seq![
            "tar"@,
            "-cf"@,
            "-"@,
            "-C"@,
            match path_parent(remote_path@) {
                Some(p) => p,
                None => "/data"@,
            },
            match path_file_name(remote_path@) {
                Some(n) => n,
                None => "."@,
            },
        ],
{
    let dir = match parent_dir(remote_path) {
        Some(p) => p,
        None => to_string("/data"),
    };
    let name = match file_name(remote_path) {
        Some(n) => n,
        None => to_string("."),
    };
    let mut v: Vec<String> = Vec::new();
    v.push(to_string("tar"));
    v.push(to_string("-cf"));
    v.push(to_string("-"));
    v.push(to_string("-C"));
    v.push(dir);
    v.push(name);
    assert(words(v@) =~= seq![
        "tar"@,
        "-cf"@,
        "-"@,
        "-C"@,
        match path_parent(remote_path@) {
            Some(p) => p,
            None => "/data"@,
        },
        match path_file_name(remote_path@) {
            Some(n) => n,
            None => "."@,
        },
    ]);
    v
}

/// The remote directory an upload to `remote_path` first creates: the
/// path's parent, unless it is empty or the root.
pub fn upload_parent(remote_path: &str) -> (r: Option<String>)
    ensures
        match path_parent(remote_path@) {
            Some(p) => if p.len() != 0 && p != "/"@ {
                r matches Some(s) && s@ == p
            } else {
                r is None
            },
            None => r is None,
        },
{
    match parent_dir(remote_path) {
        Some(p) => {
            if !p.as_str().is_empty() && !str_eq(p.as_str(), "/") {
                Some(p)
            } else {
                None
            }
        },
        None => None,
    }
}

} // verus!
