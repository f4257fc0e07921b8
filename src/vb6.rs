//! Visual Basic 6 projects: the version lines of `.vbp` project files, and
//! the project references of `.vbg` group files.

use crate::files::ContentProcessor;
use crate::sem_ver::SemVer;
use crate::text::{
    ascii_upper, chars_of, decimal, eq_ignore_ascii_case, extend_chars, joined_crlf_lines, lines,
    lines_of, push_decimal, range_eq_ignore_ascii_case, slice_chars, split_chars, split_on,
    string_of, to_ascii_upper, trim, trim_bounds,
};
use std::path::PathBuf;
use vstd::prelude::*;

verus! {

// ---------------------------------------------------------------------------
// Project files
// ---------------------------------------------------------------------------

/// The position of the first `c` in `s`, or `s.len()` if there is none.
pub open spec fn index_of(s: Seq<char>, c: char) -> nat
    decreases s.len(),
{
    if s.len() == 0 {
        0
    } else if s[0] == c {
        0
    } else {
        1 + index_of(s.drop_first(), c)
    }
}

proof fn lemma_index_of(s: Seq<char>, c: char, k: int)
    requires
        0 <= k <= s.len(),
        forall|j: int| 0 <= j < k ==> s[j] != c,
        k < s.len() ==> s[k] == c,
    ensures
        index_of(s, c) == k,
    decreases s.len(),
{
    if s.len() > 0 && s[0] != c {
        lemma_index_of(s.drop_first(), c, k - 1);
    }
}

/// The first position of `c` in `s`, or `s.len()`.
fn find_char(s: &Vec<char>, c: char) -> (r: usize)
    ensures
        r == index_of(s@, c),
{
    let mut i: usize = 0;
    while i < s.len() && s[i] != c
        invariant
            i <= s.len(),
            forall|j: int| 0 <= j < i ==> s@[j] != c,
        decreases s.len() - i,
    {
        i = i + 1;
    }
    proof {
        lemma_index_of(s@, c, i as int);
    }
    i
}

/// A line of a project file as it is written back: a `MajorVer`,
/// `MinorVer` or `RevisionVer` property (in any ASCII case) gets the
/// matching component of `v`; any other line stays.
pub open spec fn vbp_line(line: Seq<char>, v: SemVer) -> Seq<char> {
    let p = index_of(line, '=');
    let property = line.subrange(0, p as int);
    if p < line.len() && p > 0 {
        if eq_ignore_ascii_case(property, "MajorVer"@) {
            property + seq!['='] + decimal(v.major as nat)
        } else if eq_ignore_ascii_case(property, "MinorVer"@) {
            property + seq!['='] + decimal(v.minor as nat)
        } else if eq_ignore_ascii_case(property, "RevisionVer"@) {
            property + seq!['='] + decimal(v.patch as nat)
        } else {
            line
        }
    } else {
        line
    }
}

/// A project file with its version set to `v`; every line ends with
/// `"\r\n"`.
pub open spec fn vbp_output(text: Seq<char>, v: SemVer) -> Seq<char> {
    joined_crlf_lines(Seq::new(lines_of(text).len(), |i: int| vbp_line(lines_of(text)[i], v)))
}

fn map_line(line: &Vec<char>, version: SemVer) -> (r: Vec<char>)
    ensures
        r@ == vbp_line(line@, version),
{
    let p = find_char(line, '=');
    if p < line.len() && p > 0 {
        let major = chars_of("MajorVer");
        let minor = chars_of("MinorVer");
        let revision = chars_of("RevisionVer");
        let value: u16;
        if range_eq_ignore_ascii_case(line, 0, p, &major) {
            value = version.major;
        } else if range_eq_ignore_ascii_case(line, 0, p, &minor) {
            value = version.minor;
        } else if range_eq_ignore_ascii_case(line, 0, p, &revision) {
            value = version.patch;
        } else {
            return slice_chars(line, 0, line.len());
        }
        let mut r = slice_chars(line, 0, p);
        r.push('=');
        push_decimal(&mut r, value as u64);
        assert(r@ =~= vbp_line(line@, version));
        r
    } else {
        let r = slice_chars(line, 0, line.len());
        assert(r@ =~= line@);
        r
    }
}

/// Sets the version lines of a project file (see `vbp_output`).
pub fn set_vbp_version(contents: &str, version: SemVer) -> (r: String)
    ensures
        r@ == vbp_output(contents@, version),
{
    let text = chars_of(contents);
    let ls = lines(&text);
    let ghost sl = lines_of(contents@);
    let ghost outs = Seq::new(sl.len(), |i: int| vbp_line(sl[i], version));
    let mut result: Vec<char> = Vec::new();
    let mut i: usize = 0;
    while i < ls.len()
        invariant
            sl == lines_of(contents@),
            outs == Seq::new(sl.len(), |i: int| vbp_line(sl[i], version)),
            ls@.len() == sl.len(),
            forall|j: int| 0 <= j < ls@.len() ==> #[trigger] ls@[j]@ == sl[j],
            i <= ls.len(),
            result@ == joined_crlf_lines(outs.subrange(0, i as int)),
        decreases ls.len() - i,
    {
        let out = map_line(&ls[i], version);
        extend_chars(&mut result, &out);
        result.push('\r');
        result.push('\n');
        proof {
            assert(outs.subrange(0, i + 1).drop_last() =~= outs.subrange(0, i as int));
        }
        i = i + 1;
    }
    assert(outs.subrange(0, i as int) =~= outs);
    string_of(&result)
}

/// Sets the version lines of `.vbp` project files.
pub struct VB6Updater {}

impl ContentProcessor for VB6Updater {
    type Err = std::io::Error;

    open spec fn output(&self, old: Seq<char>, v: SemVer) -> Option<Seq<char>> {
        Some(vbp_output(old, v))
    }

    fn process(&self, old_contents: &str, version: SemVer) -> Result<String, std::io::Error> {
        Ok(set_vbp_version(old_contents, version))
    }
}

// ---------------------------------------------------------------------------
// Group files
// ---------------------------------------------------------------------------

/// `s` starts with `prefix` when both are read in ASCII upper case.
pub open spec fn starts_with_upper(s: Seq<char>, prefix: Seq<char>) -> bool {
    prefix.len() <= s.len() && forall|i: int|
        0 <= i < prefix.len() ==> ascii_upper(s[i]) == #[trigger] prefix[i]
}

/// A line of a group file that references a project: it starts with
/// `Project=` or `StartupProject=`, in any ASCII case.
pub open spec fn project_line(s: Seq<char>) -> bool {
    starts_with_upper(s, "PROJECT="@) || starts_with_upper(s, "STARTUPPROJECT="@)
}

fn starts_with_upper_chars(s: &Vec<char>, from: usize, to: usize, prefix: &Vec<char>) -> (r: bool)
    requires
        from <= to <= s.len(),
    ensures
        r == starts_with_upper(s@.subrange(from as int, to as int), prefix@),
{
    if prefix.len() > to - from {
        return false;
    }
    let mut i: usize = 0;
    while i < prefix.len()
        invariant
            from <= to <= s.len(),
            prefix.len() <= to - from,
            i <= prefix.len(),
            forall|j: int| 0 <= j < i ==> ascii_upper(s@[from + j]) == #[trigger] prefix@[j],
        decreases prefix.len() - i,
    {
        if to_ascii_upper(s[from + i]) != prefix[i] {
            return false;
        }
        i = i + 1;
    }
    true
}

/// Whether `s` references a project (see `project_line`).
pub fn is_project_line(s: &str) -> (r: bool)
    ensures
        r == project_line(s@),
{
    let c = chars_of(s);
    let a = chars_of("PROJECT=");
    let b = chars_of("STARTUPPROJECT=");
    assert(c@.subrange(0, c@.len() as int) =~= c@);
    starts_with_upper_chars(&c, 0, c.len(), &a) || starts_with_upper_chars(&c, 0, c.len(), &b)
}

/// The text after the first `'='` of `s`.
pub open spec fn after_first_eq(s: Seq<char>) -> Seq<char> {
    s.subrange(index_of(s, '=') as int + 1, s.len() as int)
}

/// The text after the first `'='` of `s`, which holds one.
pub fn extract_project(s: &str) -> (r: &str)
    requires
        index_of(s@, '=') < s@.len(),
    ensures
        r@ == after_first_eq(s@),
{
    let c = chars_of(s);
    let p = find_char(&c, '=');
    let n = c.len();
    assert(p < n);
    s.substring_char(p + 1, n)
}

/// `s` with every `'\\'` turned into `'/'`.
pub open spec fn forward_slashes(s: Seq<char>) -> Seq<char> {
    s.map_values(|c: char| if c == '\\' { '/' } else { c })
}

/// The project paths that the lines of a group file reference, in order:
/// for each project line (trimmed), the text after its first `'='`, with
/// forward slashes.
pub open spec fn project_references(ls: Seq<Seq<char>>) -> Seq<Seq<char>>
    decreases ls.len(),
{
    if ls.len() == 0 {
        Seq::empty()
    } else {
        let earlier = project_references(ls.drop_last());
        if project_line(trim(ls.last())) {
            earlier.push(forward_slashes(after_first_eq(trim(ls.last()))))
        } else {
            earlier
        }
    }
}

/// The segments of each project path that a group file references (see
/// `project_references`), split at `'/'`.
pub open spec fn project_segments(text: Seq<char>) -> Seq<Seq<Seq<char>>> {
    project_references(lines_of(text)).map_values(|p: Seq<char>| split_on(p, '/'))
}

/// A project line's path, with forward slashes.
fn reference_of(line: &Vec<char>, from: usize, to: usize) -> (r: Vec<char>)
    requires
        from <= to <= line.len(),
        project_line(line@.subrange(from as int, to as int)),
    ensures
        r@ == forward_slashes(after_first_eq(line@.subrange(from as int, to as int))),
{
    let t = slice_chars(line, from, to);
    let p = find_char(&t, '=');
    proof {
        let s = t@;
        reveal_strlit("PROJECT=");
        reveal_strlit("STARTUPPROJECT=");
        let q: int = if starts_with_upper(s, "PROJECT="@) {
            assert("PROJECT="@[7] == '=');
            7
        } else {
            assert("STARTUPPROJECT="@[14] == '=');
            14
        };
        assert(ascii_upper(s[q]) == '=');
        if 'a' <= s[q] && s[q] <= 'z' {
            assert(false);
        }
        assert(s[q] == '=');
        if index_of(s, '=') >= s.len() {
            lemma_index_of_absent(s, '=', q);
        }
    }
    let n = t.len();
    assert(p < n);
    let mut r: Vec<char> = Vec::new();
    let mut i: usize = p + 1;
    while i < t.len()
        invariant
            p < t.len(),
            p + 1 <= i <= t.len(),
            r@ == forward_slashes(t@.subrange(p + 1, i as int)),
        decreases t.len() - i,
    {
        let c = t[i];
        r.push(if c == '\\' { '/' } else { c });
        i = i + 1;
        assert(r@ =~= forward_slashes(t@.subrange(p + 1, i as int)));
    }
    r
}

proof fn lemma_index_of_absent(s: Seq<char>, c: char, j: int)
    requires
        index_of(s, c) >= s.len(),
        0 <= j < s.len(),
    ensures
        s[j] != c,
    decreases s.len(),
{
    if j > 0 {
        lemma_index_of_absent(s.drop_first(), c, j - 1);
    }
}

/// The segments of the project paths that a group file references (see
/// `project_segments`).
pub fn project_reference_segments(contents: &str) -> (r: Vec<Vec<String>>)
    ensures
        r@.len() == project_segments(contents@).len(),
        forall|i: int| #![trigger r@[i]]
            0 <= i < r@.len() ==> r@[i]@.len() == project_segments(contents@)[i].len() && forall|
                j: int,
            |
                0 <= j < r@[i]@.len() ==> #[trigger] r@[i]@[j]@ == project_segments(
                    contents@,
                )[i][j],
{
    let text = chars_of(contents);
    let ls = lines(&text);
    let ghost sl = lines_of(contents@);
    let a = chars_of("PROJECT=");
    let b = chars_of("STARTUPPROJECT=");
    let mut r: Vec<Vec<String>> = Vec::new();
    let mut i: usize = 0;
    while i < ls.len()
        invariant
            sl == lines_of(contents@),
            ls@.len() == sl.len(),
            forall|j: int| 0 <= j < ls@.len() ==> #[trigger] ls@[j]@ == sl[j],
            a@ == "PROJECT="@,
            b@ == "STARTUPPROJECT="@,
            i <= ls.len(),
            r@.len() == project_references(sl.subrange(0, i as int)).len(),
            forall|k: int| #![trigger r@[k]]
                0 <= k < r@.len() ==> r@[k]@.len() == split_on(
                    project_references(sl.subrange(0, i as int))[k],
                    '/',
                ).len() && forall|j: int|
                    0 <= j < r@[k]@.len() ==> #[trigger] r@[k]@[j]@ == split_on(
                        project_references(sl.subrange(0, i as int))[k],
                        '/',
                    )[j],
        decreases ls.len() - i,
    {
        let line = &ls[i];
        let (from, to) = trim_bounds(line);
        proof {
            assert(sl.subrange(0, i + 1).drop_last() =~= sl.subrange(0, i as int));
        }
        if starts_with_upper_chars(line, from, to, &a) || starts_with_upper_chars(
            line,
            from,
            to,
            &b,
        ) {
            let reference = reference_of(line, from, to);
            let pieces = split_chars(&reference, '/');
            let mut segments: Vec<String> = Vec::new();
            let mut j: usize = 0;
            while j < pieces.len()
                invariant
                    j <= pieces@.len(),
                    segments@.len() == j,
                    forall|m: int| 0 <= m < j ==> #[trigger] segments@[m]@ == pieces@[m]@,
                decreases pieces.len() - j,
            {
                segments.push(string_of(&pieces[j]));
                j = j + 1;
            }
            r.push(segments);
        }
        i = i + 1;
    }
    assert(sl.subrange(0, i as int) =~= sl);
    r
}

/// Relies on `Path::parent`: the directory that holds `path`, if it has one.
#[verifier::external_body]
fn parent_dir(path: &PathBuf) -> Option<PathBuf> {
    path.parent().map(|p| p.to_path_buf())
}

/// Relies on `PathBuf::new`: an empty path.
#[verifier::external_body]
fn empty_path() -> PathBuf {
    PathBuf::new()
}

/// Relies on `Path::join`: `base` followed by the relative segment `segment`.
#[verifier::external_body]
fn join_path(base: &PathBuf, segment: &String) -> PathBuf {
    base.join(segment)
}

/// The project files that a group file at `path` references, each resolved
/// against the group file's directory by joining its segments (see
/// `project_reference_segments`) in order. A path without a parent directory
/// resolves against the empty path.
pub fn process_vbg_file_contents(path: PathBuf, contents: &str) -> (r: Vec<PathBuf>)
    ensures
        r@.len() == project_segments(contents@).len(),
{
    let references = project_reference_segments(contents);
    let base = match parent_dir(&path) {
        Some(p) => p,
        None => empty_path(),
    };
    let mut r: Vec<PathBuf> = Vec::new();
    let mut i: usize = 0;
    while i < references.len()
        invariant
            i <= references@.len(),
            r@.len() == i,
        decreases references.len() - i,
    {
        let segments = &references[i];
        let mut p = empty_path();
        let mut j: usize = 0;
        while j < segments.len()
            invariant
                j <= segments@.len(),
            decreases segments.len() - j,
        {
            p = if j == 0 {
                join_path(&base, &segments[j])
            } else {
                join_path(&p, &segments[j])
            };
            j = j + 1;
        }
        r.push(p);
        i = i + 1;
    }
    r
}

} // verus!
