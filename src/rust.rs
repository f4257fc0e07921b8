//! Cargo manifests: the version in the `[package]` section of `Cargo.toml`
//! and the matching `[[package]]` record of `Cargo.lock`.

use crate::files::{keep_if_changed, ContentProcessor, UpdateError};
use crate::sem_ver::{version_text, SemVer};
use crate::text::{
    chars_equal, chars_of, extend_chars, joined_lines, lines, lines_of, lines_with_starts, skip_whitespace,
    slice_chars, starts_with, starts_with_at, string_of, trim_start,
};
use vstd::prelude::*;

verus! {

// ---------------------------------------------------------------------------
// Key/value lines
// ---------------------------------------------------------------------------

/// `line` assigns `key`: it starts with `key`, and what follows, without
/// leading whitespace, starts with `'='`.
pub open spec fn toml_key_line(line: Seq<char>, key: Seq<char>) -> bool {
    &&& line.len() > 0
    &&& key.len() > 0
    &&& starts_with(line, key)
    &&& trim_start(line.subrange(key.len() as int, line.len() as int)).len() > 0
    &&& trim_start(line.subrange(key.len() as int, line.len() as int))[0] == '='
}

/// The value that `line` assigns to `key`: what follows the `'='`, without
/// leading whitespace. Quotes are kept.
pub open spec fn toml_key_value(line: Seq<char>, key: Seq<char>) -> Option<Seq<char>> {
    if toml_key_line(line, key) {
        Some(trim_start(trim_start(line.subrange(key.len() as int, line.len() as int)).drop_first()))
    } else {
        None
    }
}

/// The position of the `'='` of a line that assigns `key`.
fn key_line_equals_at(line: &Vec<char>, key: &Vec<char>) -> (r: Option<usize>)
    ensures
        r is Some <==> toml_key_line(line@, key@),
        r matches Some(p) ==> key@.len() <= p < line@.len() && line@.subrange(
            p as int,
            line@.len() as int,
        ) == trim_start(line@.subrange(key@.len() as int, line@.len() as int)),
{
    if line.len() == 0 || key.len() == 0 {
        return None;
    }
    if !starts_with_at(line, 0, key) {
        assert(line@.subrange(0, line@.len() as int) =~= line@);
        return None;
    }
    assert(line@.subrange(0, line@.len() as int) =~= line@);
    let p = skip_whitespace(line, key.len());
    if p < line.len() && line[p] == '=' {
        Some(p)
    } else {
        None
    }
}

/// Whether `line` assigns `key` (see `toml_key_line`).
pub fn is_toml_key(line: &str, key: &str) -> (r: bool)
    ensures
        r == toml_key_line(line@, key@),
{
    let l = chars_of(line);
    let k = chars_of(key);
    key_line_equals_at(&l, &k).is_some()
}

fn key_value_chars(line: &Vec<char>, key: &Vec<char>) -> (r: Option<Vec<char>>)
    ensures
        r is Some <==> toml_key_value(line@, key@) is Some,
        r matches Some(v) ==> toml_key_value(line@, key@) == Some(v@),
{
    match value_start(line, key) {
        None => None,
        Some(q) => Some(slice_chars(line, q, line.len())),
    }
}

/// The value that `line` assigns to `key` (see `toml_key_value`).
pub fn get_toml_key_value<'a>(line: &'a str, key: &str) -> (r: Option<&'a str>)
    ensures
        r is Some <==> toml_key_value(line@, key@) is Some,
        r matches Some(v) ==> toml_key_value(line@, key@) == Some(v@),
{
    let l = chars_of(line);
    let k = chars_of(key);
    match value_start(&l, &k) {
        None => None,
        Some(q) => Some(line.substring_char(q, l.len())),
    }
}

/// Where the value that `line` assigns to `key` starts.
fn value_start(line: &Vec<char>, key: &Vec<char>) -> (r: Option<usize>)
    ensures
        r is Some <==> toml_key_value(line@, key@) is Some,
        r matches Some(q) ==> q <= line@.len() && toml_key_value(line@, key@) == Some(
            line@.subrange(q as int, line@.len() as int),
        ),
{
    match key_line_equals_at(line, key) {
        None => None,
        Some(p) => {
            let n = line.len();
            assert(p < n);
            let q = skip_whitespace(line, p + 1);
            proof {
                let rest = line@.subrange(p as int, line@.len() as int);
                assert(rest.drop_first() =~= line@.subrange(p + 1, line@.len() as int));
            }
            Some(q)
        },
    }
}

/// The line that sets the version: `version = "M.N.P"`.
pub open spec fn version_line(v: SemVer) -> Seq<char> {
    "version = \""@ + version_text(v) + "\""@
}

fn version_line_chars(v: SemVer) -> (r: Vec<char>)
    ensures
        r@ == version_line(v),
{
    let mut r = chars_of("version = \"");
    v.push_text(&mut r);
    let q = chars_of("\"");
    extend_chars(&mut r, &q);
    r
}

/// `line` opens a section: it starts with `'['`.
pub open spec fn opens_section(line: Seq<char>) -> bool {
    line.len() > 0 && line[0] == '['
}

// ---------------------------------------------------------------------------
// Cargo.toml
// ---------------------------------------------------------------------------

/// Where a scan of `Cargo.toml` stands.
#[derive(Clone, Copy, Debug, PartialEq, Eq, Structural)]
pub enum CargoTomlState {
    /// Before the `[package]` line.
    Initial,
    /// Inside the `[package]` section.
    InPackageSection,
    /// Past the `[package]` section.
    Stop,
}

/// The state after reading `line` in state `s`.
pub open spec fn toml_step(s: CargoTomlState, line: Seq<char>) -> CargoTomlState {
    match s {
        CargoTomlState::Initial => if line == "[package]"@ {
            CargoTomlState::InPackageSection
        } else {
            CargoTomlState::Initial
        },
        CargoTomlState::InPackageSection => if opens_section(line) {
            CargoTomlState::Stop
        } else {
            CargoTomlState::InPackageSection
        },
        CargoTomlState::Stop => CargoTomlState::Stop,
    }
}

/// The state before line `i` of `lines`.
pub open spec fn toml_state_before(lines: Seq<Seq<char>>, i: int) -> CargoTomlState
    decreases i,
{
    if i <= 0 {
        CargoTomlState::Initial
    } else {
        toml_step(toml_state_before(lines, i - 1), lines[i - 1])
    }
}

/// Line `line`, read in state `s`, as it is written back.
pub open spec fn toml_out_line(s: CargoTomlState, line: Seq<char>, v: SemVer) -> Seq<char> {
    if s == CargoTomlState::InPackageSection && !opens_section(line) && toml_key_line(
        line,
        "version"@,
    ) {
        version_line(v)
    } else {
        line
    }
}

/// The lines of `text` as `Cargo.toml` processing writes them back.
pub open spec fn cargo_toml_lines(text: Seq<char>, v: SemVer) -> Seq<Seq<char>> {
    let ls = lines_of(text);
    Seq::new(ls.len(), |i: int| toml_out_line(toml_state_before(ls, i), ls[i], v))
}

/// `Cargo.toml` with the version of its `[package]` section set to `v`.
pub open spec fn cargo_toml_output(text: Seq<char>, v: SemVer) -> Seq<char> {
    joined_lines(cargo_toml_lines(text, v))
}

/// Sets the version of the `[package]` section; every line is written back
/// followed by `'\n'`.
pub fn process_cargo_toml(old_contents: &str, new_version: SemVer) -> (r: String)
    ensures
        r@ == cargo_toml_output(old_contents@, new_version),
{
    let text = chars_of(old_contents);
    let ls = lines(&text);
    let ghost sl = lines_of(old_contents@);
    let ghost outs = cargo_toml_lines(old_contents@, new_version);
    let package = chars_of("[package]");
    let version = chars_of("version");
    let new_line = version_line_chars(new_version);
    let mut result: Vec<char> = Vec::new();
    let mut state = CargoTomlState::Initial;
    let mut i: usize = 0;
    while i < ls.len()
        invariant
            sl == lines_of(old_contents@),
            outs == cargo_toml_lines(old_contents@, new_version),
            ls@.len() == sl.len(),
            forall|j: int| 0 <= j < ls@.len() ==> #[trigger] ls@[j]@ == sl[j],
            package@ == "[package]"@,
            version@ == "version"@,
            new_line@ == version_line(new_version),
            i <= ls.len(),
            state == toml_state_before(sl, i as int),
            result@ == joined_lines(outs.subrange(0, i as int)),
        decreases ls.len() - i,
    {
        let line = &ls[i];
        let mut replace = false;
        match state {
            CargoTomlState::Initial => {
                if chars_equal(line, &package) {
                    state = CargoTomlState::InPackageSection;
                }
            },
            CargoTomlState::InPackageSection => {
                if line.len() > 0 && line[0] == '[' {
                    state = CargoTomlState::Stop;
                } else if key_line_equals_at(line, &version).is_some() {
                    replace = true;
                }
            },
            CargoTomlState::Stop => {},
        }
        if replace {
            extend_chars(&mut result, &new_line);
        } else {
            extend_chars(&mut result, line);
        }
        result.push('\n');
        proof {
            assert(outs.subrange(0, i + 1).drop_last() =~= outs.subrange(0, i as int));
        }
        i = i + 1;
    }
    assert(outs.subrange(0, i as int) =~= outs);
    string_of(&result)
}

/// `Cargo.toml` processing changes no line outside the `[package]`
/// section, and writes back as many lines as it reads.
pub proof fn lemma_toml_changes_only_package_section(text: Seq<char>, v: SemVer)
    ensures
        cargo_toml_lines(text, v).len() == lines_of(text).len(),
        forall|i: int|
            0 <= i < lines_of(text).len() && #[trigger] cargo_toml_lines(text, v)[i]
                != lines_of(text)[i] ==> toml_state_before(lines_of(text), i)
                == CargoTomlState::InPackageSection,
{
}

/// The package name of `Cargo.toml`: the value of the first `name` line of
/// its `[package]` section, before any other section opens.
pub open spec fn package_name_in(ls: Seq<Seq<char>>, n: int) -> Option<Seq<char>>
    decreases n,
{
    if n <= 0 {
        None
    } else {
        match package_name_in(ls, n - 1) {
            Some(x) => Some(x),
            None => if toml_state_before(ls, n - 1) == CargoTomlState::InPackageSection
                && !opens_section(ls[n - 1]) {
                toml_key_value(ls[n - 1], "name"@)
            } else {
                None
            },
        }
    }
}

/// The package name that `text` declares, if any.
pub open spec fn package_name(text: Seq<char>) -> Option<Seq<char>> {
    package_name_in(lines_of(text), lines_of(text).len() as int)
}

proof fn lemma_package_name_stays(ls: Seq<Seq<char>>, k: int, n: int)
    requires
        0 <= k <= n,
        package_name_in(ls, k) is Some,
    ensures
        package_name_in(ls, n) == package_name_in(ls, k),
    decreases n - k,
{
    if k < n {
        lemma_package_name_stays(ls, k, n - 1);
    }
}

proof fn lemma_no_package_name_past_section(ls: Seq<Seq<char>>, k: int, n: int)
    requires
        0 <= k <= n <= ls.len(),
        package_name_in(ls, k) is None,
        toml_state_before(ls, k) == CargoTomlState::Stop,
    ensures
        package_name_in(ls, n) is None,
        toml_state_before(ls, n) == CargoTomlState::Stop,
    decreases n - k,
{
    if k < n {
        lemma_no_package_name_past_section(ls, k, n - 1);
    }
}

/// The package name of a `Cargo.toml` text (see `package_name`), quotes kept.
pub fn get_package_name_from_cargo_toml(contents: &str) -> (r: Option<&str>)
    ensures
        r is Some <==> package_name(contents@) is Some,
        r matches Some(x) ==> package_name(contents@) == Some(x@),
{
    let text = chars_of(contents);
    let (ls, starts) = lines_with_starts(&text);
    let ghost sl = lines_of(contents@);
    let package = chars_of("[package]");
    let name = chars_of("name");
    let mut state = CargoTomlState::Initial;
    let mut i: usize = 0;
    while i < ls.len()
        invariant
            sl == lines_of(contents@),
            text@ == contents@,
            ls@.len() == sl.len(),
            starts@.len() == ls@.len(),
            forall|j: int| 0 <= j < ls@.len() ==> #[trigger] ls@[j]@ == sl[j],
            forall|j: int|
                0 <= j < ls@.len() ==> starts@[j] + ls@[j]@.len() <= text@.len() && text@.subrange(
                    #[trigger] starts@[j] as int,
                    starts@[j] + ls@[j]@.len(),
                ) == ls@[j]@,
            package@ == "[package]"@,
            name@ == "name"@,
            i <= ls.len(),
            state == toml_state_before(sl, i as int),
            package_name_in(sl, i as int) is None,
        decreases ls.len() - i,
    {
        let line = &ls[i];
        match state {
            CargoTomlState::Initial => {
                if chars_equal(line, &package) {
                    state = CargoTomlState::InPackageSection;
                }
            },
            CargoTomlState::InPackageSection => {
                if line.len() > 0 && line[0] == '[' {
                    state = CargoTomlState::Stop;
                } else {
                    match value_start(line, &name) {
                        Some(q) => {
                            let st = starts[i];
                            let tn = text.len();
                            assert(st + line@.len() <= tn);
                            let end = st + line.len();
                            proof {
                                lemma_package_name_stays(sl, i + 1, sl.len() as int);
                                assert(text@.subrange(st + q, end as int) =~= text@.subrange(
                                    st as int,
                                    end as int,
                                ).subrange(q as int, line@.len() as int));
                            }
                            return Some(contents.substring_char(st + q, end));
                        },
                        None => {},
                    }
                }
            },
            CargoTomlState::Stop => {
                proof {
                    lemma_no_package_name_past_section(sl, i as int, sl.len() as int);
                }
                return None;
            },
        }
        i = i + 1;
    }
    None
}

// ---------------------------------------------------------------------------
// Cargo.lock
// ---------------------------------------------------------------------------

/// Where a scan of `Cargo.lock` stands.
#[derive(Clone, Copy, Debug, PartialEq, Eq, Structural)]
pub enum CargoLockState {
    /// Before the first `[[package]]` line.
    Initial,
    /// Past a `[[package]]` line, looking for the package's name.
    InPackageSection,
    /// Past the package's name, looking for its version.
    InName,
    /// Past the version line that was rewritten.
    Stop,
}

/// The state after reading `line` in state `s`, looking for package `name`.
pub open spec fn lock_step(s: CargoLockState, line: Seq<char>, name: Seq<char>) -> CargoLockState {
    match s {
        CargoLockState::Initial => if line == "[[package]]"@ {
            CargoLockState::InPackageSection
        } else {
            CargoLockState::Initial
        },
        CargoLockState::InPackageSection => if toml_key_value(line, "name"@) == Some(name) {
            CargoLockState::InName
        } else {
            CargoLockState::InPackageSection
        },
        CargoLockState::InName => if toml_key_line(line, "version"@) {
            CargoLockState::Stop
        } else {
            CargoLockState::InName
        },
        CargoLockState::Stop => CargoLockState::Stop,
    }
}

/// The state before line `i` of `lines`.
pub open spec fn lock_state_before(lines: Seq<Seq<char>>, name: Seq<char>, i: int) -> CargoLockState
    decreases i,
{
    if i <= 0 {
        CargoLockState::Initial
    } else {
        lock_step(lock_state_before(lines, name, i - 1), lines[i - 1], name)
    }
}

/// Line `line`, read in state `s`, as it is written back.
pub open spec fn lock_out_line(s: CargoLockState, line: Seq<char>, v: SemVer) -> Seq<char> {
    if s == CargoLockState::InName && toml_key_line(line, "version"@) {
        version_line(v)
    } else {
        line
    }
}

/// The lines of `text` as `Cargo.lock` processing for package `name` writes
/// them back.
pub open spec fn cargo_lock_lines(text: Seq<char>, name: Seq<char>, v: SemVer) -> Seq<Seq<char>> {
    let ls = lines_of(text);
    Seq::new(ls.len(), |i: int| lock_out_line(lock_state_before(ls, name, i), ls[i], v))
}

/// `Cargo.lock` with the version of package `name` set to `v`.
pub open spec fn cargo_lock_output(text: Seq<char>, name: Seq<char>, v: SemVer) -> Seq<char> {
    joined_lines(cargo_lock_lines(text, name, v))
}

/// Sets the version of the first record whose `name` value is exactly `name`
/// (quotes included); every line is written back followed by `'\n'`.
pub fn process_cargo_lock(old_contents: &str, name: &str, new_version: SemVer) -> (r: String)
    ensures
        r@ == cargo_lock_output(old_contents@, name@, new_version),
{
    let text = chars_of(old_contents);
    let ls = lines(&text);
    let ghost sl = lines_of(old_contents@);
    let ghost outs = cargo_lock_lines(old_contents@, name@, new_version);
    let package = chars_of("[[package]]");
    let name_key = chars_of("name");
    let wanted = chars_of(name);
    let version = chars_of("version");
    let new_line = version_line_chars(new_version);
    let mut result: Vec<char> = Vec::new();
    let mut state = CargoLockState::Initial;
    let mut i: usize = 0;
    while i < ls.len()
        invariant
            sl == lines_of(old_contents@),
            outs == cargo_lock_lines(old_contents@, name@, new_version),
            ls@.len() == sl.len(),
            forall|j: int| 0 <= j < ls@.len() ==> #[trigger] ls@[j]@ == sl[j],
            package@ == "[[package]]"@,
            name_key@ == "name"@,
            wanted@ == name@,
            version@ == "version"@,
            new_line@ == version_line(new_version),
            i <= ls.len(),
            state == lock_state_before(sl, name@, i as int),
            result@ == joined_lines(outs.subrange(0, i as int)),
        decreases ls.len() - i,
    {
        let line = &ls[i];
        let mut replace = false;
        match state {
            CargoLockState::Initial => {
                if chars_equal(line, &package) {
                    state = CargoLockState::InPackageSection;
                }
            },
            CargoLockState::InPackageSection => {
                match key_value_chars(line, &name_key) {
                    Some(x) => {
                        if chars_equal(&x, &wanted) {
                            state = CargoLockState::InName;
                        }
                    },
                    None => {},
                }
            },
            CargoLockState::InName => {
                if key_line_equals_at(line, &version).is_some() {
                    replace = true;
                    state = CargoLockState::Stop;
                }
            },
            CargoLockState::Stop => {},
        }
        if replace {
            extend_chars(&mut result, &new_line);
        } else {
            extend_chars(&mut result, line);
        }
        result.push('\n');
        proof {
            assert(outs.subrange(0, i + 1).drop_last() =~= outs.subrange(0, i as int));
        }
        i = i + 1;
    }
    assert(outs.subrange(0, i as int) =~= outs);
    string_of(&result)
}

proof fn lemma_lock_stop_stays(ls: Seq<Seq<char>>, name: Seq<char>, k: int, n: int)
    requires
        0 <= k <= n,
        lock_state_before(ls, name, k) == CargoLockState::Stop,
    ensures
        lock_state_before(ls, name, n) == CargoLockState::Stop,
    decreases n - k,
{
    if k < n {
        lemma_lock_stop_stays(ls, name, k, n - 1);
    }
}

/// `Cargo.lock` processing changes at most one line: the first version line
/// after the name of the wanted package.
pub proof fn lemma_lock_changes_one_line(text: Seq<char>, name: Seq<char>, v: SemVer)
    ensures
        cargo_lock_lines(text, name, v).len() == lines_of(text).len(),
        forall|i: int, j: int|
            0 <= i < lines_of(text).len() && 0 <= j < lines_of(text).len() && #[trigger] cargo_lock_lines(
                text,
                name,
                v,
            )[i] != lines_of(text)[i] && #[trigger] cargo_lock_lines(text, name, v)[j]
                != lines_of(text)[j] ==> i == j,
        forall|i: int|
            0 <= i < lines_of(text).len() && #[trigger] cargo_lock_lines(text, name, v)[i]
                != lines_of(text)[i] ==> lock_state_before(lines_of(text), name, i)
                == CargoLockState::InName && toml_key_line(lines_of(text)[i], "version"@),
{
    let ls = lines_of(text);
    let outs = cargo_lock_lines(text, name, v);
    assert forall|i: int, j: int|
        0 <= i < ls.len() && 0 <= j < ls.len() && #[trigger] outs[i] != ls[i] && #[trigger] outs[j]
            != ls[j] implies i == j by {
        if i < j {
            lemma_lock_stop_stays(ls, name, i + 1, j);
        } else if j < i {
            lemma_lock_stop_stays(ls, name, j + 1, i);
        }
    }
}

// ---------------------------------------------------------------------------
// Processors
// ---------------------------------------------------------------------------

/// Sets the version in `Cargo.toml` (see `process_cargo_toml`).
pub struct CargoTomlContentProcessor {}

impl ContentProcessor for CargoTomlContentProcessor {
    type Err = UpdateError;

    open spec fn output(&self, old: Seq<char>, v: SemVer) -> Option<Seq<char>> {
        Some(cargo_toml_output(old, v))
    }

    fn process(&self, old_contents: &str, new_version: SemVer) -> Result<String, UpdateError> {
        Ok(process_cargo_toml(old_contents, new_version))
    }
}

/// Sets the version of package `name` in `Cargo.lock` (see
/// `process_cargo_lock`).
pub struct CargoLockProcessor<'a> {
    pub name: &'a str,
}

impl<'a> ContentProcessor for CargoLockProcessor<'a> {
    type Err = UpdateError;

    open spec fn output(&self, old: Seq<char>, v: SemVer) -> Option<Seq<char>> {
        Some(cargo_lock_output(old, self.name@, v))
    }

    fn process(&self, old_contents: &str, new_version: SemVer) -> Result<String, UpdateError> {
        Ok(process_cargo_lock(old_contents, self.name, new_version))
    }
}

/// The changed texts of a directory's `Cargo.toml` and `Cargo.lock` for
/// version `v`. `Cargo.toml` is kept when processing changes it. `Cargo.lock`
/// (`lock`, where it was read) is processed whenever `Cargo.toml` names its
/// package, even if `Cargo.toml` itself did not change, and kept when that
/// changes it.
pub fn cargo_changes(toml: &str, lock: Option<&str>, v: SemVer) -> (r: (
    Option<String>,
    Option<String>,
))
    ensures
        r.0 is Some <==> cargo_toml_output(toml@, v) != toml@,
        r.0 matches Some(s) ==> s@ == cargo_toml_output(toml@, v),
        r.1 is Some <==> (lock matches Some(l) && package_name(toml@) matches Some(n)
            && cargo_lock_output(l@, n, v) != l@),
        r.1 matches Some(s) ==> s@ == cargo_lock_output(lock->0@, package_name(toml@)->0, v),
{
    let toml_change = keep_if_changed(toml, process_cargo_toml(toml, v));
    let lock_change = match lock {
        Some(l) => match get_package_name_from_cargo_toml(toml) {
            Some(name) => keep_if_changed(l, process_cargo_lock(l, name, v)),
            None => None,
        },
        None => None,
    };
    (toml_change, lock_change)
}

/// Updates `Cargo.toml` and `Cargo.lock` of a directory.
pub struct CargoDirUpdater {}

impl CargoDirUpdater {
    pub fn new() -> Self {
        Self {}
    }
}

} // verus!
