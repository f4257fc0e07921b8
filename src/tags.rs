//! Release tags: finding the current version among `vM.N.P` tags.

use crate::sem_ver::{parse_sem_ver, sem_ver_lt, SemVer};
use crate::text::{chars_of, lines, lines_of, slice_chars, string_of, trim, trim_bounds};
use vstd::prelude::*;

verus! {

/// `tag` without its leading `'v'`, if it has one and something follows.
pub open spec fn without_v_prefix(tag: Seq<char>) -> Option<Seq<char>> {
    if tag.len() > 1 && tag[0] == 'v' {
        Some(tag.drop_first())
    } else {
        None
    }
}

/// `tag` without its leading `'v'` (see `without_v_prefix`).
pub fn remove_v_prefix(tag: &str) -> (r: Option<&str>)
    ensures
        r is Some <==> without_v_prefix(tag@) is Some,
        r matches Some(x) ==> without_v_prefix(tag@) == Some(x@),
{
    let c = chars_of(tag);
    if c.len() > 1 && c[0] == 'v' {
        let rest = tag.substring_char(1, c.len());
        assert(rest@ =~= c@.drop_first());
        Some(rest)
    } else {
        None
    }
}

/// The version that a tag line names: trimmed, a `'v'` and a version.
pub open spec fn tag_version(line: Seq<char>) -> Option<SemVer> {
    match without_v_prefix(trim(line)) {
        Some(t) => match parse_sem_ver(t) {
            Ok(v) => Some(v),
            Err(_) => None,
        },
        None => None,
    }
}

/// The versions that the lines `ls` name, in order.
pub open spec fn tag_versions(ls: Seq<Seq<char>>) -> Seq<SemVer>
    decreases ls.len(),
{
    if ls.len() == 0 {
        Seq::empty()
    } else {
        match tag_version(ls.last()) {
            Some(v) => tag_versions(ls.drop_last()).push(v),
            None => tag_versions(ls.drop_last()),
        }
    }
}

/// The greatest version among the `vM.N.P` tags listed one per line, if
/// any line names one.
pub fn find_biggest_tag(tag_lines: &str) -> (r: Option<SemVer>)
    ensures
        r is None <==> tag_versions(lines_of(tag_lines@)).len() == 0,
        r matches Some(v) ==> tag_versions(lines_of(tag_lines@)).contains(v) && forall|i: int|
            0 <= i < tag_versions(lines_of(tag_lines@)).len() ==> !sem_ver_lt(
                v,
                #[trigger] tag_versions(lines_of(tag_lines@))[i],
            ),
{
    let text = chars_of(tag_lines);
    let ls = lines(&text);
    let ghost sl = lines_of(tag_lines@);
    let mut best: Option<SemVer> = None;
    let mut i: usize = 0;
    while i < ls.len()
        invariant
            sl == lines_of(tag_lines@),
            ls@.len() == sl.len(),
            forall|j: int| 0 <= j < ls@.len() ==> #[trigger] ls@[j]@ == sl[j],
            i <= ls.len(),
            best is None <==> tag_versions(sl.subrange(0, i as int)).len() == 0,
            best matches Some(v) ==> tag_versions(sl.subrange(0, i as int)).contains(v) && forall|
                k: int,
            |
                0 <= k < tag_versions(sl.subrange(0, i as int)).len() ==> !sem_ver_lt(
                    v,
                    #[trigger] tag_versions(sl.subrange(0, i as int))[k],
                ),
        decreases ls.len() - i,
    {
        let line = &ls[i];
        let (from, to) = trim_bounds(line);
        let ghost before = tag_versions(sl.subrange(0, i as int));
        proof {
            assert(sl.subrange(0, i + 1).drop_last() =~= sl.subrange(0, i as int));
        }
        if to - from > 1 && line[from] == 'v' {
            let rest = slice_chars(line, from + 1, to);
            assert(rest@ =~= trim(line@).drop_first());
            let s = string_of(&rest);
            match SemVer::parse(s.as_str()) {
                Ok(v) => {
                    let replace = match best {
                        None => true,
                        Some(b) => sem_ver_lt_exec(&b, &v),
                    };
                    let ghost after = before.push(v);
                    assert(tag_versions(sl.subrange(0, i + 1)) == after);
                    if replace {
                        best = Some(v);
                    }
                    proof {
                        if replace {
                            assert(after[after.len() - 1] == best->0);
                        } else {
                            let k = choose|k: int| 0 <= k < before.len() && before[k] == best->0;
                            assert(after[k] == best->0);
                        }
                        assert(after.contains(best->0));
                        assert forall|k: int| 0 <= k < after.len() implies !sem_ver_lt(
                            best->0,
                            #[trigger] after[k],
                        ) by {
                            if k < before.len() {
                                assert(after[k] == before[k]);
                            }
                        }
                    }
                },
                Err(_) => {},
            }
        }
        i = i + 1;
    }
    assert(sl.subrange(0, i as int) =~= sl);
    best
}

/// Whether `a` precedes `b` (see `sem_ver_lt`).
fn sem_ver_lt_exec(a: &SemVer, b: &SemVer) -> (r: bool)
    ensures
        r == sem_ver_lt(*a, *b),
{
    match a.compare(b) {
        std::cmp::Ordering::Less => true,
        _ => false,
    }
}

} // verus!
