//! Character-level text utilities shared by the content processors.
//!
//! Text is handled as sequences of `char`; every operation here is stated
//! over `Seq<char>` and proved against that statement.

use vstd::prelude::*;

verus! {

// ---------------------------------------------------------------------------
// Conversions between `str`/`String` and `Vec<char>`
// ---------------------------------------------------------------------------

/// The characters of `s`, in order.
pub fn chars_of(s: &str) -> (r: Vec<char>)
    ensures
        r@ == s@,
{
    let mut r: Vec<char> = Vec::new();
    for c in it: s.chars()
        invariant
            r@ == it.seq().subrange(0, it.index() as int),
            it.seq() == s@,
    {
        r.push(c);
    }
    r
}

/// Relies on `String::push`: appends one character at the end.
#[verifier::external_body]
fn push_char(s: &mut String, c: char)
    ensures
        final(s)@ == old(s)@.push(c),
{
    s.push(c);
}

/// The string made of the characters of `chars`, in order.
pub fn string_of(chars: &Vec<char>) -> (r: String)
    ensures
        r@ == chars@,
{
    let mut r = String::new();
    let mut i: usize = 0;
    while i < chars.len()
        invariant
            i <= chars.len(),
            r@ == chars@.subrange(0, i as int),
        decreases chars.len() - i,
    {
        push_char(&mut r, chars[i]);
        i = i + 1;
        assert(r@ =~= chars@.subrange(0, i as int));
    }
    assert(r@ =~= chars@);
    r
}

/// Appends all characters of `src` to `dst`.
pub fn extend_chars(dst: &mut Vec<char>, src: &Vec<char>)
    ensures
        final(dst)@ == old(dst)@ + src@,
{
    let mut i: usize = 0;
    while i < src.len()
        invariant
            i <= src.len(),
            dst@ == old(dst)@ + src@.subrange(0, i as int),
        decreases src.len() - i,
    {
        dst.push(src[i]);
        i = i + 1;
        assert(dst@ =~= old(dst)@ + src@.subrange(0, i as int));
    }
    assert(src@.subrange(0, i as int) =~= src@);
}

/// A copy of `s[from..to]`.
pub fn slice_chars(s: &Vec<char>, from: usize, to: usize) -> (r: Vec<char>)
    requires
        from <= to <= s.len(),
    ensures
        r@ == s@.subrange(from as int, to as int),
{
    let mut r: Vec<char> = Vec::new();
    let mut i: usize = from;
    while i < to
        invariant
            from <= i <= to <= s.len(),
            r@ == s@.subrange(from as int, i as int),
        decreases to - i,
    {
        r.push(s[i]);
        i = i + 1;
        assert(r@ =~= s@.subrange(from as int, i as int));
    }
    r
}

/// Whether two character sequences are equal.
pub fn chars_equal(a: &Vec<char>, b: &Vec<char>) -> (r: bool)
    ensures
        r == (a@ == b@),
{
    if a.len() != b.len() {
        return false;
    }
    let mut i: usize = 0;
    while i < a.len()
        invariant
            a.len() == b.len(),
            i <= a.len(),
            forall|j: int| 0 <= j < i ==> a@[j] == b@[j],
        decreases a.len() - i,
    {
        if a[i] != b[i] {
            return false;
        }
        i = i + 1;
    }
    assert(a@ =~= b@);
    true
}

// ---------------------------------------------------------------------------
// Prefixes
// ---------------------------------------------------------------------------

/// `s` begins with `prefix`.
pub open spec fn starts_with(s: Seq<char>, prefix: Seq<char>) -> bool {
    prefix.len() <= s.len() && s.subrange(0, prefix.len() as int) == prefix
}

/// Whether `s[from..]` begins with `prefix`.
pub fn starts_with_at(s: &Vec<char>, from: usize, prefix: &Vec<char>) -> (r: bool)
    requires
        from <= s.len(),
    ensures
        r == starts_with(s@.subrange(from as int, s@.len() as int), prefix@),
{
    if prefix.len() > s.len() - from {
        return false;
    }
    let mut i: usize = 0;
    while i < prefix.len()
        invariant
            from <= s.len(),
            prefix.len() <= s.len() - from,
            i <= prefix.len(),
            forall|j: int| 0 <= j < i ==> s@[from + j] == prefix@[j],
        decreases prefix.len() - i,
    {
        if s[from + i] != prefix[i] {
            assert(s@.subrange(from as int, s@.len() as int).subrange(0, prefix.len() as int)[i as int]
                != prefix@[i as int]);
            return false;
        }
        i = i + 1;
    }
    assert(s@.subrange(from as int, s@.len() as int).subrange(0, prefix.len() as int) =~= prefix@);
    true
}

// ---------------------------------------------------------------------------
// Splitting
// ---------------------------------------------------------------------------

/// The pieces of `s` between occurrences of `sep`, as `str::split` gives
/// them: one more piece than there are separators, empty pieces included.
pub open spec fn split_on(s: Seq<char>, sep: char) -> Seq<Seq<char>>
    decreases s.len(),
{
    if s.len() == 0 {
        seq![Seq::<char>::empty()]
    } else {
        let pieces = split_on(s.drop_last(), sep);
        if s.last() == sep {
            pieces.push(Seq::<char>::empty())
        } else {
            pieces.update(pieces.len() - 1, pieces.last().push(s.last()))
        }
    }
}

/// `split_on` always yields at least one piece.
pub proof fn lemma_split_on_nonempty(s: Seq<char>, sep: char)
    ensures
        split_on(s, sep).len() >= 1,
    decreases s.len(),
{
    if s.len() > 0 {
        lemma_split_on_nonempty(s.drop_last(), sep);
    }
}

/// Splits `s` at every occurrence of `sep`.
pub fn split_chars(s: &Vec<char>, sep: char) -> (r: Vec<Vec<char>>)
    ensures
        r@.len() == split_on(s@, sep).len(),
        forall|i: int| 0 <= i < r@.len() ==> #[trigger] r@[i]@ == split_on(s@, sep)[i],
{
    let (pieces, _) = split_with_starts(s, sep);
    pieces
}

/// Splits `s` at every occurrence of `sep`; each piece comes with the
/// position in `s` where it starts.
pub fn split_with_starts(s: &Vec<char>, sep: char) -> (r: (Vec<Vec<char>>, Vec<usize>))
    ensures
        r.0@.len() == split_on(s@, sep).len(),
        r.1@.len() == r.0@.len(),
        forall|i: int| 0 <= i < r.0@.len() ==> #[trigger] r.0@[i]@ == split_on(s@, sep)[i],
        forall|i: int|
            0 <= i < r.0@.len() ==> r.1@[i] + r.0@[i]@.len() <= s@.len() && s@.subrange(
                #[trigger] r.1@[i] as int,
                r.1@[i] + r.0@[i]@.len(),
            ) == r.0@[i]@,
{
    let mut pieces: Vec<Vec<char>> = Vec::new();
    let mut starts: Vec<usize> = Vec::new();
    let mut current: Vec<char> = Vec::new();
    let mut start: usize = 0;
    let mut i: usize = 0;
    while i < s.len()
        invariant
            i <= s.len(),
            split_on(s@.subrange(0, i as int), sep).len() == pieces@.len() + 1,
            forall|j: int|
                0 <= j < pieces@.len() ==> #[trigger] pieces@[j]@ == split_on(
                    s@.subrange(0, i as int),
                    sep,
                )[j],
            current@ == split_on(s@.subrange(0, i as int), sep).last(),
            starts@.len() == pieces@.len(),
            forall|j: int|
                0 <= j < pieces@.len() ==> starts@[j] + pieces@[j]@.len() <= s@.len() && s@.subrange(
                    #[trigger] starts@[j] as int,
                    starts@[j] + pieces@[j]@.len(),
                ) == pieces@[j]@,
            start <= i,
            start + current@.len() == i,
            s@.subrange(start as int, i as int) == current@,
        decreases s.len() - i,
    {
        let ghost prev = s@.subrange(0, i as int);
        assert(s@.subrange(0, i + 1 as int).drop_last() =~= prev);
        if s[i] == sep {
            pieces.push(current);
            starts.push(start);
            current = Vec::new();
            start = i + 1;
        } else {
            current.push(s[i]);
            assert(s@.subrange(start as int, i + 1) =~= current@);
        }
        i = i + 1;
        assert forall|j: int| 0 <= j < pieces@.len() implies #[trigger] pieces@[j]@ == split_on(
            s@.subrange(0, i as int),
            sep,
        )[j] by {}
        assert(s@.subrange(start as int, i as int) =~= current@);
    }
    pieces.push(current);
    starts.push(start);
    assert(s@.subrange(0, i as int) =~= s@);
    (pieces, starts)
}

/// The lines of `s`, as `str::lines` gives them: split at `'\n'`, a `'\r'`
/// just before a `'\n'` dropped, and no empty last line after a final `'\n'`.
pub open spec fn lines_of(s: Seq<char>) -> Seq<Seq<char>> {
    let pieces = split_on(s, '\n');
    let n = if pieces.last().len() == 0 {
        pieces.len() - 1
    } else {
        pieces.len() as int
    };
    Seq::new(
        n as nat,
        |i: int|
            if i < pieces.len() - 1 && pieces[i].len() > 0 && pieces[i].last() == '\r' {
                pieces[i].drop_last()
            } else {
                pieces[i]
            },
    )
}

/// Splits `s` into lines (see `lines_of`).
pub fn lines(s: &Vec<char>) -> (r: Vec<Vec<char>>)
    ensures
        r@.len() == lines_of(s@).len(),
        forall|i: int| 0 <= i < r@.len() ==> #[trigger] r@[i]@ == lines_of(s@)[i],
{
    let (r, _) = lines_with_starts(s);
    r
}

/// Splits `s` into lines (see `lines_of`); each line comes with the
/// position in `s` where it starts.
pub fn lines_with_starts(s: &Vec<char>) -> (r: (Vec<Vec<char>>, Vec<usize>))
    ensures
        r.0@.len() == lines_of(s@).len(),
        r.1@.len() == r.0@.len(),
        forall|i: int| 0 <= i < r.0@.len() ==> #[trigger] r.0@[i]@ == lines_of(s@)[i],
        forall|i: int|
            0 <= i < r.0@.len() ==> r.1@[i] + r.0@[i]@.len() <= s@.len() && s@.subrange(
                #[trigger] r.1@[i] as int,
                r.1@[i] + r.0@[i]@.len(),
            ) == r.0@[i]@,
{
    let (pieces, starts) = split_with_starts(s, '\n');
    proof {
        lemma_split_on_nonempty(s@, '\n');
    }
    let count: usize = if pieces[pieces.len() - 1].len() == 0 {
        pieces.len() - 1
    } else {
        pieces.len()
    };
    let mut r: Vec<Vec<char>> = Vec::new();
    let mut r_starts: Vec<usize> = Vec::new();
    let mut i: usize = 0;
    while i < count
        invariant
            count <= pieces@.len(),
            count == lines_of(s@).len(),
            pieces@.len() == split_on(s@, '\n').len(),
            starts@.len() == pieces@.len(),
            forall|j: int| 0 <= j < pieces@.len() ==> #[trigger] pieces@[j]@ == split_on(s@, '\n')[j],
            forall|j: int|
                0 <= j < pieces@.len() ==> starts@[j] + pieces@[j]@.len() <= s@.len() && s@.subrange(
                    #[trigger] starts@[j] as int,
                    starts@[j] + pieces@[j]@.len(),
                ) == pieces@[j]@,
            i <= count,
            r@.len() == i,
            r_starts@.len() == i,
            forall|j: int| 0 <= j < i ==> #[trigger] r@[j]@ == lines_of(s@)[j],
            forall|j: int|
                0 <= j < i ==> r_starts@[j] + r@[j]@.len() <= s@.len() && s@.subrange(
                    #[trigger] r_starts@[j] as int,
                    r_starts@[j] + r@[j]@.len(),
                ) == r@[j]@,
        decreases count - i,
    {
        let piece = &pieces[i];
        let n = piece.len();
        let line = if i + 1 < pieces.len() && n > 0 && piece[n - 1] == '\r' {
            slice_chars(piece, 0, n - 1)
        } else {
            slice_chars(piece, 0, n)
        };
        proof {
            assert(pieces@[i as int]@.subrange(0, n as int) =~= pieces@[i as int]@);
            let st = starts@[i as int] as int;
            assert(s@.subrange(st, st + line@.len()) =~= s@.subrange(st, st + n).subrange(
                0,
                line@.len() as int,
            ));
        }
        r.push(line);
        r_starts.push(starts[i]);
        i = i + 1;
    }
    (r, r_starts)
}

/// Each line of `lines` followed by a `'\n'`, all joined.
pub open spec fn joined_lines(lines: Seq<Seq<char>>) -> Seq<char>
    decreases lines.len(),
{
    if lines.len() == 0 {
        Seq::<char>::empty()
    } else {
        joined_lines(lines.drop_last()) + lines.last().push('\n')
    }
}

/// Each line of `lines` followed by `"\r\n"`, all joined.
pub open spec fn joined_crlf_lines(lines: Seq<Seq<char>>) -> Seq<char>
    decreases lines.len(),
{
    if lines.len() == 0 {
        Seq::<char>::empty()
    } else {
        joined_crlf_lines(lines.drop_last()) + lines.last().push('\r').push('\n')
    }
}

// ---------------------------------------------------------------------------
// Whitespace
// ---------------------------------------------------------------------------

/// The characters with Unicode's `White_Space` property, as
/// `char::is_whitespace` tests them.
pub open spec fn is_whitespace(c: char) -> bool {
    ('\u{9}' <= c && c <= '\u{d}') || c == ' ' || c == '\u{85}' || c == '\u{a0}' || c
        == '\u{1680}' || ('\u{2000}' <= c && c <= '\u{200a}') || c == '\u{2028}' || c
        == '\u{2029}' || c == '\u{202f}' || c == '\u{205f}' || c == '\u{3000}'
}

/// Whether `c` is whitespace (see `is_whitespace`).
pub fn is_whitespace_char(c: char) -> (r: bool)
    ensures
        r == is_whitespace(c),
{
    ('\u{9}' <= c && c <= '\u{d}') || c == ' ' || c == '\u{85}' || c == '\u{a0}' || c
        == '\u{1680}' || ('\u{2000}' <= c && c <= '\u{200a}') || c == '\u{2028}' || c
        == '\u{2029}' || c == '\u{202f}' || c == '\u{205f}' || c == '\u{3000}'
}

/// `s` without its leading whitespace, as `str::trim_start` gives it.
pub open spec fn trim_start(s: Seq<char>) -> Seq<char>
    decreases s.len(),
{
    if s.len() > 0 && is_whitespace(s[0]) {
        trim_start(s.drop_first())
    } else {
        s
    }
}

/// `s` without its trailing whitespace, as `str::trim_end` gives it.
pub open spec fn trim_end(s: Seq<char>) -> Seq<char>
    decreases s.len(),
{
    if s.len() > 0 && is_whitespace(s.last()) {
        trim_end(s.drop_last())
    } else {
        s
    }
}

/// `s` without leading and trailing whitespace, as `str::trim` gives it.
pub open spec fn trim(s: Seq<char>) -> Seq<char> {
    trim_end(trim_start(s))
}

/// The first position at or after `from` that holds no whitespace, or the
/// end of `s`.
pub fn skip_whitespace(s: &Vec<char>, from: usize) -> (r: usize)
    requires
        from <= s.len(),
    ensures
        from <= r <= s.len(),
        s@.subrange(r as int, s@.len() as int) == trim_start(
            s@.subrange(from as int, s@.len() as int),
        ),
{
    let mut i: usize = from;
    while i < s.len() && is_whitespace_char(s[i])
        invariant
            from <= i <= s.len(),
            trim_start(s@.subrange(i as int, s@.len() as int)) == trim_start(
                s@.subrange(from as int, s@.len() as int),
            ),
        decreases s.len() - i,
    {
        assert(s@.subrange(i as int, s@.len() as int).drop_first() =~= s@.subrange(
            i + 1,
            s@.len() as int,
        ));
        i = i + 1;
    }
    i
}

/// The position just past the last character in `s[..to]` that is not
/// whitespace, or `0`.
pub fn trailing_whitespace_start(s: &Vec<char>, to: usize) -> (r: usize)
    requires
        to <= s.len(),
    ensures
        r <= to,
        s@.subrange(0, r as int) == trim_end(s@.subrange(0, to as int)),
{
    let mut i: usize = to;
    while i > 0 && is_whitespace_char(s[i - 1])
        invariant
            i <= to <= s.len(),
            trim_end(s@.subrange(0, i as int)) == trim_end(s@.subrange(0, to as int)),
        decreases i,
    {
        assert(s@.subrange(0, i as int).drop_last() =~= s@.subrange(0, i - 1));
        i = i - 1;
    }
    i
}

/// `trim_end` of a suffix of `s` is a suffix of `trim_end(s)` cut at the same
/// place, when something is left.
proof fn lemma_trim_end_of_suffix(s: Seq<char>, k: int)
    requires
        0 <= k <= s.len(),
    ensures
        trim_end(s.subrange(k, s.len() as int)).len() > 0 ==> trim_end(
            s.subrange(k, s.len() as int),
        ) == trim_end(s).subrange(k, trim_end(s).len() as int),
        trim_end(s).len() <= s.len(),
        trim_end(s) == s.subrange(0, trim_end(s).len() as int),
        trim_end(s.subrange(k, s.len() as int)).len() == 0 ==> trim_end(s).len() <= k,
        trim_end(s.subrange(k, s.len() as int)).len() > 0 ==> trim_end(s).len() > k,
    decreases s.len(),
{
    if s.len() > 0 && is_whitespace(s.last()) {
        if k < s.len() {
            assert(s.subrange(k, s.len() as int).drop_last() =~= s.drop_last().subrange(
                k,
                s.drop_last().len() as int,
            ));
        }
        lemma_trim_end_of_suffix(s.drop_last(), if k < s.len() { k } else { k - 1 });
        if k == s.len() {
            assert(s.drop_last().subrange(k - 1, s.drop_last().len() as int).len() == 0);
        }
        assert(s.drop_last().subrange(0, trim_end(s.drop_last()).len() as int) =~= s.subrange(
            0,
            trim_end(s).len() as int,
        ));
    } else {
        assert(s.subrange(0, s.len() as int) =~= s);
        if k < s.len() {
            assert(trim_end(s.subrange(k, s.len() as int)) == s.subrange(k, s.len() as int));
        }
    }
}

/// `s` trimmed at both ends, as positions: `s[start..end] == trim(s)`.
pub fn trim_bounds(s: &Vec<char>) -> (r: (usize, usize))
    ensures
        r.0 <= r.1 <= s.len(),
        s@.subrange(r.0 as int, r.1 as int) == trim(s@),
{
    let start = skip_whitespace(s, 0);
    let end = trailing_whitespace_start(s, s.len());
    proof {
        assert(s@.subrange(0, s@.len() as int) =~= s@);
        lemma_trim_end_of_suffix(s@, start as int);
    }
    if end <= start {
        proof {
            assert(s@.subrange(start as int, start as int) =~= Seq::<char>::empty());
        }
        (start, start)
    } else {
        proof {
            assert(s@.subrange(start as int, end as int) =~= s@.subrange(0, end as int).subrange(
                start as int,
                end as int,
            ));
        }
        (start, end)
    }
}

// ---------------------------------------------------------------------------
// ASCII case
// ---------------------------------------------------------------------------

/// `c` in ASCII upper case, as `char::to_ascii_uppercase` gives it.
pub open spec fn ascii_upper(c: char) -> char {
    if 'a' <= c && c <= 'z' {
        ((c as u8) - 32) as char
    } else {
        c
    }
}

/// `c` in ASCII upper case.
pub fn to_ascii_upper(c: char) -> (r: char)
    ensures
        r == ascii_upper(c),
{
    if 'a' <= c && c <= 'z' {
        ((c as u8) - 32) as char
    } else {
        c
    }
}

/// `a` and `b` are equal up to ASCII case, as `str::eq_ignore_ascii_case`
/// decides it.
pub open spec fn eq_ignore_ascii_case(a: Seq<char>, b: Seq<char>) -> bool {
    a.len() == b.len() && forall|i: int| 0 <= i < a.len() ==> ascii_upper(a[i]) == ascii_upper(b[i])
}

/// Whether `a[from..to]` equals `b` up to ASCII case.
pub fn range_eq_ignore_ascii_case(a: &Vec<char>, from: usize, to: usize, b: &Vec<char>) -> (r:
    bool)
    requires
        from <= to <= a.len(),
    ensures
        r == eq_ignore_ascii_case(a@.subrange(from as int, to as int), b@),
{
    if to - from != b.len() {
        return false;
    }
    let mut i: usize = 0;
    while i < b.len()
        invariant
            from <= to <= a.len(),
            to - from == b.len(),
            i <= b.len(),
            forall|j: int| 0 <= j < i ==> ascii_upper(a@[from + j]) == ascii_upper(b@[j]),
        decreases b.len() - i,
    {
        if to_ascii_upper(a[from + i]) != to_ascii_upper(b[i]) {
            return false;
        }
        i = i + 1;
    }
    true
}

// ---------------------------------------------------------------------------
// Decimal numbers
// ---------------------------------------------------------------------------

/// The ASCII digit for `d < 10`.
pub open spec fn digit_char(d: nat) -> char {
    ((d + 48) as u8) as char
}

/// The decimal form of `n`, without leading zeros.
pub open spec fn decimal(n: nat) -> Seq<char>
    decreases n,
{
    if n < 10 {
        seq![digit_char(n)]
    } else {
        decimal(n / 10).push(digit_char(n % 10))
    }
}

/// Appends the decimal form of `n` to `out`.
pub fn push_decimal(out: &mut Vec<char>, n: u64)
    ensures
        final(out)@ == old(out)@ + decimal(n as nat),
    decreases n,
{
    if n >= 10 {
        push_decimal(out, n / 10);
    }
    let d: u8 = (n % 10) as u8 + 48;
    out.push(d as char);
    assert(final(out)@ =~= old(out)@ + decimal(n as nat));
}

/// `c` is an ASCII digit.
pub open spec fn is_digit(c: char) -> bool {
    '0' <= c && c <= '9'
}

/// The value of the ASCII digit `c`.
pub open spec fn digit_value(c: char) -> nat {
    (c as u32 - 48) as nat
}

} // verus!
