//! Semantic versions: the value type, its text form, ordering and bumping.

use crate::text::{
    chars_of, decimal, digit_char, digit_value, is_digit, push_decimal, split_chars, split_on,
    string_of,
};
use std::cmp::Ordering;
use vstd::prelude::*;

verus! {

/// A component of a semantic version.
#[derive(Clone, Copy, Debug, PartialEq, Eq, Structural)]
pub enum SemVerComponent {
    Major,
    Minor,
    Patch,
}

impl SemVerComponent {
    /// The component that `s` names: `"major"`, `"minor"` or `"patch"`.
    pub fn from_name(s: &str) -> (r: Option<SemVerComponent>)
        ensures
            r == component_named(s@),
    {
        let c = chars_of(s);
        let major = chars_of("major");
        let minor = chars_of("minor");
        let patch = chars_of("patch");
        if crate::text::chars_equal(&c, &major) {
            Some(SemVerComponent::Major)
        } else if crate::text::chars_equal(&c, &minor) {
            Some(SemVerComponent::Minor)
        } else if crate::text::chars_equal(&c, &patch) {
            Some(SemVerComponent::Patch)
        } else {
            None
        }
    }
}

/// The component that the text `s` names, if any.
pub open spec fn component_named(s: Seq<char>) -> Option<SemVerComponent> {
    if s == "major"@ {
        Some(SemVerComponent::Major)
    } else if s == "minor"@ {
        Some(SemVerComponent::Minor)
    } else if s == "patch"@ {
        Some(SemVerComponent::Patch)
    } else {
        None
    }
}

impl std::str::FromStr for SemVerComponent {
    type Err = ();

    fn from_str(s: &str) -> Result<Self, Self::Err> {
        match SemVerComponent::from_name(s) {
            Some(c) => Ok(c),
            None => Err(()),
        }
    }
}

/// The bit that stands for `c` in a `SemVerComponentSet`.
pub open spec fn flag_of(c: SemVerComponent) -> u8 {
    match c {
        SemVerComponent::Major => 4,
        SemVerComponent::Minor => 2,
        SemVerComponent::Patch => 1,
    }
}

/// A set of semantic version components, held as bit flags.
pub struct SemVerComponentSet(u8);

impl View for SemVerComponentSet {
    type V = Set<SemVerComponent>;

    closed spec fn view(&self) -> Set<SemVerComponent> {
        Set::new(|c: SemVerComponent| self.0 & flag_of(c) != 0)
    }
}

/// The components that are not in `s`, in the order major, minor, patch.
pub open spec fn missing_of(s: Set<SemVerComponent>) -> Seq<SemVerComponent> {
    (if s.contains(SemVerComponent::Major) {
        Seq::empty()
    } else {
        seq![SemVerComponent::Major]
    }) + (if s.contains(SemVerComponent::Minor) {
        Seq::empty()
    } else {
        seq![SemVerComponent::Minor]
    }) + (if s.contains(SemVerComponent::Patch) {
        Seq::empty()
    } else {
        seq![SemVerComponent::Patch]
    })
}

impl SemVerComponentSet {
    /// Creates a new empty set.
    pub fn new() -> (r: Self)
        ensures
            r@ == Set::<SemVerComponent>::empty(),
    {
        let r = SemVerComponentSet(0);
        proof {
            assert forall|c: SemVerComponent| !r@.contains(c) by {
                assert(0u8 & flag_of(c) == 0) by (bit_vector);
            }
            assert(r@ =~= Set::<SemVerComponent>::empty());
        }
        r
    }

    /// Maps the component to its bit flag.
    fn component_to_flag(component: SemVerComponent) -> (r: u8)
        ensures
            r == flag_of(component),
    {
        match component {
            SemVerComponent::Major => 4,
            SemVerComponent::Minor => 2,
            SemVerComponent::Patch => 1,
        }
    }

    /// Whether `component` is in the set.
    pub fn contains(&self, component: SemVerComponent) -> (r: bool)
        ensures
            r == self@.contains(component),
    {
        self.0 & Self::component_to_flag(component) != 0
    }

    /// Adds `component` to the set; adding one that is there already
    /// changes nothing.
    pub fn insert(&mut self, component: SemVerComponent)
        ensures
            final(self)@ == old(self)@.insert(component),
    {
        let f = Self::component_to_flag(component);
        let b = self.0;
        self.0 = b | f;
        proof {
            assert forall|c: SemVerComponent| #[trigger] final(self)@.contains(c) == old(
                self,
            )@.insert(component).contains(c) by {
                let g = flag_of(c);
                assert((b | f) & g != 0 <==> (b & g != 0 || f & g != 0)) by (bit_vector);
                assert(f & g != 0 <==> c == component) by {
                    assert(4u8 & 2u8 == 0 && 4u8 & 1u8 == 0 && 2u8 & 1u8 == 0 && 2u8 & 4u8 == 0
                        && 1u8 & 4u8 == 0 && 1u8 & 2u8 == 0 && 4u8 & 4u8 != 0 && 2u8 & 2u8 != 0
                        && 1u8 & 1u8 != 0) by (bit_vector);
                }
            }
            assert(final(self)@ =~= old(self)@.insert(component));
        }
    }

    /// The components that are missing from this set, in the order major,
    /// minor, patch. The result is a snapshot: later changes to the set do
    /// not reach it.
    pub fn missing(&self) -> (r: Vec<SemVerComponent>)
        ensures
            r@ == missing_of(self@),
    {
        let mut r: Vec<SemVerComponent> = Vec::new();
        if !self.contains(SemVerComponent::Major) {
            r.push(SemVerComponent::Major);
        }
        if !self.contains(SemVerComponent::Minor) {
            r.push(SemVerComponent::Minor);
        }
        if !self.contains(SemVerComponent::Patch) {
            r.push(SemVerComponent::Patch);
        }
        assert(r@ =~= missing_of(self@));
        r
    }

    /// All components, in the order major, minor, patch.
    pub fn all() -> (r: Vec<SemVerComponent>)
        ensures
            r@ == seq![SemVerComponent::Major, SemVerComponent::Minor, SemVerComponent::Patch],
    {
        let r = Self::new().missing();
        assert(r@ =~= seq![SemVerComponent::Major, SemVerComponent::Minor, SemVerComponent::Patch]);
        r
    }
}

/// A semantic version. The derived order is lexicographic over
/// (major, minor, patch), the same as `sem_ver_lt`.
#[derive(Debug, Clone, Copy, PartialEq, Eq, Structural, PartialOrd, Ord, Hash)]
pub struct SemVer {
    pub major: u16,
    pub minor: u16,
    pub patch: u16,
}

/// The value of one component of `v`.
pub open spec fn component_of(v: SemVer, c: SemVerComponent) -> u16 {
    match c {
        SemVerComponent::Major => v.major,
        SemVerComponent::Minor => v.minor,
        SemVerComponent::Patch => v.patch,
    }
}

/// `v` bumped at component `c`, the lower components reset to zero.
pub open spec fn bumped(v: SemVer, c: SemVerComponent) -> SemVer
    recommends
        component_of(v, c) < u16::MAX,
{
    match c {
        SemVerComponent::Major => SemVer { major: (v.major + 1) as u16, minor: 0, patch: 0 },
        SemVerComponent::Minor => SemVer { major: v.major, minor: (v.minor + 1) as u16, patch: 0 },
        SemVerComponent::Patch => SemVer {
            major: v.major,
            minor: v.minor,
            patch: (v.patch + 1) as u16,
        },
    }
}

/// `a` precedes `b`: lexicographic order over (major, minor, patch).
pub open spec fn sem_ver_lt(a: SemVer, b: SemVer) -> bool {
    a.major < b.major || (a.major == b.major && (a.minor < b.minor || (a.minor == b.minor
        && a.patch < b.patch)))
}

/// The comparison of `a` with `b`.
pub open spec fn sem_ver_cmp(a: SemVer, b: SemVer) -> Ordering {
    if sem_ver_lt(a, b) {
        Ordering::Less
    } else if sem_ver_lt(b, a) {
        Ordering::Greater
    } else {
        Ordering::Equal
    }
}

/// The text form `"{major}.{minor}.{patch}"`.
pub open spec fn version_text(v: SemVer) -> Seq<char> {
    decimal(v.major as nat) + seq!['.'] + decimal(v.minor as nat) + seq!['.'] + decimal(
        v.patch as nat,
    )
}

impl SemVer {
    pub fn new(major: u16, minor: u16, patch: u16) -> (r: Self)
        ensures
            r == (SemVer { major, minor, patch }),
    {
        Self { major, minor, patch }
    }

    /// The next version at component `step`.
    pub fn bump(&self, step: SemVerComponent) -> (r: Self)
        requires
            component_of(*self, step) < u16::MAX,
        ensures
            r == bumped(*self, step),
    {
        match step {
            SemVerComponent::Major => Self::new(self.major + 1, 0, 0),
            SemVerComponent::Minor => Self::new(self.major, self.minor + 1, 0),
            SemVerComponent::Patch => Self::new(self.major, self.minor, self.patch + 1),
        }
    }

    /// The value of one component.
    pub fn get_component(&self, component: SemVerComponent) -> (r: u16)
        ensures
            r == component_of(*self, component),
    {
        match component {
            SemVerComponent::Major => self.major,
            SemVerComponent::Minor => self.minor,
            SemVerComponent::Patch => self.patch,
        }
    }

    /// Compares two versions by (major, minor, patch).
    pub fn compare(&self, other: &SemVer) -> (r: Ordering)
        ensures
            r == sem_ver_cmp(*self, *other),
    {
        if self.major < other.major {
            Ordering::Less
        } else if self.major > other.major {
            Ordering::Greater
        } else if self.minor < other.minor {
            Ordering::Less
        } else if self.minor > other.minor {
            Ordering::Greater
        } else if self.patch < other.patch {
            Ordering::Less
        } else if self.patch > other.patch {
            Ordering::Greater
        } else {
            Ordering::Equal
        }
    }

    /// Appends the text form of this version to `out`.
    pub fn push_text(&self, out: &mut Vec<char>)
        ensures
            final(out)@ == old(out)@ + version_text(*self),
    {
        push_decimal(out, self.major as u64);
        out.push('.');
        push_decimal(out, self.minor as u64);
        out.push('.');
        push_decimal(out, self.patch as u64);
        assert(final(out)@ =~= old(out)@ + version_text(*self));
    }

    /// The text form `"{major}.{minor}.{patch}"`.
    pub fn to_string(&self) -> (r: String)
        ensures
            r@ == version_text(*self),
    {
        let mut out: Vec<char> = Vec::new();
        self.push_text(&mut out);
        assert(out@ =~= version_text(*self));
        string_of(&out)
    }
}

/// Why a text is not a number in the range of `u16`, as `u16::from_str`
/// tells it.
#[derive(Debug, Clone, Copy, PartialEq, Eq, Structural)]
pub enum NumberError {
    /// The text is empty.
    Empty,
    /// The text holds a character that is not a digit.
    InvalidDigit,
    /// The number exceeds `u16::MAX`.
    PosOverflow,
}

/// Why a text is not a semantic version.
#[derive(Debug, Clone, Copy, PartialEq, Eq, Structural)]
pub enum SemVerParseError {
    /// A part is not a number; the first such part's error.
    ParseIntError(NumberError),
    /// All parts are numbers, but there are not three of them.
    IllegalComponentCount(usize),
}

/// Reads the digits of `d` from the left, failing at the first character
/// that is no digit or at the first digit that takes the value past
/// `u16::MAX`.
pub open spec fn scan_digits(d: Seq<char>) -> Result<nat, NumberError>
    decreases d.len(),
{
    if d.len() == 0 {
        Ok(0)
    } else {
        match scan_digits(d.drop_last()) {
            Err(e) => Err(e),
            Ok(v) => if !is_digit(d.last()) {
                Err(NumberError::InvalidDigit)
            } else if v * 10 + digit_value(d.last()) > u16::MAX {
                Err(NumberError::PosOverflow)
            } else {
                Ok(v * 10 + digit_value(d.last()))
            },
        }
    }
}

/// The value of `s` read as an unsigned decimal number: an optional `'+'`
/// and one or more digits, at most `u16::MAX`.
pub open spec fn parse_number(s: Seq<char>) -> Result<u16, NumberError> {
    if s.len() == 0 {
        Err(NumberError::Empty)
    } else {
        let d = if s[0] == '+' {
            s.drop_first()
        } else {
            s
        };
        if d.len() == 0 {
            Err(NumberError::InvalidDigit)
        } else {
            match scan_digits(d) {
                Ok(v) => Ok(v as u16),
                Err(e) => Err(e),
            }
        }
    }
}

/// The error of the first of `parts[..n]` that is not a number, if any.
pub open spec fn first_number_error(parts: Seq<Seq<char>>, n: int) -> Option<NumberError>
    decreases n,
{
    if n <= 0 {
        None
    } else {
        match first_number_error(parts, n - 1) {
            Some(e) => Some(e),
            None => match parse_number(parts[n - 1]) {
                Err(e) => Some(e),
                Ok(_) => None,
            },
        }
    }
}

/// The semantic version that `s` spells, split at `'.'`.
pub open spec fn parse_sem_ver(s: Seq<char>) -> Result<SemVer, SemVerParseError> {
    let parts = split_on(s, '.');
    match first_number_error(parts, parts.len() as int) {
        Some(e) => Err(SemVerParseError::ParseIntError(e)),
        None => if parts.len() == 3 {
            Ok(
                SemVer {
                    major: parse_number(parts[0])->Ok_0,
                    minor: parse_number(parts[1])->Ok_0,
                    patch: parse_number(parts[2])->Ok_0,
                },
            )
        } else {
            Err(SemVerParseError::IllegalComponentCount(parts.len() as usize))
        },
    }
}

/// Reads `s` as a decimal number (see `parse_number`).
pub fn parse_u16(s: &Vec<char>) -> (r: Result<u16, NumberError>)
    ensures
        r == parse_number(s@),
{
    if s.len() == 0 {
        return Err(NumberError::Empty);
    }
    let start: usize = if s[0] == '+' {
        1
    } else {
        0
    };
    let ghost d = if s@[0] == '+' {
        s@.drop_first()
    } else {
        s@
    };
    assert(d =~= s@.subrange(start as int, s@.len() as int));
    if start == s.len() {
        return Err(NumberError::InvalidDigit);
    }
    let mut value: u32 = 0;
    let mut i: usize = start;
    while i < s.len()
        invariant
            start <= i <= s.len(),
            start < s.len(),
            d == s@.subrange(start as int, s@.len() as int),
            d == (if s@[0] == '+' {
                s@.drop_first()
            } else {
                s@
            }),
            scan_digits(s@.subrange(start as int, i as int)) == Ok::<nat, NumberError>(
                value as nat,
            ),
            value <= u16::MAX,
        decreases s.len() - i,
    {
        let ghost prefix = s@.subrange(start as int, i + 1);
        assert(prefix.drop_last() =~= s@.subrange(start as int, i as int));
        let c = s[i];
        if !('0' <= c && c <= '9') {
            proof {
                assert(prefix.last() == c);
                assert(s@.subrange(start as int, s@.len() as int).subrange(0, i + 1 - start)
                    =~= prefix);
                lemma_scan_error_stays(s@.subrange(start as int, s@.len() as int), i + 1 - start);
            }
            return Err(NumberError::InvalidDigit);
        }
        let digit: u32 = (c as u32) - 48;
        let next: u32 = value * 10 + digit;
        if next > 65535 {
            proof {
                assert(prefix.last() == c);
                assert(s@.subrange(start as int, s@.len() as int).subrange(0, i + 1 - start)
                    =~= prefix);
                lemma_scan_error_stays(s@.subrange(start as int, s@.len() as int), i + 1 - start);
            }
            return Err(NumberError::PosOverflow);
        }
        assert(prefix.last() == c);
        value = next;
        i = i + 1;
    }
    assert(s@.subrange(start as int, i as int) =~= d);
    Ok(value as u16)
}

/// Once the scan of a prefix fails, the scan of the whole fails the same way.
proof fn lemma_scan_error_stays(d: Seq<char>, k: int)
    requires
        0 <= k <= d.len(),
        scan_digits(d.subrange(0, k)) is Err,
    ensures
        scan_digits(d) == scan_digits(d.subrange(0, k)),
    decreases d.len() - k,
{
    if k < d.len() {
        assert(d.subrange(0, k + 1).drop_last() =~= d.subrange(0, k));
        lemma_scan_error_stays(d, k + 1);
    } else {
        assert(d.subrange(0, k) =~= d);
    }
}

impl SemVer {
    /// Reads a version from its text form `"M.N.P"`.
    pub fn parse(s: &str) -> (r: Result<SemVer, SemVerParseError>)
        ensures
            r == parse_sem_ver(s@),
    {
        let chars = chars_of(s);
        let parts = split_chars(&chars, '.');
        let ghost sp = split_on(s@, '.');
        let mut values: Vec<u16> = Vec::new();
        let mut i: usize = 0;
        while i < parts.len()
            invariant
                sp == split_on(s@, '.'),
                parts@.len() == sp.len(),
                forall|j: int| 0 <= j < parts@.len() ==> #[trigger] parts@[j]@ == sp[j],
                i <= parts.len(),
                values@.len() == i,
                first_number_error(sp, i as int) is None,
                forall|j: int|
                    0 <= j < i ==> parse_number(sp[j]) == Ok::<u16, NumberError>(
                        #[trigger] values@[j],
                    ),
            decreases parts.len() - i,
        {
            match parse_u16(&parts[i]) {
                Ok(v) => {
                    values.push(v);
                },
                Err(e) => {
                    proof {
                        assert(parts@[i as int]@ == sp[i as int]);
                        assert(first_number_error(sp, i as int + 1) == Some(e));
                        lemma_first_error_stays(sp, i as int + 1, sp.len() as int);
                        assert(first_number_error(sp, sp.len() as int) == Some(e));
                    }
                    return Err(SemVerParseError::ParseIntError(e));
                },
            }
            i = i + 1;
        }
        if values.len() == 3 {
            Ok(Self::new(values[0], values[1], values[2]))
        } else {
            Err(SemVerParseError::IllegalComponentCount(values.len()))
        }
    }
}

/// Once a first error is found among the first `k` parts, it stays the first.
proof fn lemma_first_error_stays(parts: Seq<Seq<char>>, k: int, n: int)
    requires
        0 <= k <= n,
        first_number_error(parts, k) is Some,
    ensures
        first_number_error(parts, n) == first_number_error(parts, k),
    decreases n - k,
{
    if k < n {
        lemma_first_error_stays(parts, k, n - 1);
    }
}

impl std::str::FromStr for SemVer {
    type Err = SemVerParseError;

    fn from_str(s: &str) -> Result<Self, Self::Err> {
        SemVer::parse(s)
    }
}

} // verus!

verus! {

/// Bumping component `c` of `v` gives a later version: `c` goes up by one,
/// the components above it stay, and those below it are reset to zero.
pub proof fn lemma_bump_increases(v: SemVer, c: SemVerComponent)
    requires
        component_of(v, c) < u16::MAX,
    ensures
        sem_ver_lt(v, bumped(v, c)),
        component_of(bumped(v, c), c) == component_of(v, c) + 1,
        c == SemVerComponent::Major ==> bumped(v, c).minor == 0 && bumped(v, c).patch == 0,
        c == SemVerComponent::Minor ==> bumped(v, c).major == v.major && bumped(v, c).patch == 0,
        c == SemVerComponent::Patch ==> bumped(v, c).major == v.major && bumped(v, c).minor
            == v.minor,
{
}

/// Every character of a decimal form is a digit, and reading it back gives
/// the number.
proof fn lemma_decimal_reads_back(n: nat)
    requires
        n <= u16::MAX,
    ensures
        decimal(n).len() >= 1,
        forall|i: int| 0 <= i < decimal(n).len() ==> is_digit(#[trigger] decimal(n)[i]),
        scan_digits(decimal(n)) == Ok::<nat, NumberError>(n),
        parse_number(decimal(n)) == Ok::<u16, NumberError>(n as u16),
    decreases n,
{
    let d = n % 10;
    assert(is_digit(digit_char(d)) && digit_value(digit_char(d)) == d) by {
        assert(d < 10);
        let b: u8 = (d + 48) as u8;
        assert(b == d + 48);
    }
    if n < 10 {
        assert(decimal(n).drop_last() =~= Seq::<char>::empty());
        assert(decimal(n).last() == digit_char(d));
        assert(scan_digits(Seq::<char>::empty()) == Ok::<nat, NumberError>(0));
        assert(scan_digits(decimal(n)) == Ok::<nat, NumberError>(n));
    } else {
        assert(n / 10 * 10 + d == n);
        lemma_decimal_reads_back(n / 10);
        assert(decimal(n).drop_last() =~= decimal(n / 10));
        assert forall|i: int| 0 <= i < decimal(n).len() implies is_digit(
            #[trigger] decimal(n)[i],
        ) by {
            if i < decimal(n).len() - 1 {
                assert(decimal(n)[i] == decimal(n / 10)[i]);
            }
        }
        assert(decimal(n).last() == digit_char(d));
        assert(scan_digits(decimal(n)) == Ok::<nat, NumberError>(n));
    }
    assert(decimal(n)[0] != '+');
}

/// Splitting `s + t`, where `t` holds no separator, extends the last piece of
/// `s` by `t`.
proof fn lemma_split_extend(s: Seq<char>, t: Seq<char>, sep: char)
    requires
        forall|i: int| 0 <= i < t.len() ==> t[i] != sep,
    ensures
        split_on(s + t, sep) == split_on(s, sep).update(
            split_on(s, sep).len() - 1,
            split_on(s, sep).last() + t,
        ),
        split_on(s, sep).len() >= 1,
    decreases t.len(),
{
    crate::text::lemma_split_on_nonempty(s, sep);
    if t.len() == 0 {
        assert(s + t =~= s);
        assert(split_on(s, sep).last() + t =~= split_on(s, sep).last());
        assert(split_on(s, sep).update(split_on(s, sep).len() - 1, split_on(s, sep).last())
            =~= split_on(s, sep));
    } else {
        lemma_split_extend(s, t.drop_last(), sep);
        assert((s + t).drop_last() =~= s + t.drop_last());
        assert((split_on(s, sep).last() + t.drop_last()).push(t.last()) =~= split_on(
            s,
            sep,
        ).last() + t);
        assert(split_on(s + t, sep) =~= split_on(s, sep).update(
            split_on(s, sep).len() - 1,
            split_on(s, sep).last() + t,
        ));
    }
}

/// Reading the text form of a version gives the version back.
pub proof fn lemma_parse_to_string(v: SemVer)
    ensures
        parse_sem_ver(version_text(v)) == Ok::<SemVer, SemVerParseError>(v),
{
    let a = decimal(v.major as nat);
    let b = decimal(v.minor as nat);
    let c = decimal(v.patch as nat);
    lemma_decimal_reads_back(v.major as nat);
    lemma_decimal_reads_back(v.minor as nat);
    lemma_decimal_reads_back(v.patch as nat);
    let e = Seq::<char>::empty();
    let dot = seq!['.'];
    lemma_split_extend(e, a, '.');
    assert(e + a =~= a);
    assert(split_on(e, '.') =~= seq![e]);
    assert(split_on(a, '.') =~= seq![a]);
    assert((a + dot).drop_last() =~= a);
    assert(split_on(a + dot, '.') =~= seq![a, e]);
    lemma_split_extend(a + dot, b, '.');
    assert(split_on(a + dot + b, '.') =~= seq![a, b]);
    assert((a + dot + b + dot).drop_last() =~= a + dot + b);
    assert(split_on(a + dot + b + dot, '.') =~= seq![a, b, e]);
    lemma_split_extend(a + dot + b + dot, c, '.');
    assert(split_on(a + dot + b + dot + c, '.') =~= seq![a, b, c]);
    assert(version_text(v) == a + dot + b + dot + c);
    let parts = seq![a, b, c];
    assert(first_number_error(parts, 0) is None);
    assert(first_number_error(parts, 1) is None);
    assert(first_number_error(parts, 2) is None);
    assert(first_number_error(parts, 3) is None);
}

} // verus!
