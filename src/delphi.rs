//! Lazarus project files (`.lpi`): the version fields of the
//! `CONFIG/ProjectOptions/VersionInfo` element.

use crate::files::ContentProcessor;
use crate::sem_ver::{component_of, missing_of, SemVer, SemVerComponent, SemVerComponentSet};
use crate::text::{chars_of, decimal, push_decimal, string_of};
use crate::xml_util::{
    events_view, markup_text, parse_markup, parsed_markup, plain_name, with_final_newline, write_markup, ElementPath,
    MarkupAttribute, MarkupEvent, MarkupEventView, QualifiedName, QualifiedNameView, XmlError,
};
use vstd::prelude::*;

verus! {

// ---------------------------------------------------------------------------
// Where the version fields are
// ---------------------------------------------------------------------------

/// The path of the element that holds the version fields.
pub open spec fn version_info_path() -> Seq<Seq<char>> {
    seq!["CONFIG"@, "ProjectOptions"@, "VersionInfo"@]
}

/// The element name of the field for component `c`.
pub open spec fn element_name(c: SemVerComponent) -> Seq<char> {
    match c {
        SemVerComponent::Major => "MajorVersionNr"@,
        SemVerComponent::Minor => "MinorVersionNr"@,
        SemVerComponent::Patch => "RevisionNr"@,
    }
}

/// The path of the field for component `c`.
pub open spec fn component_path(c: SemVerComponent) -> Seq<Seq<char>> {
    version_info_path().push(element_name(c))
}

/// The component whose field `path` leads to, trying major, minor, patch.
pub open spec fn matched_component(path: Seq<Seq<char>>) -> Option<SemVerComponent> {
    if path == component_path(SemVerComponent::Major) {
        Some(SemVerComponent::Major)
    } else if path == component_path(SemVerComponent::Minor) {
        Some(SemVerComponent::Minor)
    } else if path == component_path(SemVerComponent::Patch) {
        Some(SemVerComponent::Patch)
    } else {
        None
    }
}

/// The element name of the field for `component`.
pub fn sem_ver_component_to_element_name(component: SemVerComponent) -> (r: &'static str)
    ensures
        r@ == element_name(component),
{
    match component {
        SemVerComponent::Major => "MajorVersionNr",
        SemVerComponent::Minor => "MinorVersionNr",
        SemVerComponent::Patch => "RevisionNr",
    }
}

/// The path of the version fields' element, followed by `last` if given.
fn version_info_names(last: Option<&'static str>) -> (r: Vec<&'static str>)
    ensures
        r@.map_values(|s: &str| s@) == (match last {
            Some(l) => version_info_path().push(l@),
            None => version_info_path(),
        }),
{
    let mut r: Vec<&'static str> = Vec::new();
    r.push("CONFIG");
    r.push("ProjectOptions");
    r.push("VersionInfo");
    match last {
        Some(l) => r.push(l),
        None => {},
    }
    assert(r@.map_values(|s: &str| s@) =~= (match last {
        Some(l) => version_info_path().push(l@),
        None => version_info_path(),
    }));
    r
}

/// The component whose field `element_path` leads to (see
/// `matched_component`).
pub fn match_sem_ver_element(element_path: &ElementPath) -> (r: Option<SemVerComponent>)
    ensures
        r == matched_component(element_path.names()),
{
    let all = SemVerComponentSet::all();
    let mut i: usize = 0;
    while i < all.len()
        invariant
            all@ == seq![SemVerComponent::Major, SemVerComponent::Minor, SemVerComponent::Patch],
            i <= all.len(),
            forall|j: int| 0 <= j < i ==> element_path.names() != component_path(all@[j]),
        decreases all.len() - i,
    {
        let c = all[i];
        let names = version_info_names(Some(sem_ver_component_to_element_name(c)));
        if element_path.matches(names.as_slice()) {
            return Some(c);
        }
        i = i + 1;
    }
    None
}

// ---------------------------------------------------------------------------
// The rewrite, stated over event models
// ---------------------------------------------------------------------------

/// The path after event `e`, from `path`.
pub open spec fn path_after(path: Seq<Seq<char>>, e: MarkupEventView) -> Seq<Seq<char>> {
    match e {
        MarkupEventView::StartElement { name, .. } => path.push(name.local_name),
        MarkupEventView::EndElement { .. } => if path.len() > 0 {
            path.drop_last()
        } else {
            path
        },
        _ => path,
    }
}

/// The path before event `i`.
pub open spec fn path_before(evs: Seq<MarkupEventView>, i: int) -> Seq<Seq<char>>
    decreases i,
{
    if i <= 0 {
        Seq::empty()
    } else {
        path_after(path_before(evs, i - 1), evs[i - 1])
    }
}

/// The components whose fields start before event `i`.
pub open spec fn found_before(evs: Seq<MarkupEventView>, i: int) -> Set<SemVerComponent>
    decreases i,
{
    if i <= 0 {
        Set::empty()
    } else {
        let earlier = found_before(evs, i - 1);
        if evs[i - 1] is StartElement {
            match matched_component(path_before(evs, i)) {
                Some(c) => earlier.insert(c),
                None => earlier,
            }
        } else {
            earlier
        }
    }
}

/// The position of the first attribute whose local name is `Value`, or the
/// number of attributes.
pub open spec fn value_index(attrs: Seq<(QualifiedNameView, Seq<char>)>) -> nat
    decreases attrs.len(),
{
    if attrs.len() == 0 {
        0
    } else if attrs[0].0.local_name == "Value"@ {
        0
    } else {
        1 + value_index(attrs.drop_first())
    }
}

/// `attrs` with the first `Value` attribute set to `value`, or with a
/// `Value` attribute added at the end if there is none.
pub open spec fn with_value(attrs: Seq<(QualifiedNameView, Seq<char>)>, value: Seq<char>) -> Seq<
    (QualifiedNameView, Seq<char>),
> {
    let k = value_index(attrs);
    if k < attrs.len() {
        attrs.update(k as int, (attrs[k as int].0, value))
    } else {
        attrs.push((plain_name("Value"@), value))
    }
}

/// The empty field element for component `c`, with its value from `v`.
pub open spec fn field_events(c: SemVerComponent, v: SemVer) -> Seq<MarkupEventView> {
    seq![
        MarkupEventView::StartElement {
            name: plain_name(element_name(c)),
            attributes: seq![(plain_name("Value"@), decimal(component_of(v, c) as nat))],
            namespace: None,
        },
        MarkupEventView::EndElement { name: None },
    ]
}

/// The field elements for the components `cs`, in order.
pub open spec fn fields_events(cs: Seq<SemVerComponent>, v: SemVer) -> Seq<MarkupEventView>
    decreases cs.len(),
{
    if cs.len() == 0 {
        Seq::empty()
    } else {
        fields_events(cs.drop_last(), v) + field_events(cs.last(), v)
    }
}

/// What event `i` of `evs` becomes: a field's start gets its `Value`; the
/// end of the version fields' element is preceded by the fields that were
/// missing; whitespace goes; anything else stays.
pub open spec fn rewritten_event(evs: Seq<MarkupEventView>, i: int, v: SemVer) -> Seq<
    MarkupEventView,
> {
    match evs[i] {
        MarkupEventView::StartElement { name, attributes, namespace } => match matched_component(
            path_before(evs, i + 1),
        ) {
            Some(c) => seq![
                MarkupEventView::StartElement {
                    name,
                    attributes: with_value(attributes, decimal(component_of(v, c) as nat)),
                    namespace: None,
                },
            ],
            None => seq![evs[i]],
        },
        MarkupEventView::EndElement { .. } => (if path_before(evs, i) == version_info_path() {
            fields_events(missing_of(found_before(evs, i)), v)
        } else {
            Seq::empty()
        }) + seq![evs[i]],
        MarkupEventView::Whitespace { .. } => Seq::empty(),
        MarkupEventView::Other { .. } => seq![evs[i]],
    }
}

/// What the first `n` events become.
pub open spec fn rewritten_upto(evs: Seq<MarkupEventView>, n: int, v: SemVer) -> Seq<
    MarkupEventView,
>
    decreases n,
{
    if n <= 0 {
        Seq::empty()
    } else {
        rewritten_upto(evs, n - 1, v) + rewritten_event(evs, n - 1, v)
    }
}

/// What the events `evs` become when the version is set to `v`.
pub open spec fn rewritten(evs: Seq<MarkupEventView>, v: SemVer) -> Seq<MarkupEventView> {
    rewritten_upto(evs, evs.len() as int, v)
}

// ---------------------------------------------------------------------------
// The rewrite
// ---------------------------------------------------------------------------

/// The items of `v` in reverse order.
fn reversed<T>(v: Vec<T>) -> (r: Vec<T>)
    ensures
        r@.len() == v@.len(),
        forall|j: int| 0 <= j < v@.len() ==> #[trigger] r@[j] == v@[v@.len() - 1 - j],
{
    let ghost orig = v@;
    let mut v = v;
    let mut r: Vec<T> = Vec::new();
    while v.len() > 0
        invariant
            v@.len() + r@.len() == orig.len(),
            v@ == orig.subrange(0, v@.len() as int),
            forall|j: int| 0 <= j < r@.len() ==> #[trigger] r@[j] == orig[orig.len() - 1 - j],
        decreases v.len(),
    {
        let x = v.pop().unwrap();
        r.push(x);
    }
    r
}

proof fn lemma_value_index(attrs: Seq<(QualifiedNameView, Seq<char>)>, k: int)
    requires
        0 <= k <= attrs.len(),
        forall|j: int| 0 <= j < k ==> attrs[j].0.local_name != "Value"@,
        k < attrs.len() ==> attrs[k].0.local_name == "Value"@,
    ensures
        value_index(attrs) == k,
    decreases attrs.len(),
{
    if attrs.len() > 0 && attrs[0].0.local_name != "Value"@ {
        lemma_value_index(attrs.drop_first(), k - 1);
    }
}

/// `attributes` with the first `Value` attribute set to `value`, or with a
/// `Value` attribute added at the end (see `with_value`). All other
/// attributes stay, in their order.
pub fn add_or_update_attribute(attributes: Vec<MarkupAttribute>, value: &Vec<char>) -> (r: Vec<
    MarkupAttribute,
>)
    ensures
        r@.map_values(|a: MarkupAttribute| a@) == with_value(
            attributes@.map_values(|a: MarkupAttribute| a@),
            value@,
        ),
{
    let ghost attrs = attributes@.map_values(|a: MarkupAttribute| a@);
    let n = attributes.len();
    let mut rest = reversed(attributes);
    let value_name = chars_of("Value");
    let mut out: Vec<MarkupAttribute> = Vec::new();
    let mut found: bool = false;
    let mut i: usize = 0;
    let ghost mut k: int = 0;
    while i < n
        invariant
            attrs.len() == n,
            value_name@ == "Value"@,
            rest@.len() == n - i,
            forall|j: int| 0 <= j < rest@.len() ==> #[trigger] rest@[j]@ == attrs[n - 1 - j],
            i <= n,
            out@.len() == i,
            !found ==> forall|j: int| 0 <= j < i ==> attrs[j].0.local_name != "Value"@,
            found ==> 0 <= k < i && attrs[k].0.local_name == "Value"@ && forall|j: int|
                0 <= j < k ==> attrs[j].0.local_name != "Value"@,
            forall|j: int|
                0 <= j < i ==> #[trigger] out@[j]@ == (if found && j == k {
                    (attrs[j].0, value@)
                } else {
                    attrs[j]
                }),
        decreases n - i,
    {
        let a = rest.pop().unwrap();
        assert(a@ == attrs[i as int]);
        let own = chars_of(a.name.local_name.as_str());
        if !found && crate::text::chars_equal(&own, &value_name) {
            found = true;
            proof {
                k = i as int;
            }
            out.push(MarkupAttribute { name: a.name, value: string_of(value) });
        } else {
            out.push(a);
        }
        i = i + 1;
    }
    if !found {
        out.push(MarkupAttribute { name: QualifiedName::plain("Value"), value: string_of(value) });
        proof {
            lemma_value_index(attrs, n as int);
        }
    } else {
        proof {
            lemma_value_index(attrs, k);
        }
    }
    assert(out@.map_values(|a: MarkupAttribute| a@) =~= with_value(attrs, value@));
    out
}

/// The decimal text of component `c` of `v`.
fn component_text(v: SemVer, c: SemVerComponent) -> (r: Vec<char>)
    ensures
        r@ == decimal(component_of(v, c) as nat),
{
    let mut r: Vec<char> = Vec::new();
    push_decimal(&mut r, v.get_component(c) as u64);
    assert(r@ =~= decimal(component_of(v, c) as nat));
    r
}

/// Appends the empty field element for each of `missing`, in order.
fn push_missing_fields(out: &mut Vec<MarkupEvent>, missing: &Vec<SemVerComponent>, v: SemVer)
    ensures
        events_view(final(out)@) == events_view(old(out)@) + fields_events(missing@, v),
{
    let mut i: usize = 0;
    while i < missing.len()
        invariant
            i <= missing.len(),
            events_view(out@) == events_view(old(out)@) + fields_events(
                missing@.subrange(0, i as int),
                v,
            ),
        decreases missing.len() - i,
    {
        let c = missing[i];
        let value = component_text(v, c);
        let mut attributes: Vec<MarkupAttribute> = Vec::new();
        attributes.push(MarkupAttribute { name: QualifiedName::plain("Value"), value: string_of(&value) });
        let start = MarkupEvent::StartElement {
            name: QualifiedName::plain(sem_ver_component_to_element_name(c)),
            attributes,
            namespace: None,
        };
        let ghost before = out@;
        out.push(start);
        out.push(MarkupEvent::EndElement { name: None });
        proof {
            assert(missing@.subrange(0, i + 1).drop_last() =~= missing@.subrange(0, i as int));
            assert(attributes@.map_values(|a: MarkupAttribute| a@) =~= seq![
                (plain_name("Value"@), decimal(component_of(v, c) as nat)),
            ]);
            assert(events_view(out@) =~= events_view(before) + field_events(c, v));
            assert(events_view(out@) =~= events_view(old(out)@) + fields_events(
                missing@.subrange(0, i + 1),
                v,
            ));
        }
        i = i + 1;
    }
    assert(missing@.subrange(0, i as int) =~= missing@);
}

/// The events rewritten for version `version` (see `rewritten`).
pub fn rewrite_markup(events: Vec<MarkupEvent>, version: SemVer) -> (r: Vec<MarkupEvent>)
    ensures
        events_view(r@) == rewritten(events_view(events@), version),
{
    let ghost evs = events_view(events@);
    let n = events.len();
    let mut rest = reversed(events);
    let mut element_path = ElementPath::Empty;
    let mut found = SemVerComponentSet::new();
    let mut out: Vec<MarkupEvent> = Vec::new();
    let mut i: usize = 0;
    while i < n
        invariant
            evs.len() == n,
            rest@.len() == n - i,
            forall|j: int| 0 <= j < rest@.len() ==> #[trigger] rest@[j]@ == evs[n - 1 - j],
            i <= n,
            element_path.names() == path_before(evs, i as int),
            found@ == found_before(evs, i as int),
            events_view(out@) == rewritten_upto(evs, i as int, version),
        decreases n - i,
    {
        let event = rest.pop().unwrap();
        assert(event@ == evs[i as int]);
        let ghost before = out@;
        match event {
            MarkupEvent::StartElement { name, attributes, namespace } => {
                element_path = element_path.push(name.local_name.as_str());
                assert(element_path.names() == path_before(evs, i + 1));
                match match_sem_ver_element(&element_path) {
                    Some(c) => {
                        found.insert(c);
                        let value = component_text(version, c);
                        let attributes = add_or_update_attribute(attributes, &value);
                        let e = MarkupEvent::StartElement { name, attributes, namespace: None };
                        assert(seq![e@] =~= rewritten_event(evs, i as int, version));
                        out.push(e);
                    },
                    None => {
                        let e = MarkupEvent::StartElement { name, attributes, namespace };
                        assert(seq![e@] =~= rewritten_event(evs, i as int, version));
                        out.push(e);
                    },
                }
            },
            MarkupEvent::EndElement { name } => {
                let vi = version_info_names(None);
                let is_popping_version_info = element_path.matches(vi.as_slice());
                element_path = element_path.pop();
                if is_popping_version_info {
                    let missing = found.missing();
                    push_missing_fields(&mut out, &missing, version);
                }
                let ghost middle = out@;
                let e = MarkupEvent::EndElement { name };
                assert(e@ == evs[i as int]);
                out.push(e);
                assert(events_view(out@) =~= events_view(middle) + seq![e@]);
            },
            MarkupEvent::Whitespace { .. } => {},
            MarkupEvent::Other { event } => {
                let e = MarkupEvent::Other { event };
                assert(e@ == evs[i as int]);
                out.push(e);
            },
        }
        proof {
            assert(events_view(out@) =~= events_view(before) + rewritten_event(
                evs,
                i as int,
                version,
            ));
        }
        i = i + 1;
    }
    out
}

/// The text of a Lazarus project with its version fields set to `v`
/// (see `process_str`), or `None` where parsing or writing fails.
pub open spec fn lpi_output(text: Seq<char>, v: SemVer) -> Option<Seq<char>> {
    match parsed_markup(text) {
        Some(evs) => match markup_text(rewritten(evs, v)) {
            Some(t) => Some(with_final_newline(t)),
            None => None,
        },
        None => None,
    }
}

/// The text of a Lazarus project with its version fields set to
/// `version`: parsed (see `parsed_markup`), rewritten (see `rewritten`),
/// written back indented (see `markup_text`), and ending with a newline.
/// Malformed markup is a read error.
pub fn process_str(old_contents: &str, version: SemVer) -> (r: Result<String, XmlError>)
    ensures
        parsed_markup(old_contents@) is None ==> (r matches Err(e) && e is ReadError),
        r is Ok <==> lpi_output(old_contents@, version) is Some,
        r matches Ok(s) ==> lpi_output(old_contents@, version) == Some(s@),
{
    let events = parse_markup(old_contents)?;
    let rewritten = rewrite_markup(events, version);
    let text = write_markup(&rewritten)?;
    Ok(ensure_final_newline(text))
}

/// `text`, with a `'\n'` added unless it ends with one.
pub fn ensure_final_newline(text: String) -> (r: String)
    ensures
        r@ == with_final_newline(text@),
{
    let mut chars = chars_of(text.as_str());
    let n = chars.len();
    if n > 0 && chars[n - 1] == '\n' {
        text
    } else {
        chars.push('\n');
        string_of(&chars)
    }
}

/// Sets the version fields of Lazarus `.lpi` project files.
pub struct LpiUpdater {}

impl ContentProcessor for LpiUpdater {
    type Err = XmlError;

    open spec fn output(&self, old: Seq<char>, v: SemVer) -> Option<Seq<char>> {
        lpi_output(old, v)
    }

    fn process(&self, old_contents: &str, version: SemVer) -> Result<String, XmlError> {
        process_str(old_contents, version)
    }
}

} // verus!

verus! {

// ---------------------------------------------------------------------------
// Rewriting twice
// ---------------------------------------------------------------------------

/// Some element closed the version fields' element before event `n`.
pub open spec fn version_info_closed_before(evs: Seq<MarkupEventView>, n: int) -> bool
    decreases n,
{
    if n <= 0 {
        false
    } else {
        version_info_closed_before(evs, n - 1) || (evs[n - 1] is EndElement && path_before(
            evs,
            n - 1,
        ) == version_info_path())
    }
}

proof fn lemma_value_index_props(attrs: Seq<(QualifiedNameView, Seq<char>)>)
    ensures
        value_index(attrs) <= attrs.len(),
        forall|j: int| 0 <= j < value_index(attrs) ==> attrs[j].0.local_name != "Value"@,
        value_index(attrs) < attrs.len() ==> attrs[value_index(attrs) as int].0.local_name
            == "Value"@,
    decreases attrs.len(),
{
    if attrs.len() > 0 && attrs[0].0.local_name != "Value"@ {
        let rest = attrs.drop_first();
        lemma_value_index_props(rest);
        assert forall|j: int| 0 <= j < value_index(attrs) implies attrs[j].0.local_name
            != "Value"@ by {
            if j > 0 {
                assert(attrs[j] == rest[j - 1]);
            }
        }
    }
}

proof fn lemma_with_value_twice(attrs: Seq<(QualifiedNameView, Seq<char>)>, x: Seq<char>)
    ensures
        with_value(with_value(attrs, x), x) == with_value(attrs, x),
{
    let k = value_index(attrs);
    let once = with_value(attrs, x);
    lemma_value_index_props(attrs);
    reveal_strlit("Value");
    if k < attrs.len() {
        assert forall|j: int| 0 <= j < k implies once[j].0.local_name != "Value"@ by {}
        lemma_value_index(once, k as int);
        assert(once.update(k as int, (once[k as int].0, x)) =~= once);
    } else {
        assert forall|j: int| 0 <= j < attrs.len() implies once[j].0.local_name
            != "Value"@ by {}
        lemma_value_index(once, attrs.len() as int);
        assert(once.update(attrs.len() as int, (once[attrs.len() as int].0, x)) =~= once);
    }
}

proof fn lemma_component_paths()
    ensures
        forall|c: SemVerComponent| #[trigger] matched_component(component_path(c)) == Some(c),
        forall|c: SemVerComponent| #[trigger] component_path(c) != version_info_path(),
        matched_component(version_info_path()) is None,
{
    reveal_strlit("MajorVersionNr");
    reveal_strlit("MinorVersionNr");
    reveal_strlit("RevisionNr");
    let ma = component_path(SemVerComponent::Major);
    let mi = component_path(SemVerComponent::Minor);
    let pa = component_path(SemVerComponent::Patch);
    assert(ma[3][1] != mi[3][1]);
    assert(ma[3].len() != pa[3].len());
    assert(mi[3].len() != pa[3].len());
    assert forall|c: SemVerComponent| #[trigger] component_path(c) != version_info_path() by {
        assert(component_path(c).len() != version_info_path().len());
    }
}

proof fn lemma_missing_of(s: Set<SemVerComponent>)
    ensures
        s.contains(SemVerComponent::Major) && s.contains(SemVerComponent::Minor) && s.contains(
            SemVerComponent::Patch,
        ) ==> missing_of(s) == Seq::<SemVerComponent>::empty(),
        forall|c: SemVerComponent| !s.contains(c) ==> #[trigger] missing_of(s).contains(c),
{
    let a = if s.contains(SemVerComponent::Major) {
        Seq::empty()
    } else {
        seq![SemVerComponent::Major]
    };
    let b = if s.contains(SemVerComponent::Minor) {
        Seq::empty()
    } else {
        seq![SemVerComponent::Minor]
    };
    let c = if s.contains(SemVerComponent::Patch) {
        Seq::empty()
    } else {
        seq![SemVerComponent::Patch]
    };
    assert(missing_of(s) == a + b + c);
    assert forall|x: SemVerComponent| !s.contains(x) implies #[trigger] missing_of(s).contains(x) by {
        match x {
            SemVerComponent::Major => {
                assert((a + b + c)[0] == x);
            },
            SemVerComponent::Minor => {
                assert((a + b + c)[a.len() as int] == x);
            },
            SemVerComponent::Patch => {
                assert((a + b + c)[(a.len() + b.len()) as int] == x);
            },
        }
    }
    if s.contains(SemVerComponent::Major) && s.contains(SemVerComponent::Minor) && s.contains(
        SemVerComponent::Patch,
    ) {
        assert(a + b + c =~= Seq::<SemVerComponent>::empty());
    }
}

proof fn lemma_fields_events_len(cs: Seq<SemVerComponent>, v: SemVer)
    ensures
        fields_events(cs, v).len() == 2 * cs.len(),
    decreases cs.len(),
{
    if cs.len() > 0 {
        lemma_fields_events_len(cs.drop_last(), v);
    }
}

/// The rewrite of the first `m` events is a prefix of that of the first `n`.
proof fn lemma_rewritten_prefix(evs: Seq<MarkupEventView>, m: int, n: int, v: SemVer)
    requires
        0 <= m <= n,
    ensures
        rewritten_upto(evs, m, v).len() <= rewritten_upto(evs, n, v).len(),
        rewritten_upto(evs, n, v).subrange(0, rewritten_upto(evs, m, v).len() as int)
            == rewritten_upto(evs, m, v),
    decreases n - m,
{
    if m < n {
        lemma_rewritten_prefix(evs, m, n - 1, v);
        let a = rewritten_upto(evs, m, v);
        let b = rewritten_upto(evs, n - 1, v);
        assert((b + rewritten_event(evs, n - 1, v)).subrange(0, a.len() as int) =~= b.subrange(
            0,
            a.len() as int,
        ));
    } else {
        assert(rewritten_upto(evs, n, v).subrange(0, rewritten_upto(evs, n, v).len() as int)
            =~= rewritten_upto(evs, n, v));
    }
}

/// Reading the fields `cs` a second time, at the version fields' element:
/// they come back as they are, and their components are found.
proof fn lemma_fields_again(o: Seq<MarkupEventView>, q: int, cs: Seq<SemVerComponent>, v: SemVer)
    requires
        0 <= q,
        q + 2 * cs.len() <= o.len(),
        o.subrange(q, q + 2 * cs.len()) == fields_events(cs, v),
        path_before(o, q) == version_info_path(),
    ensures
        rewritten_upto(o, q + 2 * cs.len(), v) == rewritten_upto(o, q, v) + fields_events(cs, v),
        path_before(o, q + 2 * cs.len()) == version_info_path(),
        forall|c: SemVerComponent| #[trigger] found_before(o, q + 2 * cs.len()).contains(c) <==> (
        found_before(o, q).contains(c) || cs.contains(c)),
    decreases cs.len(),
{
    lemma_fields_events_len(cs, v);
    if cs.len() > 0 {
        let m = cs.len() - 1;
        let c = cs.last();
        let init = cs.drop_last();
        lemma_fields_events_len(init, v);
        assert(o.subrange(q, q + 2 * m) =~= fields_events(cs, v).subrange(0, 2 * m));
        assert(fields_events(cs, v).subrange(0, 2 * m) =~= fields_events(init, v));
        lemma_fields_again(o, q, init, v);
        let r = q + 2 * m;
        assert(o[r] == fields_events(cs, v)[2 * m]);
        assert(o[r + 1] == fields_events(cs, v)[2 * m + 1]);
        assert(o[r] == field_events(c, v)[0]);
        assert(o[r + 1] == field_events(c, v)[1]);
        lemma_component_paths();
        assert(path_before(o, r + 1) == component_path(c));
        reveal_strlit("Value");
        let attrs = seq![(plain_name("Value"@), decimal(component_of(v, c) as nat))];
        lemma_value_index(attrs, 0);
        assert(with_value(attrs, decimal(component_of(v, c) as nat)) =~= attrs);
        assert(rewritten_event(o, r, v) =~= seq![o[r]]);
        assert(rewritten_event(o, r + 1, v) =~= seq![o[r + 1]]);
        assert(path_before(o, r + 2) =~= version_info_path());
        assert(fields_events(cs, v) == fields_events(init, v) + field_events(c, v));
        assert(r == q + 2 * init.len());
        assert(rewritten_upto(o, r, v) == rewritten_upto(o, q, v) + fields_events(init, v));
        assert(rewritten_upto(o, r + 1, v) == rewritten_upto(o, r, v) + rewritten_event(o, r, v));
        assert(rewritten_upto(o, r + 2, v) == rewritten_upto(o, r + 1, v) + rewritten_event(
            o,
            r + 1,
            v,
        ));
        assert(field_events(c, v) =~= seq![o[r], o[r + 1]]);
        assert(rewritten_upto(o, r + 2, v) =~= rewritten_upto(o, q, v) + fields_events(cs, v));
        assert(found_before(o, r + 1) == found_before(o, r).insert(c));
        assert(found_before(o, r + 2) == found_before(o, r + 1));
        assert forall|x: SemVerComponent| #[trigger] found_before(o, r + 2).contains(x) <==> (
        found_before(o, q).contains(x) || cs.contains(x)) by {
            if init.contains(x) {
                let k = choose|k: int| 0 <= k < init.len() && init[k] == x;
                assert(cs[k] == x);
            }
            if cs.contains(x) && x != c {
                let k = choose|k: int| 0 <= k < cs.len() && cs[k] == x;
                assert(k < m);
                assert(init[k] == x);
            }
            assert(cs[m] == c);
            assert(found_before(o, r).contains(x) <==> (found_before(o, q).contains(x)
                || init.contains(x)));
        }
    } else {
        assert(fields_events(cs, v) =~= Seq::<MarkupEventView>::empty());
        assert(rewritten_upto(o, q, v) + Seq::<MarkupEventView>::empty() =~= rewritten_upto(o, q, v));
    }
}

} // verus!

verus! {

/// Reading the rewritten events a second time: the part that came from the
/// first `n` events comes back as it is, at the same element path, with
/// every component found once the version fields' element has closed.
proof fn lemma_second_pass(evs: Seq<MarkupEventView>, v: SemVer, n: int)
    requires
        0 <= n <= evs.len(),
    ensures
        rewritten_upto(evs, n, v).len() <= rewritten(evs, v).len(),
        rewritten_upto(rewritten(evs, v), rewritten_upto(evs, n, v).len() as int, v)
            == rewritten_upto(evs, n, v),
        path_before(rewritten(evs, v), rewritten_upto(evs, n, v).len() as int) == path_before(
            evs,
            n,
        ),
        forall|c: SemVerComponent| #[trigger]
            found_before(rewritten(evs, v), rewritten_upto(evs, n, v).len() as int).contains(c)
                <==> (version_info_closed_before(evs, n) || found_before(evs, n).contains(c)),
    decreases n,
{
    let o = rewritten(evs, v);
    lemma_rewritten_prefix(evs, n, evs.len() as int, v);
    if n > 0 {
        let k = n - 1;
        lemma_second_pass(evs, v, k);
        let before = rewritten_upto(evs, k, v);
        let p = before.len() as int;
        let chunk = rewritten_event(evs, k, v);
        assert(rewritten_upto(evs, n, v) == before + chunk);
        assert(o.subrange(0, p + chunk.len()) == before + chunk);
        assert forall|j: int| 0 <= j < chunk.len() implies o[p + j] == chunk[j] by {
            assert(o.subrange(0, p + chunk.len())[p + j] == (before + chunk)[p + j]);
        }
        lemma_component_paths();
        match evs[k] {
            MarkupEventView::StartElement { name, attributes, namespace } => {
                assert(o[p] == chunk[0]);
                assert(path_before(o, p + 1) == path_before(evs, n));
                match matched_component(path_before(evs, n)) {
                    Some(c) => {
                        lemma_with_value_twice(attributes, decimal(component_of(v, c) as nat));
                    },
                    None => {},
                }
                assert(rewritten_event(o, p, v) =~= chunk);
                assert(rewritten_upto(o, p + 1, v) == rewritten_upto(o, p, v) + rewritten_event(
                    o,
                    p,
                    v,
                ));
                assert(found_before(o, p + 1) == (match matched_component(path_before(o, p + 1)) {
                    Some(c) => found_before(o, p).insert(c),
                    None => found_before(o, p),
                }));
            },
            MarkupEventView::EndElement { .. } => {
                if path_before(evs, k) == version_info_path() {
                    let cs = missing_of(found_before(evs, k));
                    lemma_fields_events_len(cs, v);
                    assert(chunk == fields_events(cs, v) + seq![evs[k]]);
                    assert(o.subrange(p, p + 2 * cs.len()) =~= fields_events(cs, v)) by {
                        assert forall|j: int| 0 <= j < 2 * cs.len() implies o.subrange(
                            p,
                            p + 2 * cs.len(),
                        )[j] == fields_events(cs, v)[j] by {
                            assert(o[p + j] == chunk[j]);
                        }
                    }
                    lemma_fields_again(o, p, cs, v);
                    let q = p + 2 * cs.len();
                    assert(o[q] == chunk[(2 * cs.len()) as int]);
                    assert(o[q] == evs[k]);
                    lemma_missing_of(found_before(evs, k));
                    let f = found_before(o, q);
                    assert(f.contains(SemVerComponent::Major));
                    assert(f.contains(SemVerComponent::Minor));
                    assert(f.contains(SemVerComponent::Patch));
                    lemma_missing_of(f);
                    assert(fields_events(missing_of(f), v) =~= Seq::<MarkupEventView>::empty());
                    assert(rewritten_event(o, q, v) =~= seq![evs[k]]);
                    assert(rewritten_upto(o, q + 1, v) == rewritten_upto(o, q, v) + rewritten_event(
                        o,
                        q,
                        v,
                    ));
                    assert(rewritten_upto(o, q + 1, v) =~= rewritten_upto(evs, n, v));
                    assert(found_before(o, q + 1) == f);
                    assert(version_info_closed_before(evs, n));
                } else {
                    assert(chunk =~= seq![evs[k]]);
                    assert(o[p] == chunk[0]);
                    assert(o[p] == evs[k]);
                    assert(rewritten_event(o, p, v) =~= chunk);
                    assert(rewritten_upto(o, p + 1, v) == rewritten_upto(o, p, v)
                        + rewritten_event(o, p, v));
                    assert(found_before(o, p + 1) == found_before(o, p));
                }
            },
            MarkupEventView::Whitespace { .. } => {
                assert(chunk =~= Seq::<MarkupEventView>::empty());
                assert(rewritten_upto(evs, n, v) =~= before);
            },
            MarkupEventView::Other { .. } => {
                assert(chunk =~= seq![evs[k]]);
                assert(o[p] == chunk[0]);
                assert(o[p] == evs[k]);
                assert(rewritten_event(o, p, v) =~= chunk);
                assert(rewritten_upto(o, p + 1, v) == rewritten_upto(o, p, v) + rewritten_event(
                    o,
                    p,
                    v,
                ));
                assert(found_before(o, p + 1) == found_before(o, p));
            },
        }
    }
}

/// Rewriting is idempotent: rewriting the rewritten events again, for the
/// same version, gives them back unchanged.
pub proof fn lemma_rewrite_idempotent(evs: Seq<MarkupEventView>, v: SemVer)
    ensures
        rewritten(rewritten(evs, v), v) == rewritten(evs, v),
{
    lemma_second_pass(evs, v, evs.len() as int);
}

} // verus!

verus! {

/// Missing fields are inserted in the order major, minor, patch: when only
/// the minor field was found before the version fields' element closes, the
/// major field and then the patch field are written just before it closes,
/// each with its component of `v`.
pub proof fn lemma_missing_fields_in_order(evs: Seq<MarkupEventView>, i: int, v: SemVer)
    requires
        0 <= i < evs.len(),
        evs[i] is EndElement,
        path_before(evs, i) == version_info_path(),
        found_before(evs, i) == set![SemVerComponent::Minor],
    ensures
        rewritten_event(evs, i, v) == field_events(SemVerComponent::Major, v) + field_events(
            SemVerComponent::Patch,
            v,
        ) + seq![evs[i]],
{
    let f = found_before(evs, i);
    assert(!f.contains(SemVerComponent::Major));
    assert(!f.contains(SemVerComponent::Patch));
    assert(missing_of(f) =~= seq![SemVerComponent::Major, SemVerComponent::Patch]);
    let cs = seq![SemVerComponent::Major, SemVerComponent::Patch];
    assert(cs.drop_last() =~= seq![SemVerComponent::Major]);
    assert(cs.drop_last().drop_last() =~= Seq::<SemVerComponent>::empty());
    let one = cs.drop_last();
    assert(one.last() == SemVerComponent::Major);
    assert(fields_events(one.drop_last(), v) =~= Seq::<MarkupEventView>::empty());
    assert(fields_events(one, v) == fields_events(one.drop_last(), v) + field_events(
        SemVerComponent::Major,
        v,
    ));
    assert(fields_events(one, v) =~= field_events(SemVerComponent::Major, v));
    assert(cs.last() == SemVerComponent::Patch);
    assert(fields_events(cs, v) == fields_events(one, v) + field_events(SemVerComponent::Patch, v));
}

} // verus!
