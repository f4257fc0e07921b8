//! Structured markup: the element path of a streaming scan, the library's
//! model of markup events, and the reading and writing of markup text
//! through the `xml` crate.

use crate::text::{chars_equal, chars_of};
use std::borrow::Cow;
use vstd::prelude::*;
use xml::attribute::{Attribute, OwnedAttribute};
use xml::name::{Name, OwnedName};
use xml::namespace::Namespace;
use xml::reader::XmlEvent as ReaderEvent;
use xml::writer::EventWriter;
use xml::writer::XmlEvent as WriterEvent;

verus! {

// ---------------------------------------------------------------------------
// Element paths
// ---------------------------------------------------------------------------

/// The names of the open elements, from the root to the current one.
pub enum ElementPath {
    /// An empty path.
    Empty,
    /// A leaf element, along side its ancestor path.
    Leaf(String, Box<ElementPath>),
}

impl ElementPath {
    /// The names of the path, root first.
    pub open spec fn names(&self) -> Seq<Seq<char>>
        decreases self,
    {
        match self {
            ElementPath::Empty => Seq::empty(),
            ElementPath::Leaf(name, parent) => parent.names().push(name@),
        }
    }

    /// Pushes a new item to the path. The current path becomes the ancestor
    /// path of the result.
    pub fn push(self, name: &str) -> (r: Self)
        ensures
            r.names() == self.names().push(name@),
    {
        let owned = name.to_owned();
        ElementPath::Leaf(owned, Box::new(self))
    }

    /// Discards the last item of the path; an empty path stays empty.
    pub fn pop(self) -> (r: Self)
        ensures
            r.names() == (if self.names().len() > 0 {
                self.names().drop_last()
            } else {
                self.names()
            }),
    {
        match self {
            ElementPath::Empty => ElementPath::Empty,
            ElementPath::Leaf(_, parent) => {
                assert(self.names().drop_last() =~= parent.names());
                *parent
            },
        }
    }

    /// Whether the path is exactly `names`, read from parent to child.
    /// The comparison is case sensitive.
    pub fn matches(&self, names: &[&str]) -> (r: bool)
        ensures
            r == (self.names() == names@.map_values(|s: &str| s@)),
    {
        let r = self.matches_first(names, names.len());
        assert(names@.subrange(0, names@.len() as int) =~= names@);
        r
    }

    /// Whether the path is exactly `names[..n]`.
    fn matches_first(&self, names: &[&str], n: usize) -> (r: bool)
        requires
            n <= names@.len(),
        ensures
            r == (self.names() == names@.subrange(0, n as int).map_values(|s: &str| s@)),
        decreases self,
    {
        let ghost want = names@.subrange(0, n as int).map_values(|s: &str| s@);
        match self {
            ElementPath::Empty => {
                assert(n > 0 ==> want.len() > 0);
                if n == 0 {
                    assert(want =~= Seq::<Seq<char>>::empty());
                }
                n == 0
            },
            ElementPath::Leaf(name, parent) => {
                if n == 0 {
                    return false;
                }
                let last = chars_of(names[n - 1]);
                let own = chars_of(name.as_str());
                let ghost shorter = names@.subrange(0, n - 1).map_values(|s: &str| s@);
                assert(want.drop_last() =~= shorter);
                assert(want.last() == names@[n - 1]@);
                if !chars_equal(&last, &own) {
                    assert(self.names().last() != want.last());
                    return false;
                }
                let r = parent.matches_first(names, n - 1);
                assert(r ==> self.names() =~= want);
                assert(self.names() == want ==> parent.names() =~= shorter);
                r
            },
        }
    }
}

// ---------------------------------------------------------------------------
// Markup events
// ---------------------------------------------------------------------------

/// An event of `xml::reader::EventReader`.
#[verifier::external_type_specification]
#[verifier::external_body]
pub struct ExReaderEvent(ReaderEvent);

/// A namespace mapping of the `xml` crate.
#[verifier::external_type_specification]
#[verifier::external_body]
pub struct ExNamespace(Namespace);

/// A qualified name as the `xml` parser gives it.
#[verifier::external_type_specification]
#[verifier::external_body]
pub struct ExOwnedName(OwnedName);

/// An attribute as the `xml` parser gives it.
#[verifier::external_type_specification]
#[verifier::external_body]
pub struct ExOwnedAttribute(OwnedAttribute);

/// An error of the `xml` parser.
#[verifier::external_type_specification]
#[verifier::external_body]
pub struct ExReaderError(xml::reader::Error);

/// An error of the `xml` writer.
#[verifier::external_type_specification]
#[verifier::external_body]
pub struct ExWriterError(xml::writer::Error);

/// Bytes that are not UTF-8.
#[verifier::external_type_specification]
#[verifier::external_body]
pub struct ExFromUtf8Error(std::string::FromUtf8Error);

/// The event writer of the `xml` crate.
#[verifier::external_type_specification]
#[verifier::external_body]
#[verifier::reject_recursive_types(W)]
pub struct ExEventWriter<W>(EventWriter<W>);

/// A qualified markup name.
pub struct QualifiedName {
    /// The local name, e.g. `string` in `xsi:string`.
    pub local_name: String,
    /// The namespace URI, if any.
    pub namespace: Option<String>,
    /// The prefix, e.g. `xsi` in `xsi:string`.
    pub prefix: Option<String>,
}

/// The model of a `QualifiedName`.
pub struct QualifiedNameView {
    pub local_name: Seq<char>,
    pub namespace: Option<Seq<char>>,
    pub prefix: Option<Seq<char>>,
}

/// The model of an optional string.
pub open spec fn opt_view(o: Option<String>) -> Option<Seq<char>> {
    match o {
        Some(s) => Some(s@),
        None => None,
    }
}

impl View for QualifiedName {
    type V = QualifiedNameView;

    open spec fn view(&self) -> QualifiedNameView {
        QualifiedNameView {
            local_name: self.local_name@,
            namespace: opt_view(self.namespace),
            prefix: opt_view(self.prefix),
        }
    }
}

/// The name `local` with neither namespace nor prefix.
pub open spec fn plain_name(local: Seq<char>) -> QualifiedNameView {
    QualifiedNameView { local_name: local, namespace: None, prefix: None }
}

impl QualifiedName {
    /// The name `local` with neither namespace nor prefix.
    pub fn plain(local: &str) -> (r: QualifiedName)
        ensures
            r@ == plain_name(local@),
    {
        QualifiedName { local_name: local.to_owned(), namespace: None, prefix: None }
    }
}

/// An attribute of an element.
pub struct MarkupAttribute {
    pub name: QualifiedName,
    pub value: String,
}

impl View for MarkupAttribute {
    type V = (QualifiedNameView, Seq<char>);

    open spec fn view(&self) -> (QualifiedNameView, Seq<char>) {
        (self.name@, self.value@)
    }
}

/// One event of a markup document, as the rewriting logic sees it.
#[allow(inconsistent_fields)]
pub enum MarkupEvent {
    /// An element opens. Without a namespace mapping the element declares
    /// no namespaces.
    StartElement {
        name: QualifiedName,
        attributes: Vec<MarkupAttribute>,
        namespace: Option<Namespace>,
    },
    /// An element closes; without a name it is the innermost open one.
    EndElement { name: Option<QualifiedName> },
    /// Whitespace between elements.
    Whitespace { event: ReaderEvent },
    /// Any other event, carried through as the parser gave it.
    Other { event: ReaderEvent },
}

/// The model of a `MarkupEvent`.
#[allow(inconsistent_fields)]
pub enum MarkupEventView {
    StartElement {
        name: QualifiedNameView,
        attributes: Seq<(QualifiedNameView, Seq<char>)>,
        namespace: Option<Namespace>,
    },
    EndElement { name: Option<QualifiedNameView> },
    Whitespace { event: ReaderEvent },
    Other { event: ReaderEvent },
}

impl View for MarkupEvent {
    type V = MarkupEventView;

    open spec fn view(&self) -> MarkupEventView {
        match self {
            MarkupEvent::StartElement { name, attributes, namespace } => {
                MarkupEventView::StartElement {
                    name: name@,
                    attributes: attributes@.map_values(|a: MarkupAttribute| a@),
                    namespace: *namespace,
                }
            },
            MarkupEvent::EndElement { name } => MarkupEventView::EndElement {
                name: match name {
                    Some(n) => Some(n@),
                    None => None,
                },
            },
            MarkupEvent::Whitespace { event } => MarkupEventView::Whitespace { event: *event },
            MarkupEvent::Other { event } => MarkupEventView::Other { event: *event },
        }
    }
}

/// The models of a sequence of events.
pub open spec fn events_view(events: Seq<MarkupEvent>) -> Seq<MarkupEventView> {
    events.map_values(|e: MarkupEvent| e@)
}

/// Why reading, rewriting or writing markup failed.
#[derive(Debug)]
pub enum XmlError {
    /// The input is not well-formed markup.
    ReadError(xml::reader::Error),
    /// The events could not be written.
    WriterError(xml::writer::Error),
    /// The written bytes are not UTF-8.
    FromUtf8Error(std::string::FromUtf8Error),
}

// ---------------------------------------------------------------------------
// Reading
// ---------------------------------------------------------------------------

/// The events that the `xml` parser reads from `text`, up to the end of the
/// document, in the library's model; `None` where the parser stops with an
/// error. Parsing depends on the text alone.
pub uninterp spec fn parsed_markup(text: Seq<char>) -> Option<Seq<MarkupEventView>>;

/// The text that the `xml` crate's indenting event writer produces when the
/// events are written to it in order; `None` where a write fails or the
/// bytes are not UTF-8. Writing depends on the events alone.
pub uninterp spec fn markup_text(events: Seq<MarkupEventView>) -> Option<Seq<char>>;

/// Relies on `xml::reader::EventReader::from_str` and its event iterator:
/// the events of `text` up to the end of the document, or the first error.
/// Each event is taken into the library's model by `markup_event`.
#[verifier::external_body]
fn read_markup(text: &str) -> (r: Result<Vec<MarkupEvent>, xml::reader::Error>)
    ensures
        r is Ok <==> parsed_markup(text@) is Some,
        r matches Ok(evs) ==> parsed_markup(text@) == Some(events_view(evs@)),
{
    xml::reader::EventReader::from_str(text).into_iter().map(|r| r.map(markup_event)).collect()
}

/// Relies on the fields of `xml::name::OwnedName`, moved as they are.
#[verifier::external_body]
fn qualified_name(name: OwnedName) -> QualifiedName {
    QualifiedName { local_name: name.local_name, namespace: name.namespace, prefix: name.prefix }
}

/// Relies on the fields of `xml::attribute::OwnedAttribute`: its name and
/// its value, moved as they are.
#[verifier::external_body]
fn attribute_parts(attribute: OwnedAttribute) -> (OwnedName, String) {
    (attribute.name, attribute.value)
}

/// The parts of a parser event that the rewriting logic reads.
pub enum ReaderParts {
    StartElement(OwnedName, Vec<OwnedAttribute>, Namespace),
    EndElement(OwnedName),
    Whitespace(ReaderEvent),
    Other(ReaderEvent),
}

/// Relies on the variants of `xml::reader::XmlEvent`: the start and end of
/// an element are taken apart, whitespace and any other event are kept whole.
#[verifier::external_body]
fn reader_parts(event: ReaderEvent) -> ReaderParts {
    match event {
        ReaderEvent::StartElement { name, attributes, namespace } => ReaderParts::StartElement(name, attributes, namespace),
        ReaderEvent::EndElement { name } => ReaderParts::EndElement(name),
        event @ ReaderEvent::Whitespace(_) => ReaderParts::Whitespace(event),
        event => ReaderParts::Other(event),
    }
}

/// The library's model of one parser event.
fn markup_event(event: ReaderEvent) -> MarkupEvent {
    match reader_parts(event) {
        ReaderParts::StartElement(name, owned_attributes, namespace) => {
            let mut attributes: Vec<MarkupAttribute> = Vec::new();
            for attribute in owned_attributes.into_iter() {
                let (name, value) = attribute_parts(attribute);
                attributes.push(MarkupAttribute { name: qualified_name(name), value });
            }
            MarkupEvent::StartElement { name: qualified_name(name), attributes, namespace: Some(namespace) }
        },
        ReaderParts::EndElement(name) => MarkupEvent::EndElement { name: Some(qualified_name(name)) },
        ReaderParts::Whitespace(event) => MarkupEvent::Whitespace { event },
        ReaderParts::Other(event) => MarkupEvent::Other { event },
    }
}

/// The events of a markup text (see `parsed_markup`), or the parser's error.
pub fn parse_markup(text: &str) -> (r: Result<Vec<MarkupEvent>, XmlError>)
    ensures
        r is Ok <==> parsed_markup(text@) is Some,
        r matches Ok(evs) ==> parsed_markup(text@) == Some(events_view(evs@)),
        r matches Err(e) ==> e is ReadError,
{
    match read_markup(text) {
        Err(e) => Err(XmlError::ReadError(e)),
        Ok(events) => Ok(events),
    }
}

// ---------------------------------------------------------------------------
// Writing
// ---------------------------------------------------------------------------

/// Relies on `xml::namespace::Namespace::empty`: a namespace mapping that
/// declares nothing.
#[verifier::external_body]
fn empty_namespace() -> Namespace {
    Namespace::empty()
}

/// Relies on `EventWriter::write` of a start element with `namespace`; each
/// name is passed with all its parts.
#[verifier::external_body]
fn write_start(
    w: &mut EventWriter<Vec<u8>>,
    name: &QualifiedName,
    attributes: &Vec<MarkupAttribute>,
    namespace: &Namespace,
) -> Result<(), xml::writer::Error> {
    let attributes: Vec<Attribute> = attributes.iter().map(|a| Attribute {
        name: Name { local_name: &a.name.local_name, namespace: a.name.namespace.as_deref(), prefix: a.name.prefix.as_deref() },
        value: &a.value,
    }).collect();
    let name = Name { local_name: &name.local_name, namespace: name.namespace.as_deref(), prefix: name.prefix.as_deref() };
    w.write(WriterEvent::StartElement { name, attributes: Cow::Owned(attributes), namespace: Cow::Borrowed(namespace) })
}

/// Relies on `EventWriter::write` of the end of the element `name`.
#[verifier::external_body]
fn write_end(w: &mut EventWriter<Vec<u8>>, name: &QualifiedName) -> Result<(), xml::writer::Error> {
    let end = Name { local_name: &name.local_name, namespace: name.namespace.as_deref(), prefix: name.prefix.as_deref() };
    w.write(WriterEvent::EndElement { name: Some(end) })
}

/// Relies on `EventWriter::write` of the end of the innermost open element.
#[verifier::external_body]
fn write_innermost_end(w: &mut EventWriter<Vec<u8>>) -> Result<(), xml::writer::Error> {
    w.write(WriterEvent::end_element())
}

/// Relies on `xml::reader::XmlEvent::as_writer_event` and
/// `EventWriter::write`: the event as the parser gave it; the end of the
/// document writes nothing.
#[verifier::external_body]
fn write_reader_event(w: &mut EventWriter<Vec<u8>>, event: &ReaderEvent) -> Result<(), xml::writer::Error> {
    match event.as_writer_event() {
        Some(e) => w.write(e),
        None => Ok(()),
    }
}

/// Writes one event.
fn write_markup_event(w: &mut EventWriter<Vec<u8>>, event: &MarkupEvent) -> (r: Result<(), XmlError>)
    ensures
        r matches Err(e) ==> e is WriterError,
{
    let written = match event {
        MarkupEvent::StartElement { name, attributes, namespace } => match namespace {
            Some(ns) => write_start(w, name, attributes, ns),
            None => {
                let ns = empty_namespace();
                write_start(w, name, attributes, &ns)
            },
        },
        MarkupEvent::EndElement { name } => match name {
            Some(n) => write_end(w, n),
            None => write_innermost_end(w),
        },
        MarkupEvent::Whitespace { event } => write_reader_event(w, event),
        MarkupEvent::Other { event } => write_reader_event(w, event),
    };
    match written {
        Ok(()) => Ok(()),
        Err(e) => Err(XmlError::WriterError(e)),
    }
}

/// Relies on `xml::writer::EmitterConfig` (with indentation), on
/// `EventWriter::into_inner` and on `String::from_utf8`: the text of
/// `events`, each written by `write_markup_event`, stopping at the first
/// error.
#[verifier::external_body]
fn emit_markup(events: &Vec<MarkupEvent>) -> (r: Result<String, XmlError>)
    ensures
        r is Ok <==> markup_text(events_view(events@)) is Some,
        r matches Ok(s) ==> markup_text(events_view(events@)) == Some(s@),
        r matches Err(e) ==> e is WriterError || e is FromUtf8Error,
{
    let mut w = xml::writer::EmitterConfig::new().perform_indent(true).create_writer(Vec::new());
    events.iter().try_for_each(|e| write_markup_event(&mut w, e))?;
    String::from_utf8(w.into_inner()).map_err(XmlError::FromUtf8Error)
}

/// The text of `events`, indented by the writer (see `markup_text`).
pub fn write_markup(events: &Vec<MarkupEvent>) -> (r: Result<String, XmlError>)
    ensures
        r is Ok <==> markup_text(events_view(events@)) is Some,
        r matches Ok(s) ==> markup_text(events_view(events@)) == Some(s@),
        r matches Err(e) ==> e is WriterError || e is FromUtf8Error,
{
    emit_markup(events)
}

/// `s`, with a `'\n'` added unless it ends with one.
pub open spec fn with_final_newline(s: Seq<char>) -> Seq<char> {
    if s.len() > 0 && s.last() == '\n' {
        s
    } else {
        s.push('\n')
    }
}

} // verus!
