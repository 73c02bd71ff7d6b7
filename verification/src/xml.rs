//! XML events, as the event-driven parsers of the library consume them.
//!
//! `quick_xml` turns a document into a stream of these events; each parser
//! is a state machine that takes one event at a time.
use vstd::prelude::*;

verus! {

/// An attribute of a tag: its qualified key and its raw value.
#[derive(Clone, Debug)]
pub struct XmlAttribute {
    pub key: String,
    pub value: String,
}

/// A start tag or an empty-element tag.
#[derive(Clone, Debug)]
pub struct XmlTag {
    /// The local name of the tag (without its namespace prefix).
    pub name: String,
    /// The attributes that could be read, in document order.
    pub attributes: Vec<XmlAttribute>,
    /// Whether an attribute that could not be read follows those above.
    pub malformed: bool,
}

/// One event of an XML document.
#[derive(Clone, Debug)]
pub enum XmlEvent {
    /// `<name ...>`
    Start(XmlTag),
    /// `</name>`, with the local name.
    End(String),
    /// `<name .../>`
    Empty(XmlTag),
    /// Character data between tags, with its entities resolved; `None`
    /// where an entity could not be resolved.
    Text(Option<String>),
    /// Anything else: declarations, comments, CDATA, processing instructions.
    Other,
}

/// The outcome of looking up an attribute of a tag: the value of the first
/// attribute with that key; an error when an unreadable attribute comes
/// before any such attribute; nothing when there is no such attribute.
pub open spec fn attribute_lookup(attrs: Seq<XmlAttribute>, malformed: bool, key: Seq<char>) -> Result<Option<Seq<char>>, ()>
    decreases attrs.len(),
{
    if attrs.len() == 0 {
        if malformed {
            Err(())
        } else {
            Ok(None)
        }
    } else if attrs[0].key@ == key {
        Ok(Some(attrs[0].value@))
    } else {
        attribute_lookup(attrs.drop_first(), malformed, key)
    }
}

/// The attribute of `tag` called `key`, as `attribute_lookup` defines it.
pub open spec fn tag_attribute(tag: XmlTag, key: Seq<char>) -> Result<Option<Seq<char>>, ()> {
    attribute_lookup(tag.attributes@, tag.malformed, key)
}

/// An attribute list could not be read.
#[derive(Clone, Copy, Debug, PartialEq, Eq)]
pub struct XmlAttributeError;

impl XmlTag {
    /// Looks up the attribute `key`, scanning the attributes in order.
    pub fn attribute(&self, key: &str) -> (r: Result<Option<String>, XmlAttributeError>)
        ensures
            match tag_attribute(*self, key@) {
                Ok(Some(v)) => r matches Ok(Some(s)) && s@ == v,
                Ok(None) => r matches Ok(None),
                Err(()) => r is Err,
            },
    {
        let mut i: usize = 0;
        assert(self.attributes@.subrange(0, self.attributes@.len() as int) == self.attributes@);
        while i < self.attributes.len()
            invariant
                i <= self.attributes.len(),
                tag_attribute(*self, key@) == attribute_lookup(
                    self.attributes@.subrange(i as int, self.attributes@.len() as int),
                    self.malformed,
                    key@,
                ),
            decreases self.attributes.len() - i,
        {
            let ghost rest = self.attributes@.subrange(i as int, self.attributes@.len() as int);
            assert(rest[0] == self.attributes@[i as int]);
            assert(rest.drop_first() == self.attributes@.subrange(
                i + 1,
                self.attributes@.len() as int,
            ));
            if crate::strs::str_eq(self.attributes[i].key.as_str(), key) {
                return Ok(Some(self.attributes[i].value.clone()));
            }
            i += 1;
        }
        if self.malformed {
            Err(XmlAttributeError)
        } else {
            Ok(None)
        }
    }
}

/// Whether `ev` is the end tag `</name>`.
pub open spec fn is_end_of(ev: XmlEvent, name: Seq<char>) -> bool {
    ev matches XmlEvent::End(n) && n@ == name
}

/// The local name of a start tag, if `ev` is one.
pub open spec fn start_name(ev: XmlEvent) -> Option<Seq<char>> {
    match ev {
        XmlEvent::Start(t) => Some(t.name@),
        _ => None,
    }
}

/// Whether `ev` is the end tag `</name>`.
pub fn ends(ev: &XmlEvent, name: &str) -> (r: bool)
    ensures
        r == is_end_of(*ev, name@),
{
    match ev {
        XmlEvent::End(n) => crate::strs::str_eq(n.as_str(), name),
        _ => false,
    }
}

/// Whether `ev` is the start tag `<name ...>`.
pub fn starts(ev: &XmlEvent, name: &str) -> (r: bool)
    ensures
        r == (start_name(*ev) == Some(name@)),
{
    match ev {
        XmlEvent::Start(t) => crate::strs::str_eq(t.name.as_str(), name),
        _ => false,
    }
}

/// The model of an attribute.
pub struct XmlAttributeView {
    pub key: Seq<char>,
    pub value: Seq<char>,
}

/// The model of a tag.
pub struct XmlTagView {
    pub name: Seq<char>,
    pub attributes: Seq<XmlAttributeView>,
    pub malformed: bool,
}

/// The model of an event.
pub enum XmlEventView {
    Start(XmlTagView),
    End(Seq<char>),
    Empty(XmlTagView),
    Text(Option<Seq<char>>),
    Other,
}

impl View for XmlAttribute {
    type V = XmlAttributeView;

    open spec fn view(&self) -> XmlAttributeView {
        XmlAttributeView { key: self.key@, value: self.value@ }
    }
}

impl View for XmlTag {
    type V = XmlTagView;

    open spec fn view(&self) -> XmlTagView {
        XmlTagView {
            name: self.name@,
            attributes: self.attributes@.map_values(|a: XmlAttribute| a@),
            malformed: self.malformed,
        }
    }
}

impl View for XmlEvent {
    type V = XmlEventView;

    open spec fn view(&self) -> XmlEventView {
        match self {
            XmlEvent::Start(t) => XmlEventView::Start(t@),
            XmlEvent::End(n) => XmlEventView::End(n@),
            XmlEvent::Empty(t) => XmlEventView::Empty(t@),
            XmlEvent::Text(t) => XmlEventView::Text(
                match t {
                    Some(x) => Some(x@),
                    None => None,
                },
            ),
            XmlEvent::Other => XmlEventView::Other,
        }
    }
}

pub open spec fn events_view(s: Seq<XmlEvent>) -> Seq<XmlEventView> {
    s.map_values(|e: XmlEvent| e@)
}

/// The events that `quick_xml::Reader::read_event` reads from `text` up to
/// its end, each with its tag's local name, its attributes up to the first
/// one that cannot be read, and its text unescaped; nothing where the
/// document is not well-formed XML.
pub uninterp spec fn xml_events_of(text: Seq<char>) -> Result<Seq<XmlEventView>, ()>;

/// A document could not be read as XML; the message says why.
#[derive(Clone, Debug, PartialEq, Eq)]
pub struct XmlReadError {
    pub message: String,
}

#[verifier::external_type_specification]
#[verifier::external_body]
pub struct ExQuickXmlEvent<'a>(quick_xml::events::Event<'a>);

#[verifier::external_type_specification]
#[verifier::external_body]
pub struct ExQuickXmlBytesStart<'a>(quick_xml::events::BytesStart<'a>);

/// Converts a start tag of `quick_xml` (`BytesStart::local_name` and
/// `BytesStart::attributes`) into an `XmlTag`, one for one: the attributes
/// up to the first one that `quick_xml` cannot read, and whether there is
/// such an attribute. Nothing is claimed of the result.
#[verifier::external_body]
fn xml_tag(e: &quick_xml::events::BytesStart) -> (r: XmlTag) {
    XmlTag {
        name: String::from_utf8_lossy(e.local_name().into_inner()).to_string(),
        attributes: e.attributes().map_while(|a| a.ok()).map(|a| XmlAttribute {
            key: String::from_utf8_lossy(a.key.as_ref()).to_string(),
            value: String::from_utf8_lossy(a.value.as_ref()).to_string(),
        }).collect(),
        malformed: e.attributes().any(|a| a.is_err()),
    }
}

/// Converts an event of `quick_xml` into an `XmlEvent`, one variant for
/// one, the text unescaped by `BytesText::unescape`. Nothing is claimed of
/// the result.
#[verifier::external_body]
fn xml_event(ev: quick_xml::events::Event) -> (r: XmlEvent) {
    match ev {
        quick_xml::events::Event::Start(e) => XmlEvent::Start(xml_tag(&e)),
        quick_xml::events::Event::Empty(e) => XmlEvent::Empty(xml_tag(&e)),
        quick_xml::events::Event::End(e) => XmlEvent::End(String::from_utf8_lossy(e.local_name().into_inner()).to_string()),
        quick_xml::events::Event::Text(t) => XmlEvent::Text(t.unescape().ok().map(|s| s.to_string())),
        _ => XmlEvent::Other,
    }
}

/// Reads `text` with `quick_xml::Reader::read_event` up to its end, handing
/// each event out as an `XmlEvent`. The contract claims only that the
/// result is the named reading of `text`.
#[verifier::external_body]
pub fn xml_events(text: &str) -> (r: Result<Vec<XmlEvent>, XmlReadError>)
    ensures
        match r {
            Ok(v) => xml_events_of(text@) == Ok::<Seq<XmlEventView>, ()>(events_view(v@)),
            Err(_) => xml_events_of(text@) is Err,
        },
{
    let mut reader = quick_xml::Reader::from_str(text);
    let mut events = Vec::new();
    loop {
        match reader.read_event() {
            Err(e) => return Err(XmlReadError { message: e.to_string() }),
            Ok(quick_xml::events::Event::Eof) => return Ok(events),
            Ok(ev) => events.push(xml_event(ev)),
        }
    }
}

proof fn lemma_attribute_lookup_view(a: Seq<XmlAttribute>, b: Seq<XmlAttribute>, malformed: bool, key: Seq<char>)
    requires
        a.map_values(|x: XmlAttribute| x@) == b.map_values(|x: XmlAttribute| x@),
    ensures
        attribute_lookup(a, malformed, key) == attribute_lookup(b, malformed, key),
    decreases a.len(),
{
    assert(a.len() == a.map_values(|x: XmlAttribute| x@).len());
    assert(b.len() == b.map_values(|x: XmlAttribute| x@).len());
    if a.len() > 0 {
        assert(a.map_values(|x: XmlAttribute| x@)[0] == a[0]@);
        assert(b.map_values(|x: XmlAttribute| x@)[0] == b[0]@);
        assert(a.drop_first().map_values(|x: XmlAttribute| x@) =~= a.map_values(|x: XmlAttribute| x@).drop_first());
        assert(b.drop_first().map_values(|x: XmlAttribute| x@) =~= b.map_values(|x: XmlAttribute| x@).drop_first());
        lemma_attribute_lookup_view(a.drop_first(), b.drop_first(), malformed, key);
    }
}

/// Two tags with the same model give the same attribute lookups.
pub proof fn lemma_tag_view(a: XmlTag, b: XmlTag)
    requires
        a@ == b@,
    ensures
        a.name@ == b.name@,
        a.malformed == b.malformed,
        forall|key: Seq<char>| #[trigger] tag_attribute(a, key) == tag_attribute(b, key),
{
    assert forall|key: Seq<char>| #[trigger] tag_attribute(a, key) == tag_attribute(b, key) by {
        lemma_attribute_lookup_view(a.attributes@, b.attributes@, a.malformed, key);
    }
}

/// Two events with the same model are read alike: the same kind, names,
/// texts and attribute lookups.
pub proof fn lemma_event_view(a: XmlEvent, b: XmlEvent)
    requires
        a@ == b@,
    ensures
        start_name(a) == start_name(b),
        forall|name: Seq<char>| #[trigger] is_end_of(a, name) == is_end_of(b, name),
        a is Start <==> b is Start,
        a is End <==> b is End,
        a is Empty <==> b is Empty,
        a is Text <==> b is Text,
        a is Other <==> b is Other,
        a matches XmlEvent::Start(ta) ==> b matches XmlEvent::Start(tb) && ta@ == tb@ && ta.name@ == tb.name@
            && ta.malformed == tb.malformed && forall|key: Seq<char>| #[trigger] tag_attribute(ta, key) == tag_attribute(tb, key),
        a matches XmlEvent::Empty(ta) ==> b matches XmlEvent::Empty(tb) && ta@ == tb@ && ta.name@ == tb.name@
            && ta.malformed == tb.malformed && forall|key: Seq<char>| #[trigger] tag_attribute(ta, key) == tag_attribute(tb, key),
        a matches XmlEvent::End(na) ==> b matches XmlEvent::End(nb) && na@ == nb@,
        a matches XmlEvent::Text(xa) ==> b matches XmlEvent::Text(xb) && (xa is Some <==> xb is Some) && (
        xa matches Some(sa) ==> xb matches Some(sb) && sa@ == sb@),
{
    match (a, b) {
        (XmlEvent::Start(ta), XmlEvent::Start(tb)) => lemma_tag_view(ta, tb),
        (XmlEvent::Empty(ta), XmlEvent::Empty(tb)) => lemma_tag_view(ta, tb),
        _ => {},
    }
}

/// Events whose models are `evs`. The parsers read events only through
/// their models, so any such events are read alike.
pub open spec fn some_events(evs: Seq<XmlEventView>) -> Seq<XmlEvent> {
    choose|es: Seq<XmlEvent>| events_view(es) == evs
}

} // verus!
