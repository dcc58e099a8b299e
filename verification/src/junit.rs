//! Reads bun's `--reporter=junit` output.
//!
//! Shape:
//! - nested `<testsuite>` per describe, one outer testsuite per file
//!   (its `name` equals its `file` attribute);
//! - every testcase appears in document order, executed ones without a
//!   `<skipped>` child: that order is the ordinal-correlation contract;
//! - `<failure>` children carry a type but no message text;
//! - `classname` is double-escaped and innermost-first, so describe paths
//!   are reconstructed from testsuite nesting instead.
use quick_xml::events::attributes::Attributes;
use quick_xml::events::Event;
use quick_xml::name::QName;
use quick_xml::Reader;
use vstd::prelude::*;

use crate::text::copy_text;
use crate::text::join;
use crate::text::same;

verus! {

/// An element with its attributes; in place of the value of an attribute whose
/// escapes cannot be resolved stands what is wrong with them.
#[derive(Debug)]
pub struct XmlElement {
    pub name: String,
    pub attributes: Vec<(String, Result<String, String>)>,
}

/// What an XML text is made of.
#[derive(Debug)]
pub enum XmlEvent {
    /// `<name ...>`
    Start(XmlElement),
    /// `<name ... />`
    Empty(XmlElement),
    /// `</name>`
    End(String),
    /// Text, comments and the like.
    Other,
}

/// The mathematical value of an element.
pub struct ElementView {
    pub name: Seq<char>,
    pub attributes: Seq<(Seq<char>, Result<Seq<char>, Seq<char>>)>,
}

/// The mathematical value of an event.
pub enum EventView {
    Start(ElementView),
    Empty(ElementView),
    End(Seq<char>),
    Other,
}

/// The characters of a value, or of what is wrong with it.
pub open spec fn value_view(value: Result<String, String>) -> Result<Seq<char>, Seq<char>> {
    match value {
        Ok(text) => Ok(text@),
        Err(fault) => Err(fault@),
    }
}

/// The characters of a list of attributes.
pub open spec fn attribute_views(v: Seq<(String, Result<String, String>)>) -> Seq<
    (Seq<char>, Result<Seq<char>, Seq<char>>),
> {
    v.map_values(|a: (String, Result<String, String>)| (a.0@, value_view(a.1)))
}

impl XmlElement {
    pub open spec fn view(&self) -> ElementView {
        ElementView { name: self.name@, attributes: attribute_views(self.attributes@) }
    }
}

impl XmlEvent {
    pub open spec fn view(&self) -> EventView {
        match self {
            XmlEvent::Start(e) => EventView::Start(e@),
            XmlEvent::Empty(e) => EventView::Empty(e@),
            XmlEvent::End(name) => EventView::End(name@),
            XmlEvent::Other => EventView::Other,
        }
    }
}

/// The values of a list of events.
pub open spec fn event_views(v: Seq<XmlEvent>) -> Seq<EventView> {
    v.map_values(|e: XmlEvent| e@)
}

/// A piece of an XML text as it stands: the name of an element, and for a start
/// or empty element what follows the name.
#[derive(Debug)]
pub enum XmlTag {
    Start(String, String),
    Empty(String, String),
    End(String),
    Other,
}

/// The mathematical value of a piece.
pub enum TagView {
    Start(Seq<char>, Seq<char>),
    Empty(Seq<char>, Seq<char>),
    End(Seq<char>),
    Other,
}

impl XmlTag {
    pub open spec fn view(&self) -> TagView {
        match self {
            XmlTag::Start(name, raw) => TagView::Start(name@, raw@),
            XmlTag::Empty(name, raw) => TagView::Empty(name@, raw@),
            XmlTag::End(name) => TagView::End(name@),
            XmlTag::Other => TagView::Other,
        }
    }
}

/// The pieces of a list.
pub open spec fn tag_views(v: Seq<XmlTag>) -> Seq<TagView> {
    v.map_values(|t: XmlTag| t@)
}

/// A reader of XML of the `quick_xml` crate.
#[verifier::external_type_specification]
#[verifier::external_body]
#[verifier::reject_recursive_types(R)]
pub struct ExReader<R>(quick_xml::Reader<R>);

/// Pieces up to the end of a text, or up to what is wrong with it.
pub struct TagsView {
    pub tags: Seq<TagView>,
    pub fault: Option<Seq<char>>,
}

/// The pieces that a reader has yet to read.
pub uninterp spec fn tags_left(reader: quick_xml::Reader<&[u8]>) -> TagsView;

/// The pieces of an XML text, with text trimmed.
pub uninterp spec fn xml_tags(text: Seq<char>) -> TagsView;

/// `Reader::from_str` of `quick_xml`, told to trim text: a reader of all pieces of
/// the text, which depend on the text alone.
#[verifier::external_body]
fn open_xml(text: &str) -> (r: quick_xml::Reader<&[u8]>)
    ensures
        tags_left(r) == xml_tags(text@),
{
    let mut reader = Reader::from_str(text);
    reader.config_mut().trim_text(true);
    reader
}

/// `Reader::read_event` of `quick_xml`: the next piece, nothing at the end of the
/// text, or the words of the error where the text goes wrong. Of a reader that
/// has met an error nothing more is claimed.
#[verifier::external_body]
fn next_tag(reader: &mut quick_xml::Reader<&[u8]>) -> (r: Result<Option<XmlTag>, String>)
    ensures
        match r {
            Ok(Some(tag)) => tags_left(*old(reader)).tags.len() > 0 && tag@ == tags_left(
                *old(reader),
            ).tags[0] && tags_left(*final(reader)) == (TagsView {
                tags: tags_left(*old(reader)).tags.skip(1),
                fault: tags_left(*old(reader)).fault,
            }),
            Ok(None) => tags_left(*old(reader)) == (TagsView { tags: Seq::empty(), fault: None }),
            Err(e) => tags_left(*old(reader)) == (TagsView {
                tags: Seq::empty(),
                fault: Some(e@),
            }),
        },
{
    let name = |n: QName| n.as_ref().to_string();
    Ok(match reader.read_event().map_err(|e| e.to_string())? {
        Event::Start(e) => Some(XmlTag::Start(name(e.name()), e.attributes_raw().into())),
        Event::Empty(e) => Some(XmlTag::Empty(name(e.name()), e.attributes_raw().into())),
        Event::End(e) => Some(XmlTag::End(name(e.name()))),
        Event::Eof => None,
        _ => Some(XmlTag::Other),
    })
}

/// The pieces of an XML text up to its end, or up to what is wrong with it.
fn read_tags(text: &str) -> (r: (Vec<XmlTag>, Option<String>))
    ensures
        xml_tags(text@) == (TagsView { tags: tag_views(r.0@), fault: crate::text::opt_text(r.1) }),
{
    let ghost all = xml_tags(text@);
    let mut reader = open_xml(text);
    let mut tags: Vec<XmlTag> = Vec::new();
    proof {
        assert(tag_views(tags@) + tags_left(reader).tags =~= all.tags);
    }
    loop
        invariant
            all == xml_tags(text@),
            tag_views(tags@) + tags_left(reader).tags == all.tags,
            tags_left(reader).fault == all.fault,
        decreases tags_left(reader).tags.len(),
    {
        let ghost left = tags_left(reader).tags;
        match next_tag(&mut reader) {
            Ok(Some(tag)) => {
                let ghost before = tags@;
                tags.push(tag);
                proof {
                    assert(tag_views(tags@) =~= tag_views(before).push(left[0]));
                    assert(tag_views(tags@) + left.skip(1) =~= tag_views(before) + left);
                }
            },
            Ok(None) => {
                proof {
                    assert(tag_views(tags@) =~= all.tags);
                }
                return (tags, None);
            },
            Err(fault) => {
                proof {
                    assert(tag_views(tags@) =~= all.tags);
                }
                return (tags, Some(fault));
            },
        }
    }
}

/// The attributes in what follows the name of an element, and what is wrong with
/// those that are not well-formed.
pub uninterp spec fn xml_attributes(raw: Seq<char>) -> Seq<
    Result<(Seq<char>, Result<Seq<char>, Seq<char>>), Seq<char>>,
>;

/// The value of what was read of an attribute.
pub open spec fn attribute_view(a: Result<(String, Result<String, String>), String>) -> Result<
    (Seq<char>, Result<Seq<char>, Seq<char>>),
    Seq<char>,
> {
    match a {
        Ok((name, value)) => Ok((name@, value_view(value))),
        Err(fault) => Err(fault@),
    }
}

/// `Attributes` of `quick_xml` with `Attribute::unescape_value` of each; where one
/// is not well-formed, or its escapes cannot be resolved, the words of the error
/// stand in its place or in that of its value. The list depends on the text alone.
#[verifier::external_body]
#[allow(deprecated)]
fn list_attributes(raw: &str) -> (r: Vec<Result<(String, Result<String, String>), String>>)
    ensures
        r@.map_values(|a: Result<(String, Result<String, String>), String>| attribute_view(a))
            == xml_attributes(raw@),
{
    Attributes::new(raw, 0).map(|a| {
        let a = a.map_err(|e| e.to_string())?;
        let value = a.unescape_value().map(|v| v.to_string()).map_err(|e| e.to_string());
        Ok((a.key.as_ref().to_string(), value))
    }).collect()
}

/// The attributes of a list that are well-formed, in order.
pub open spec fn well_formed(
    list: Seq<Result<(Seq<char>, Result<Seq<char>, Seq<char>>), Seq<char>>>,
) -> Seq<(Seq<char>, Result<Seq<char>, Seq<char>>)>
    decreases list.len(),
{
    if list.len() == 0 {
        Seq::empty()
    } else {
        match list.last() {
            Ok(attribute) => well_formed(list.drop_last()).push(attribute),
            Err(_) => well_formed(list.drop_last()),
        }
    }
}

/// The well-formed attributes in what follows the name of an element.
fn read_attributes(raw: &str) -> (r: Vec<(String, Result<String, String>)>)
    ensures
        attribute_views(r@) == well_formed(xml_attributes(raw@)),
{
    let ghost all = xml_attributes(raw@);
    let list = list_attributes(raw);
    let mut out: Vec<(String, Result<String, String>)> = Vec::new();
    let mut i: usize = 0;
    proof {
        assert(all.len() == list@.len());
        assert(attribute_views(out@) =~= well_formed(all.take(0)));
    }
    while i < list.len()
        invariant
            i <= list@.len(),
            all.len() == list@.len(),
            all == list@.map_values(
                |a: Result<(String, Result<String, String>), String>| attribute_view(a),
            ),
            attribute_views(out@) == well_formed(all.take(i as int)),
        decreases list@.len() - i,
    {
        proof {
            assert(all.take(i + 1).drop_last() =~= all.take(i as int));
            assert(all.take(i + 1).last() == attribute_view(list@[i as int]));
        }
        if let Ok((name, value)) = &list[i] {
            let ghost before = out@;
            let copy = (copy_text(name.as_str()), copy_value(value));
            out.push(copy);
            proof {
                assert(attribute_views(out@) =~= attribute_views(before).push(
                    (copy.0@, value_view(copy.1)),
                ));
            }
        }
        i = i + 1;
    }
    proof {
        assert(all.take(list@.len() as int) =~= all);
    }
    out
}

fn copy_value(value: &Result<String, String>) -> (r: Result<String, String>)
    ensures
        value_view(r) == value_view(*value),
{
    match value {
        Ok(text) => Ok(copy_text(text.as_str())),
        Err(fault) => Err(copy_text(fault.as_str())),
    }
}

/// The event of a piece.
pub open spec fn event_of(t: TagView) -> EventView {
    match t {
        TagView::Start(name, raw) => EventView::Start(
            ElementView { name, attributes: well_formed(xml_attributes(raw)) },
        ),
        TagView::Empty(name, raw) => EventView::Empty(
            ElementView { name, attributes: well_formed(xml_attributes(raw)) },
        ),
        TagView::End(name) => EventView::End(name),
        TagView::Other => EventView::Other,
    }
}

/// The events of an XML text up to its end, or up to what is wrong with it.
pub open spec fn xml_events(text: Seq<char>) -> (Seq<EventView>, Option<Seq<char>>) {
    (xml_tags(text).tags.map_values(|t: TagView| event_of(t)), xml_tags(text).fault)
}

fn to_event(tag: &XmlTag) -> (r: XmlEvent)
    ensures
        r@ == event_of(tag@),
{
    match tag {
        XmlTag::Start(name, raw) => XmlEvent::Start(
            XmlElement { name: copy_text(name.as_str()), attributes: read_attributes(raw.as_str()) },
        ),
        XmlTag::Empty(name, raw) => XmlEvent::Empty(
            XmlElement { name: copy_text(name.as_str()), attributes: read_attributes(raw.as_str()) },
        ),
        XmlTag::End(name) => XmlEvent::End(copy_text(name.as_str())),
        XmlTag::Other => XmlEvent::Other,
    }
}

/// The events of an XML text up to its end, or up to what is wrong with it.
fn read_xml(text: &str) -> (r: (Vec<XmlEvent>, Option<String>))
    ensures
        xml_events(text@) == (event_views(r.0@), crate::text::opt_text(r.1)),
{
    let (tags, fault) = read_tags(text);
    let ghost raw = tag_views(tags@);
    let ghost all = raw.map_values(|t: TagView| event_of(t));
    let mut out: Vec<XmlEvent> = Vec::new();
    let mut i: usize = 0;
    proof {
        assert(event_views(out@) =~= all.take(0));
    }
    while i < tags.len()
        invariant
            i <= tags@.len(),
            raw == tag_views(tags@),
            all == raw.map_values(|t: TagView| event_of(t)),
            event_views(out@) == all.take(i as int),
        decreases tags@.len() - i,
    {
        let event = to_event(&tags[i]);
        let ghost before = out@;
        out.push(event);
        i = i + 1;
        proof {
            assert(event_views(out@) =~= event_views(before).push(event@));
            assert(event_views(out@) =~= all.take(i as int));
        }
    }
    proof {
        assert(all.take(tags@.len() as int) =~= all);
    }
    (out, fault)
}

/// One test case of a junit report.
#[derive(Debug)]
pub struct JunitCase {
    pub file: Option<String>,
    /// Describe path, outermost first.
    pub describes: Vec<String>,
    pub name: String,
    /// The `time` attribute: seconds as a decimal number, empty where missing.
    pub time: String,
    pub failed: bool,
    pub skipped: bool,
}

/// The mathematical value of a test case.
pub struct CaseView {
    pub file: Option<Seq<char>>,
    pub describes: Seq<Seq<char>>,
    pub name: Seq<char>,
    pub time: Seq<char>,
    pub failed: bool,
    pub skipped: bool,
}

impl JunitCase {
    pub open spec fn view(&self) -> CaseView {
        CaseView {
            file: crate::text::opt_text(self.file),
            describes: crate::text::texts(self.describes@),
            name: self.name@,
            time: self.time@,
            failed: self.failed,
            skipped: self.skipped,
        }
    }
}

/// The values of a list of test cases.
pub open spec fn case_views(v: Seq<JunitCase>) -> Seq<CaseView> {
    v.map_values(|c: JunitCase| c@)
}

/// The values of what was read of a report.
pub open spec fn cases_view(r: Result<Vec<JunitCase>, String>) -> Result<Seq<CaseView>, Seq<char>> {
    match r {
        Ok(cases) => Ok(case_views(cases@)),
        Err(fault) => Err(fault@),
    }
}

/// Stable test id: `<file> > <describe> > ... > <name>`.
pub open spec fn id_of(c: CaseView) -> Seq<char> {
    let tail = c.describes.push(c.name);
    crate::text::joined(
        match c.file {
            Some(file) => seq![file] + tail,
            None => tail,
        },
        " > "@,
    )
}

impl JunitCase {
    /// Stable test id: `<file> > <describe> > ... > <name>`.
    pub fn test_id(&self) -> (r: String)
        ensures
            r@ == id_of(self@),
    {
        let mut parts: Vec<String> = Vec::new();
        if let Some(file) = &self.file {
            parts.push(copy_text(file.as_str()));
        }
        let ghost head = crate::text::texts(parts@);
        let ghost names = crate::text::texts(self.describes@);
        let mut i: usize = 0;
        proof {
            assert(crate::text::texts(parts@) =~= head + names.take(0));
        }
        while i < self.describes.len()
            invariant
                i <= self.describes@.len(),
                names == crate::text::texts(self.describes@),
                crate::text::texts(parts@) == head + names.take(i as int),
            decreases self.describes@.len() - i,
        {
            let name = copy_text(self.describes[i].as_str());
            proof {
                crate::text::lemma_texts_push(parts@, name);
                assert(head + names.take(i + 1) =~= (head + names.take(i as int)).push(name@));
            }
            parts.push(name);
            i = i + 1;
        }
        let last = copy_text(self.name.as_str());
        proof {
            crate::text::lemma_texts_push(parts@, last);
            assert(names.take(self.describes@.len() as int) =~= names);
        }
        parts.push(last);
        proof {
            let tail = names.push(self.name@);
            assert(crate::text::texts(parts@) =~= head + tail);
            assert(head + tail =~= (match self@.file {
                Some(file) => seq![file] + tail,
                None => tail,
            }));
        }
        join(&parts, " > ")
    }
}

/// The last value of an attribute.
pub open spec fn attribute(
    attributes: Seq<(Seq<char>, Result<Seq<char>, Seq<char>>)>,
    key: Seq<char>,
) -> Option<Seq<char>>
    decreases attributes.len(),
{
    if attributes.len() == 0 {
        None
    } else {
        match attributes.last().1 {
            Ok(value) => if attributes.last().0 == key {
                Some(value)
            } else {
                attribute(attributes.drop_last(), key)
            },
            Err(_) => attribute(attributes.drop_last(), key),
        }
    }
}

/// Whether an attribute is looked at, in a test case or in a suite.
pub open spec fn is_read(key: Seq<char>, in_case: bool) -> bool {
    key == "name"@ || key == "file"@ || (in_case && key == "time"@)
}

/// What is wrong with the first attribute that is looked at and has no value.
pub open spec fn fault_in(
    attributes: Seq<(Seq<char>, Result<Seq<char>, Seq<char>>)>,
    in_case: bool,
) -> Option<Seq<char>>
    decreases attributes.len(),
{
    if attributes.len() == 0 {
        None
    } else {
        match (fault_in(attributes.drop_last(), in_case), attributes.last().1) {
            (Some(fault), _) => Some(fault),
            (None, Err(fault)) => if is_read(attributes.last().0, in_case) {
                Some(fault)
            } else {
                None
            },
            (None, Ok(_)) => None,
        }
    }
}

/// A text, empty where it is missing.
pub open spec fn or_empty(text: Option<Seq<char>>) -> Seq<char> {
    match text {
        Some(text) => text,
        None => Seq::empty(),
    }
}

fn get_attribute(element: &XmlElement, key: &str) -> (r: Option<String>)
    ensures
        crate::text::opt_text(r) == attribute(element@.attributes, key@),
{
    let ghost all = element@.attributes;
    let mut found: Option<String> = None;
    let mut i: usize = 0;
    proof {
        assert(all.take(0).len() == 0);
    }
    while i < element.attributes.len()
        invariant
            i <= element.attributes@.len(),
            all == attribute_views(element.attributes@),
            all == element@.attributes,
            crate::text::opt_text(found) == attribute(all.take(i as int), key@),
        decreases element.attributes@.len() - i,
    {
        proof {
            assert(all.take(i + 1).drop_last() =~= all.take(i as int));
            assert(all.take(i + 1).last() == all[i as int]);
        }
        if same(element.attributes[i].0.as_str(), key) {
            if let Ok(value) = &element.attributes[i].1 {
                found = Some(copy_text(value.as_str()));
            }
        }
        i = i + 1;
    }
    proof {
        assert(all.take(element.attributes@.len() as int) =~= all);
    }
    found
}

proof fn lemma_fault_stays(
    attributes: Seq<(Seq<char>, Result<Seq<char>, Seq<char>>)>,
    in_case: bool,
    n: int,
)
    requires
        0 <= n <= attributes.len(),
        fault_in(attributes.take(n), in_case) is Some,
    ensures
        fault_in(attributes, in_case) == fault_in(attributes.take(n), in_case),
    decreases attributes.len() - n,
{
    if n == attributes.len() {
        assert(attributes.take(n) =~= attributes);
    } else {
        assert(attributes.take(n + 1).drop_last() =~= attributes.take(n));
        lemma_fault_stays(attributes, in_case, n + 1);
    }
}

fn find_fault(element: &XmlElement, in_case: bool) -> (r: Option<String>)
    ensures
        crate::text::opt_text(r) == fault_in(element@.attributes, in_case),
{
    let ghost all = element@.attributes;
    let mut i: usize = 0;
    proof {
        assert(all.take(0).len() == 0);
    }
    while i < element.attributes.len()
        invariant
            i <= element.attributes@.len(),
            all == attribute_views(element.attributes@),
            all == element@.attributes,
            fault_in(all.take(i as int), in_case) is None,
        decreases element.attributes@.len() - i,
    {
        proof {
            assert(all.take(i + 1).drop_last() =~= all.take(i as int));
            assert(all.take(i + 1).last() == all[i as int]);
        }
        let key = element.attributes[i].0.as_str();
        if same(key, "name") || same(key, "file") || (in_case && same(key, "time")) {
            if let Err(fault) = &element.attributes[i].1 {
                proof {
                    lemma_fault_stays(all, in_case, i + 1);
                }
                return Some(copy_text(fault.as_str()));
            }
        }
        i = i + 1;
    }
    proof {
        assert(all.take(element.attributes@.len() as int) =~= all);
    }
    None
}

fn text_or_empty(text: Option<String>) -> (r: String)
    ensures
        r@ == or_empty(crate::text::opt_text(text)),
{
    match text {
        Some(text) => text,
        None => {
            let r = String::new();
            proof {
                assert(r@ =~= Seq::<char>::empty());
            }
            r
        },
    }
}

/// The name of a suite, and whether it is that of a file; or what is wrong with
/// its attributes.
pub open spec fn suite_of(e: ElementView) -> Result<(Seq<char>, bool), Seq<char>> {
    match fault_in(e.attributes, false) {
        Some(fault) => Err(fault),
        None => {
            let name = or_empty(attribute(e.attributes, "name"@));
            Ok((name, attribute(e.attributes, "file"@) == Some(name)))
        },
    }
}

/// The names of the suites that are describes.
pub open spec fn describes_of(suites: Seq<(Seq<char>, bool)>) -> Seq<Seq<char>>
    decreases suites.len(),
{
    if suites.len() == 0 {
        Seq::empty()
    } else {
        let front = describes_of(suites.drop_last());
        if suites.last().1 {
            front
        } else {
            front.push(suites.last().0)
        }
    }
}

/// The test case that an element inside some suites begins; or what is wrong
/// with its attributes.
pub open spec fn case_of(e: ElementView, suites: Seq<(Seq<char>, bool)>) -> Result<
    CaseView,
    Seq<char>,
> {
    match fault_in(e.attributes, true) {
        Some(fault) => Err(fault),
        None => Ok(
            CaseView {
                file: attribute(e.attributes, "file"@),
                describes: describes_of(suites),
                name: or_empty(attribute(e.attributes, "name"@)),
                time: or_empty(attribute(e.attributes, "time"@)),
                failed: false,
                skipped: false,
            },
        ),
    }
}

/// How far a report has been read.
pub struct Progress {
    pub cases: Seq<CaseView>,
    /// The open suites, outermost first.
    pub suites: Seq<(Seq<char>, bool)>,
    /// The open test case.
    pub current: Option<CaseView>,
}

/// Nothing has been read yet.
pub open spec fn begun() -> Progress {
    Progress { cases: Seq::empty(), suites: Seq::empty(), current: None }
}

/// A test case that an element inside it marks.
pub open spec fn marked(current: Option<CaseView>, name: Seq<char>) -> Option<CaseView> {
    match current {
        Some(c) => if name == "failure"@ || name == "error"@ {
            Some(CaseView { failed: true, ..c })
        } else if name == "skipped"@ {
            Some(CaseView { skipped: true, ..c })
        } else {
            Some(c)
        },
        None => None,
    }
}

/// One event further, or what is wrong with an attribute.
pub open spec fn after_event(p: Progress, e: EventView) -> Result<Progress, Seq<char>> {
    match e {
        EventView::Start(e) => if e.name == "testsuite"@ {
            match suite_of(e) {
                Ok(suite) => Ok(Progress { suites: p.suites.push(suite), ..p }),
                Err(fault) => Err(fault),
            }
        } else if e.name == "testcase"@ {
            match case_of(e, p.suites) {
                Ok(c) => Ok(Progress { current: Some(c), ..p }),
                Err(fault) => Err(fault),
            }
        } else {
            Ok(Progress { current: marked(p.current, e.name), ..p })
        },
        EventView::Empty(e) => if e.name == "testsuite"@ {
            Ok(p)
        } else if e.name == "testcase"@ {
            match case_of(e, p.suites) {
                Ok(c) => Ok(Progress { cases: p.cases.push(c), ..p }),
                Err(fault) => Err(fault),
            }
        } else {
            Ok(Progress { current: marked(p.current, e.name), ..p })
        },
        EventView::End(name) => if name == "testsuite"@ {
            Ok(
                Progress {
                    suites: if p.suites.len() == 0 {
                        p.suites
                    } else {
                        p.suites.drop_last()
                    },
                    ..p
                },
            )
        } else if name == "testcase"@ {
            match p.current {
                Some(c) => Ok(Progress { cases: p.cases.push(c), current: None, ..p }),
                None => Ok(p),
            }
        } else {
            Ok(p)
        },
        EventView::Other => Ok(p),
    }
}

/// The progress after a list of events, or what is wrong with an attribute.
pub open spec fn after_events(events: Seq<EventView>) -> Result<Progress, Seq<char>>
    decreases events.len(),
{
    if events.len() == 0 {
        Ok(begun())
    } else {
        match after_events(events.drop_last()) {
            Ok(p) => after_event(p, events.last()),
            Err(fault) => Err(fault),
        }
    }
}

/// The test cases of a report, in document order, or what is wrong with it.
pub open spec fn cases_of(events: Seq<EventView>) -> Result<Seq<CaseView>, Seq<char>> {
    match after_events(events) {
        Ok(p) => Ok(p.cases),
        Err(fault) => Err(fault),
    }
}

/// The characters of a list of suites.
pub open spec fn suite_views(v: Seq<(String, bool)>) -> Seq<(Seq<char>, bool)> {
    v.map_values(|s: (String, bool)| (s.0@, s.1))
}

fn read_suite(e: &XmlElement) -> (r: Result<(String, bool), String>)
    ensures
        match r {
            Ok(suite) => suite_of(e@) == Ok::<(Seq<char>, bool), Seq<char>>((suite.0@, suite.1)),
            Err(fault) => suite_of(e@) == Err::<(Seq<char>, bool), Seq<char>>(fault@),
        },
{
    if let Some(fault) = find_fault(e, false) {
        return Err(fault);
    }
    let name = text_or_empty(get_attribute(e, "name"));
    let is_file = match get_attribute(e, "file") {
        Some(file) => same(file.as_str(), name.as_str()),
        None => false,
    };
    Ok((name, is_file))
}

fn read_describes(suites: &Vec<(String, bool)>) -> (r: Vec<String>)
    ensures
        crate::text::texts(r@) == describes_of(suite_views(suites@)),
{
    let ghost all = suite_views(suites@);
    let mut out: Vec<String> = Vec::new();
    let mut i: usize = 0;
    proof {
        assert(crate::text::texts(out@) =~= describes_of(all.take(0)));
    }
    while i < suites.len()
        invariant
            i <= suites@.len(),
            all == suite_views(suites@),
            crate::text::texts(out@) == describes_of(all.take(i as int)),
        decreases suites@.len() - i,
    {
        proof {
            assert(all.take(i + 1).drop_last() =~= all.take(i as int));
            assert(all.take(i + 1).last() == all[i as int]);
        }
        if !suites[i].1 {
            let name = copy_text(suites[i].0.as_str());
            proof {
                crate::text::lemma_texts_push(out@, name);
            }
            out.push(name);
        }
        i = i + 1;
    }
    proof {
        assert(all.take(suites@.len() as int) =~= all);
    }
    out
}

fn read_case(e: &XmlElement, suites: &Vec<(String, bool)>) -> (r: Result<JunitCase, String>)
    ensures
        match r {
            Ok(case) => case_of(e@, suite_views(suites@)) == Ok::<CaseView, Seq<char>>(case@),
            Err(fault) => case_of(e@, suite_views(suites@)) == Err::<CaseView, Seq<char>>(fault@),
        },
{
    if let Some(fault) = find_fault(e, true) {
        return Err(fault);
    }
    Ok(
        JunitCase {
            file: get_attribute(e, "file"),
            describes: read_describes(suites),
            name: text_or_empty(get_attribute(e, "name")),
            time: text_or_empty(get_attribute(e, "time")),
            failed: false,
            skipped: false,
        },
    )
}

/// The value of an optional test case.
pub open spec fn opt_case(c: Option<JunitCase>) -> Option<CaseView> {
    match c {
        Some(c) => Some(c@),
        None => None,
    }
}

fn mark(current: Option<JunitCase>, name: &str) -> (r: Option<JunitCase>)
    ensures
        opt_case(r) == marked(opt_case(current), name@),
{
    match current {
        Some(c) => {
            let mut c = c;
            if same(name, "failure") || same(name, "error") {
                c.failed = true;
            } else if same(name, "skipped") {
                c.skipped = true;
            }
            Some(c)
        },
        None => None,
    }
}

fn push_case(cases: &mut Vec<JunitCase>, c: JunitCase)
    ensures
        case_views(final(cases)@) == case_views(old(cases)@).push(c@),
{
    let ghost before = cases@;
    cases.push(c);
    proof {
        assert(case_views(cases@) =~= case_views(before).push(c@));
    }
}

/// The test cases of a report given by its events, in document order; or what is
/// wrong with it.
pub fn cases_in(events: &Vec<XmlEvent>) -> (r: Result<Vec<JunitCase>, String>)
    ensures
        cases_of(event_views(events@)) == cases_view(r),
{
    let ghost all = event_views(events@);
    let mut cases: Vec<JunitCase> = Vec::new();
    let mut suites: Vec<(String, bool)> = Vec::new();
    let mut current: Option<JunitCase> = None;
    let mut i: usize = 0;
    proof {
        assert(case_views(cases@) =~= Seq::<CaseView>::empty());
        assert(suite_views(suites@) =~= Seq::<(Seq<char>, bool)>::empty());
        assert(all.take(0) =~= Seq::<EventView>::empty());
    }
    while i < events.len()
        invariant
            i <= events@.len(),
            all == event_views(events@),
            after_events(all.take(i as int)) == Ok::<Progress, Seq<char>>(
                Progress {
                    cases: case_views(cases@),
                    suites: suite_views(suites@),
                    current: opt_case(current),
                },
            ),
        decreases events@.len() - i,
    {
        let ghost p = Progress {
            cases: case_views(cases@),
            suites: suite_views(suites@),
            current: opt_case(current),
        };
        proof {
            assert(all.take(i + 1).drop_last() =~= all.take(i as int));
            assert(all.take(i + 1).last() == events@[i as int]@);
            assert(after_events(all.take(i + 1)) == after_event(p, events@[i as int]@));
        }
        match &events[i] {
            XmlEvent::Start(e) => {
                if same(e.name.as_str(), "testsuite") {
                    match read_suite(e) {
                        Ok(suite) => {
                            let ghost before = suites@;
                            suites.push(suite);
                            proof {
                                assert(suite_views(suites@) =~= suite_views(before).push(
                                    (suite.0@, suite.1),
                                ));
                            }
                        },
                        Err(fault) => {
                            proof {
                                lemma_stays_unread(all, i + 1);
                            }
                            return Err(fault);
                        },
                    }
                } else if same(e.name.as_str(), "testcase") {
                    match read_case(e, &suites) {
                        Ok(c) => {
                            current = Some(c);
                        },
                        Err(fault) => {
                            proof {
                                lemma_stays_unread(all, i + 1);
                            }
                            return Err(fault);
                        },
                    }
                } else {
                    current = mark(current, e.name.as_str());
                }
            },
            XmlEvent::Empty(e) => {
                if same(e.name.as_str(), "testsuite") {
                } else if same(e.name.as_str(), "testcase") {
                    match read_case(e, &suites) {
                        Ok(c) => {
                            push_case(&mut cases, c);
                        },
                        Err(fault) => {
                            proof {
                                lemma_stays_unread(all, i + 1);
                            }
                            return Err(fault);
                        },
                    }
                } else {
                    current = mark(current, e.name.as_str());
                }
            },
            XmlEvent::End(name) => {
                if same(name.as_str(), "testsuite") {
                    if suites.len() > 0 {
                        let ghost before = suites@;
                        suites.pop();
                        proof {
                            assert(suite_views(suites@) =~= suite_views(before).drop_last());
                        }
                    } else {
                        proof {
                            assert(suite_views(suites@).len() == 0);
                        }
                    }
                } else if same(name.as_str(), "testcase") {
                    match current {
                        Some(c) => {
                            push_case(&mut cases, c);
                        },
                        None => {},
                    }
                    current = None;
                }
            },
            XmlEvent::Other => {},
        }
        i = i + 1;
    }
    proof {
        assert(all.take(events@.len() as int) =~= all);
    }
    Ok(cases)
}

proof fn lemma_stays_unread(events: Seq<EventView>, i: int)
    requires
        0 <= i <= events.len(),
        after_events(events.take(i)) is Err,
    ensures
        after_events(events) == after_events(events.take(i)),
    decreases events.len() - i,
{
    if i == events.len() {
        assert(events.take(i) =~= events);
    } else {
        assert(events.take(i + 1).drop_last() =~= events.take(i));
        lemma_stays_unread(events, i + 1);
    }
}

/// The test cases of a junit report, or the first thing that is wrong with it.
pub open spec fn junit_cases(xml: Seq<char>) -> Result<Seq<CaseView>, Seq<char>> {
    match (cases_of(xml_events(xml).0), xml_events(xml).1) {
        (Err(fault), _) => Err(fault),
        (Ok(_), Some(fault)) => Err(fault),
        (Ok(cases), None) => Ok(cases),
    }
}

/// Reads a junit report.
pub fn parse_junit(xml: &str) -> (r: Result<Vec<JunitCase>, String>)
    ensures
        junit_cases(xml@) == cases_view(r),
{
    let (events, fault) = read_xml(xml);
    match (cases_in(&events), fault) {
        (Err(fault), _) => Err(fault),
        (Ok(_), Some(fault)) => Err(fault),
        (Ok(cases), None) => Ok(cases),
    }
}

/// The cases that were executed, in document order: the n-th of them has
/// ordinal n.
pub open spec fn executed(cases: Seq<CaseView>) -> Seq<CaseView>
    decreases cases.len(),
{
    if cases.len() == 0 {
        Seq::empty()
    } else {
        let front = executed(cases.drop_last());
        if cases.last().skipped {
            front
        } else {
            front.push(cases.last())
        }
    }
}

/// The cases that were executed, in document order.
pub fn keep_executed(cases: Vec<JunitCase>) -> (r: Vec<JunitCase>)
    ensures
        case_views(r@) == executed(case_views(cases@)),
{
    let ghost all = case_views(cases@);
    let mut rest: Vec<JunitCase> = Vec::new();
    let mut cases = cases;
    // Turned round, so that the first case is the last to take.
    while cases.len() > 0
        invariant
            cases@.len() + rest@.len() == all.len(),
            forall|k: int| 0 <= k < cases@.len() ==> (#[trigger] cases@[k])@ == all[k],
            forall|k: int| 0 <= k < rest@.len() ==> (#[trigger] rest@[k])@ == all[all.len() - 1 - k],
        decreases cases@.len(),
    {
        let next = cases.pop();
        if let Some(c) = next {
            rest.push(c);
        }
    }
    let mut out: Vec<JunitCase> = Vec::new();
    let ghost mut done: int = 0;
    proof {
        assert(case_views(out@) =~= executed(all.take(0)));
    }
    while rest.len() > 0
        invariant
            0 <= done,
            done + rest@.len() == all.len(),
            forall|k: int| 0 <= k < rest@.len() ==> (#[trigger] rest@[k])@ == all[all.len() - 1 - k],
            case_views(out@) == executed(all.take(done)),
        decreases rest@.len(),
    {
        let ghost before = rest@;
        let next = rest.pop();
        if let Some(c) = next {
            proof {
                assert(before[before.len() - 1]@ == all[done]);
                assert(all.take(done + 1).drop_last() =~= all.take(done));
                assert(all.take(done + 1).last() == c@);
                assert forall|k: int| 0 <= k < rest@.len() implies (#[trigger] rest@[k])@
                    == all[all.len() - 1 - k] by {
                    assert(rest@[k] == before[k]);
                }
                done = done + 1;
            }
            if !c.skipped {
                push_case(&mut out, c);
            }
        }
    }
    proof {
        assert(all.take(done) =~= all);
    }
    out
}

/// The ids of the failed cases, in order.
pub open spec fn failed_ids(cases: Seq<CaseView>) -> Seq<Seq<char>>
    decreases cases.len(),
{
    if cases.len() == 0 {
        Seq::empty()
    } else {
        let front = failed_ids(cases.drop_last());
        if cases.last().failed {
            front.push(id_of(cases.last()))
        } else {
            front
        }
    }
}

/// The ids of the failed cases, in order.
pub fn list_failed(cases: &Vec<JunitCase>) -> (r: Vec<String>)
    ensures
        crate::text::texts(r@) == failed_ids(case_views(cases@)),
{
    let ghost all = case_views(cases@);
    let mut out: Vec<String> = Vec::new();
    let mut i: usize = 0;
    proof {
        assert(crate::text::texts(out@) =~= failed_ids(all.take(0)));
    }
    while i < cases.len()
        invariant
            i <= cases@.len(),
            all == case_views(cases@),
            crate::text::texts(out@) == failed_ids(all.take(i as int)),
        decreases cases@.len() - i,
    {
        proof {
            assert(all.take(i + 1).drop_last() =~= all.take(i as int));
            assert(all.take(i + 1).last() == cases@[i as int]@);
        }
        if cases[i].failed {
            let id = cases[i].test_id();
            proof {
                crate::text::lemma_texts_push(out@, id);
            }
            out.push(id);
        }
        i = i + 1;
    }
    proof {
        assert(all.take(cases@.len() as int) =~= all);
    }
    out
}

proof fn lemma_executed_kept(cases: Seq<CaseView>)
    ensures
        executed(cases).len() <= cases.len(),
        forall|i: int| 0 <= i < executed(cases).len() ==> !(#[trigger] executed(cases)[i]).skipped,
        (forall|i: int| 0 <= i < cases.len() ==> !(#[trigger] cases[i]).skipped) ==> executed(cases)
            == cases,
    decreases cases.len(),
{
    if cases.len() > 0 {
        lemma_executed_kept(cases.drop_last());
        if forall|i: int| 0 <= i < cases.len() ==> !(#[trigger] cases[i]).skipped {
            assert(!cases[cases.len() - 1].skipped);
            assert forall|i: int| 0 <= i < cases.drop_last().len() implies !(
            #[trigger] cases.drop_last()[i]).skipped by {
                assert(cases.drop_last()[i] == cases[i]);
            }
            assert(cases =~= cases.drop_last().push(cases.last()));
        }
    }
}

/// No skipped case has an ordinal, and where none is skipped the ordinals are
/// the places in the document.
pub proof fn law_ordinals_leave_out_skipped(cases: Seq<CaseView>)
    ensures
        forall|i: int| 0 <= i < executed(cases).len() ==> !(#[trigger] executed(cases)[i]).skipped,
        (forall|i: int| 0 <= i < cases.len() ==> !(#[trigger] cases[i]).skipped) ==> executed(cases)
            == cases,
{
    lemma_executed_kept(cases);
}

// ---- what a report says of its tests ----

/// The cases that ran are those that were not skipped, in order, and the failed
/// ids are those of the cases that failed.
pub proof fn law_executed_and_failed(cases: Seq<CaseView>)
    ensures
        executed(cases) == cases.filter(|c: CaseView| !c.skipped),
        failed_ids(cases) == cases.filter_map(
            |c: CaseView|
                if c.failed {
                    Some(id_of(c))
                } else {
                    None
                },
        ),
    decreases cases.len(),
{
    reveal(Seq::filter);
    let pick = |c: CaseView|
        if c.failed {
            Some(id_of(c))
        } else {
            None
        };
    if cases.len() > 0 {
        law_executed_and_failed(cases.drop_last());
    }
    assert(failed_ids(cases) =~= cases.filter_map(pick));
}

/// The id of a case is its file, the names around it and its own, outermost first,
/// with arrows between them.
pub proof fn law_ids_of_cases(c: CaseView, file: Seq<char>, around: Seq<char>)
    ensures
        c.file == Some(file) && c.describes.len() == 0 ==> id_of(c) == file + " > "@ + c.name,
        c.file is None && c.describes.len() == 0 ==> id_of(c) == c.name,
        c.file == Some(file) && c.describes == seq![around] ==> id_of(c) == file + " > "@ + around
            + " > "@ + c.name,
        c.file == Some(file) ==> id_of(c) == crate::text::joined(
            seq![file] + c.describes + seq![c.name],
            " > "@,
        ),
        c.file is None ==> id_of(c) == crate::text::joined(c.describes + seq![c.name], " > "@),
{
    let tail = c.describes.push(c.name);
    assert(tail =~= c.describes + seq![c.name]);
    assert(seq![file] + tail =~= seq![file] + c.describes + seq![c.name]);
    reveal_with_fuel(crate::text::joined, 4);
    if c.describes.len() == 0 {
        let two = seq![file] + tail;
        assert(tail.len() == 1 && tail[0] == c.name);
        assert(two.len() == 2 && two.last() == c.name);
        assert(two.drop_last() =~= seq![file]);
        assert(crate::text::joined(seq![file], " > "@) == file);
    }
    if c.describes == seq![around] {
        let three = seq![file] + tail;
        assert(three.len() == 3 && three.last() == c.name);
        assert(three.drop_last() =~= seq![file, around]);
        assert(seq![file, around].drop_last() =~= seq![file]);
        assert(seq![file, around].last() == around);
        assert(crate::text::joined(seq![file], " > "@) == file);
        assert(crate::text::joined(seq![file, around], " > "@) == file + " > "@ + around);
    }
}

/// An attribute has the value that is given last under its name.
pub proof fn law_last_attribute_counts(
    attributes: Seq<(Seq<char>, Result<Seq<char>, Seq<char>>)>,
    key: Seq<char>,
)
    ensures
        match attribute(attributes, key) {
            Some(value) => exists|i: int|
                0 <= i < attributes.len() && (#[trigger] attributes[i]).0 == key && attributes[i].1
                    == Ok::<Seq<char>, Seq<char>>(value) && forall|j: int|
                    i < j < attributes.len() ==> !((#[trigger] attributes[j]).0 == key
                        && attributes[j].1 is Ok),
            None => forall|i: int|
                0 <= i < attributes.len() ==> !((#[trigger] attributes[i]).0 == key
                    && attributes[i].1 is Ok),
        },
    decreases attributes.len(),
{
    if attributes.len() > 0 {
        let front = attributes.drop_last();
        let last = attributes.last();
        assert(attributes[attributes.len() - 1] == last);
        if !(last.0 == key && last.1 is Ok) {
            law_last_attribute_counts(front, key);
            match attribute(front, key) {
                Some(value) => {
                    let i = choose|i: int|
                        0 <= i < front.len() && (#[trigger] front[i]).0 == key && front[i].1
                            == Ok::<Seq<char>, Seq<char>>(value) && forall|j: int|
                            i < j < front.len() ==> !((#[trigger] front[j]).0 == key
                                && front[j].1 is Ok);
                    assert(attributes[i] == front[i]);
                    assert forall|j: int| i < j < attributes.len() implies !((
                    #[trigger] attributes[j]).0 == key && attributes[j].1 is Ok) by {
                        if j < front.len() {
                            assert(front[j] == attributes[j]);
                        }
                    }
                },
                None => {
                    assert forall|i: int| 0 <= i < attributes.len() implies !((
                    #[trigger] attributes[i]).0 == key && attributes[i].1 is Ok) by {
                        if i < front.len() {
                            assert(front[i] == attributes[i]);
                        }
                    }
                },
            }
        }
    }
}

/// An element is refused exactly where a name, a file or, of a case, a time cannot
/// be read.
pub proof fn law_unreadable_attributes(
    attributes: Seq<(Seq<char>, Result<Seq<char>, Seq<char>>)>,
    in_case: bool,
)
    ensures
        fault_in(attributes, in_case) is Some <==> exists|i: int|
            0 <= i < attributes.len() && (#[trigger] attributes[i]).1 is Err && (attributes[i].0
                == "name"@ || attributes[i].0 == "file"@ || (in_case && attributes[i].0 == "time"@)),
        fault_in(attributes, in_case) matches Some(fault) ==> exists|i: int|
            0 <= i < attributes.len() && (#[trigger] attributes[i]).1 == Err::<
                Seq<char>,
                Seq<char>,
            >(fault),
    decreases attributes.len(),
{
    if attributes.len() > 0 {
        let front = attributes.drop_last();
        let last = attributes.last();
        law_unreadable_attributes(front, in_case);
        assert(attributes[attributes.len() - 1] == last);
        assert forall|i: int| 0 <= i < front.len() implies #[trigger] attributes[i] == front[i] by {}
        if fault_in(front, in_case) is Some {
            let i = choose|i: int|
                0 <= i < front.len() && (#[trigger] front[i]).1 is Err && (front[i].0 == "name"@
                    || front[i].0 == "file"@ || (in_case && front[i].0 == "time"@));
            assert(attributes[i] == front[i]);
            let fault = fault_in(front, in_case)->0;
            let k = choose|k: int|
                0 <= k < front.len() && (#[trigger] front[k]).1 == Err::<Seq<char>, Seq<char>>(
                    fault,
                );
            assert(attributes[k] == front[k]);
        }
        if exists|i: int|
            0 <= i < attributes.len() && (#[trigger] attributes[i]).1 is Err && (attributes[i].0
                == "name"@ || attributes[i].0 == "file"@ || (in_case && attributes[i].0
                == "time"@)) {
            let i = choose|i: int|
                0 <= i < attributes.len() && (#[trigger] attributes[i]).1 is Err && (
                attributes[i].0 == "name"@ || attributes[i].0 == "file"@ || (in_case
                    && attributes[i].0 == "time"@));
            if i < front.len() {
                assert(front[i] == attributes[i]);
            }
        }
    }
}

/// The names around a case are those of the open suites that do not stand for a
/// file.
pub proof fn law_names_around_a_case(suites: Seq<(Seq<char>, bool)>)
    ensures
        describes_of(suites) == suites.filter_map(
            |s: (Seq<char>, bool)|
                if s.1 {
                    None
                } else {
                    Some(s.0)
                },
        ),
    decreases suites.len(),
{
    let pick = |s: (Seq<char>, bool)|
        if s.1 {
            None
        } else {
            Some(s.0)
        };
    if suites.len() > 0 {
        law_names_around_a_case(suites.drop_last());
    }
    assert(describes_of(suites) =~= suites.filter_map(pick));
}

/// What follows an event, where reading goes on.
pub open spec fn followed(p: Progress, e: EventView) -> Progress {
    after_event(p, e)->Ok_0
}

/// A suite that is opened and closed leaves everything as it was, and in between
/// it is the innermost one; it stands for a file where its file is its name.
pub proof fn law_suites_open_and_close(p: Progress, e: ElementView, name: Seq<char>)
    requires
        e.name == "testsuite"@,
        fault_in(e.attributes, false) is None,
        attribute(e.attributes, "name"@) == Some(name),
    ensures
        after_event(p, EventView::Start(e)) is Ok,
        followed(p, EventView::Start(e)).suites == p.suites.push(
            (name, attribute(e.attributes, "file"@) == Some(name)),
        ),
        followed(p, EventView::Start(e)).cases == p.cases,
        followed(p, EventView::Start(e)).current == p.current,
        after_event(followed(p, EventView::Start(e)), EventView::End("testsuite"@)) == Ok::<
            Progress,
            Seq<char>,
        >(p),
        after_event(p, EventView::Empty(e)) == Ok::<Progress, Seq<char>>(p),
{
    let inside = followed(p, EventView::Start(e));
    assert(inside.suites.drop_last() =~= p.suites);
}

/// A case is listed where it ends, with the file, the name and the time of its
/// element and the names of the suites around it. It failed where a failure or an
/// error is marked inside it, and was skipped where that is.
pub proof fn law_cases_take_their_marks(p: Progress, e: ElementView, mark: ElementView)
    requires
        e.name == "testcase"@,
        fault_in(e.attributes, true) is None,
        mark.name != "testcase"@,
        mark.name != "testsuite"@,
    ensures
        ({
            let plain = CaseView {
                file: attribute(e.attributes, "file"@),
                describes: describes_of(p.suites),
                name: match attribute(e.attributes, "name"@) {
                    Some(name) => name,
                    None => Seq::empty(),
                },
                time: match attribute(e.attributes, "time"@) {
                    Some(time) => time,
                    None => Seq::empty(),
                },
                failed: false,
                skipped: false,
            };
            let opened = followed(p, EventView::Start(e));
            let noted = followed(opened, EventView::Empty(mark));
            let open_mark = followed(opened, EventView::Start(mark));
            let marked = CaseView {
                failed: mark.name == "failure"@ || mark.name == "error"@,
                skipped: mark.name == "skipped"@,
                ..plain
            };
            let closed = followed(opened, EventView::End("testcase"@));
            let ended = followed(noted, EventView::End("testcase"@));
            &&& after_event(p, EventView::Start(e)) is Ok
            &&& closed.cases == p.cases.push(plain) && closed.current is None && closed.suites
                == p.suites
            &&& ended.cases == p.cases.push(marked) && ended.current is None && ended.suites
                == p.suites
            &&& open_mark == noted
            &&& followed(p, EventView::Empty(e)).cases == p.cases.push(plain)
        }),
{
    reveal_strlit("failure");
    reveal_strlit("error");
    reveal_strlit("skipped");
    reveal_strlit("testcase");
    reveal_strlit("testsuite");
    assert("failure"@.len() == 7 && "error"@.len() == 5 && "skipped"@.len() == 7);
    assert("failure"@[0] == 'f' && "skipped"@[0] == 's');
    assert("testcase"@.len() == 8 && "testsuite"@.len() == 9);
}

/// A report gives its cases where it can be read to its end, and otherwise what is
/// wrong with it.
pub proof fn law_reports_are_read_whole(xml: Seq<char>)
    ensures
        junit_cases(xml) is Ok <==> xml_events(xml).1 is None && after_events(
            xml_events(xml).0,
        ) is Ok,
        junit_cases(xml) matches Ok(cases) ==> cases == after_events(xml_events(xml).0)->Ok_0.cases,
        after_events(Seq::empty()) == Ok::<Progress, Seq<char>>(
            Progress { cases: Seq::empty(), suites: Seq::empty(), current: None },
        ),
{
}

/// The attributes of an element are those that can be read, in order, and the
/// events of a report are its tags with them.
pub proof fn law_events_of_tags(
    list: Seq<Result<(Seq<char>, Result<Seq<char>, Seq<char>>), Seq<char>>>,
    name: Seq<char>,
    raw: Seq<char>,
)
    ensures
        well_formed(list) == list.filter_map(
            |a: Result<(Seq<char>, Result<Seq<char>, Seq<char>>), Seq<char>>|
                match a {
                    Ok(attribute) => Some(attribute),
                    Err(_) => None,
                },
        ),
        event_of(TagView::Start(name, raw)) == EventView::Start(
            ElementView { name, attributes: well_formed(xml_attributes(raw)) },
        ),
        event_of(TagView::Empty(name, raw)) == EventView::Empty(
            ElementView { name, attributes: well_formed(xml_attributes(raw)) },
        ),
        event_of(TagView::End(name)) == EventView::End(name),
        event_of(TagView::Other) == EventView::Other,
    decreases list.len(),
{
    let pick = |a: Result<(Seq<char>, Result<Seq<char>, Seq<char>>), Seq<char>>|
        match a {
            Ok(attribute) => Some(attribute),
            Err(_) => None,
        };
    if list.len() > 0 {
        law_events_of_tags(list.drop_last(), name, raw);
    }
    assert(well_formed(list) =~= list.filter_map(pick));
}

} // verus!
