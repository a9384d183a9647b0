//! The text of one slide, read out of its XML part: the contents of its
//! `a:t` text runs, in document order.
use vstd::prelude::*;
use quick_xml::events::Event;
use quick_xml::Reader;
use crate::text::{chars_of, push_str, span_string, str_eq, trim, trim_bounds};

verus! {

/// One event of an XML document, as far as slide text needs it.
pub enum XmlEvent {
    /// An opening tag, by its qualified name.
    Start(String),
    /// A closing tag, by its qualified name.
    End(String),
    /// Character data.
    Text(String),
    /// An entity or character reference, by what stands between `&` and `;`.
    Reference(String),
    /// The end of the document.
    Eof,
    /// The document is not well formed here.
    Malformed,
    /// Anything else: declarations, comments, empty elements and the like.
    Other,
}

/// A name for the events that quick-xml reads from an XML document, as far
/// as slide text needs them. They depend on the document's text alone.
pub uninterp spec fn xml_events(xml: Seq<char>) -> Seq<XmlEvent>;

/// Relies on `quick_xml::Reader::read_event`, over `Reader::from_str` with
/// text trimming on: the events of `xml` in document order, up to the end of
/// the document or the first error.
#[verifier::external_body]
fn read_xml_events(xml: &str) -> (r: Vec<XmlEvent>)
    ensures
        r@ == xml_events(xml@),
{
    let mut reader = Reader::from_str(xml);
    reader.config_mut().trim_text(true);
    let mut events = Vec::new();
    loop {
        match reader.read_event() {
            Ok(Event::Start(e)) => events.push(XmlEvent::Start(e.name().0.into())),
            Ok(Event::End(e)) => events.push(XmlEvent::End(e.name().0.into())),
            Ok(Event::Text(e)) => events.push(XmlEvent::Text((*e).into())),
            Ok(Event::GeneralRef(e)) => events.push(XmlEvent::Reference((*e).into())),
            Ok(Event::Eof) | Err(_) => break,
            Ok(_) => events.push(XmlEvent::Other),
        }
    }
    events
}

/// The text a reference stands for: the character of one of XML's five
/// predefined entities, else the reference as written.
pub open spec fn reference_text(name: Seq<char>) -> Seq<char> {
    if name == "amp"@ {
        "&"@
    } else if name == "lt"@ {
        "<"@
    } else if name == "gt"@ {
        ">"@
    } else if name == "quot"@ {
        "\""@
    } else if name == "apos"@ {
        "'"@
    } else {
        "&"@ + name + ";"@
    }
}

fn push_reference(out: &mut String, name: &str)
    ensures
        final(out)@ == old(out)@ + reference_text(name@),
{
    if str_eq(name, "amp") {
        push_str(out, "&");
    } else if str_eq(name, "lt") {
        push_str(out, "<");
    } else if str_eq(name, "gt") {
        push_str(out, ">");
    } else if str_eq(name, "quot") {
        push_str(out, "\"");
    } else if str_eq(name, "apos") {
        push_str(out, "'");
    } else {
        push_str(out, "&");
        push_str(out, name);
        push_str(out, ";");
        proof {
            assert(final(out)@ =~= old(out)@ + ("&"@ + name@ + ";"@));
        }
    }
}

/// The state after scanning `events`: the text gathered so far, whether the
/// scan is inside an `a:t` run, and whether the document has ended. Inside a
/// run each piece of character data is kept, followed by a space; the scan
/// stops at the end of the document or at malformed XML.
pub open spec fn scan(events: Seq<XmlEvent>) -> (Seq<char>, bool, bool)
    decreases events.len(),
{
    if events.len() == 0 {
        (Seq::empty(), false, false)
    } else {
        let (text, in_run, ended) = scan(events.drop_last());
        if ended {
            (text, in_run, ended)
        } else {
            match events.last() {
                XmlEvent::Start(n) => (text, if n@ == "a:t"@ { true } else { in_run }, false),
                XmlEvent::End(n) => (text, if n@ == "a:t"@ { false } else { in_run }, false),
                XmlEvent::Text(t) => if in_run {
                    (text + t@ + " "@, in_run, false)
                } else {
                    (text, in_run, false)
                },
                XmlEvent::Reference(n) => if in_run {
                    (text + reference_text(n@) + " "@, in_run, false)
                } else {
                    (text, in_run, false)
                },
                XmlEvent::Eof => (text, in_run, true),
                XmlEvent::Malformed => (text, in_run, true),
                XmlEvent::Other => (text, in_run, false),
            }
        }
    }
}

/// The slide text that a sequence of events carries, trimmed.
pub open spec fn slide_text_of(events: Seq<XmlEvent>) -> Seq<char> {
    trim(scan(events).0)
}

/// The slide text that `events` carry; see `slide_text_of`.
pub fn slide_text_from_events(events: &Vec<XmlEvent>) -> (r: String)
    ensures
        r@ == slide_text_of(events@),
{
    let mut text = String::new();
    let mut in_run = false;
    let mut ended = false;
    let mut i: usize = 0;
    proof {
        assert(events@.take(0) =~= Seq::<XmlEvent>::empty());
    }
    while i < events.len()
        invariant
            i <= events@.len(),
            text@ == scan(events@.take(i as int)).0,
            in_run == scan(events@.take(i as int)).1,
            ended == scan(events@.take(i as int)).2,
        decreases events@.len() - i,
    {
        proof {
            assert(events@.take(i + 1).drop_last() =~= events@.take(i as int));
            assert(events@.take(i + 1).last() == events@[i as int]);
        }
        if !ended {
            match &events[i] {
                XmlEvent::Start(n) => {
                    if str_eq(n.as_str(), "a:t") {
                        in_run = true;
                    }
                },
                XmlEvent::End(n) => {
                    if str_eq(n.as_str(), "a:t") {
                        in_run = false;
                    }
                },
                XmlEvent::Text(t) => {
                    if in_run {
                        push_str(&mut text, t.as_str());
                        push_str(&mut text, " ");
                    }
                },
                XmlEvent::Reference(n) => {
                    if in_run {
                        push_reference(&mut text, n.as_str());
                        push_str(&mut text, " ");
                    }
                },
                XmlEvent::Eof => {
                    ended = true;
                },
                XmlEvent::Malformed => {
                    ended = true;
                },
                XmlEvent::Other => {},
            }
        }
        i = i + 1;
    }
    proof {
        assert(events@.take(events@.len() as int) =~= events@);
    }
    let v = chars_of(text.as_str());
    let (a, b) = trim_bounds(v.as_slice(), 0, v.len());
    proof {
        assert(v@.subrange(0, v@.len() as int) =~= text@);
    }
    span_string(v.as_slice(), a, b)
}

/// The text of one slide from its XML part: the contents of its `a:t` text
/// runs (predefined entities resolved), each piece followed by a space,
/// trimmed. Reading stops at the end of the
/// document or at the first malformed construct.
pub fn extract_text_from_slide_xml(xml_content: &str) -> (r: String)
    ensures
        r@ == slide_text_of(xml_events(xml_content@)),
{
    let events = read_xml_events(xml_content);
    slide_text_from_events(&events)
}

} // verus!
