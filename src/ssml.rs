//! Reducing SSML markup to the plain text it speaks.
use vstd::prelude::*;
use crate::text::{trim, trimmed};

verus! {

#[verifier::external_type_specification]
#[verifier::external_body]
pub struct ExXmlError(quick_xml::Error);

/// The events `quick_xml` reads from a text with text trimming on, up to
/// the end: the unescaped content of each text event, `None` for any other
/// event; `None` as a whole where the markup is malformed.
pub uninterp spec fn markup_events(text: Seq<char>) -> Option<Seq<Option<Seq<char>>>>;

/// Malformed markup.
#[derive(Debug, Clone, Copy, PartialEq, Eq, Structural)]
pub enum MarkupError {
    MarkupParseError,
}

/// Relies on `quick_xml::Reader::read_event` (text trimmed, then
/// `BytesText::unescape`), read up to `Eof`: the events of the text in order.
#[verifier::external_body]
fn read_markup_events(text: &str) -> (r: Result<Vec<Option<String>>, quick_xml::Error>)
    ensures
        match r {
            Ok(v) => markup_events(text@) == Some(events_view(v@)),
            Err(_) => markup_events(text@) is None,
        },
{
    let mut reader = quick_xml::Reader::from_str(text);
    reader.trim_text(true);
    let mut events = Vec::new();
    loop {
        match reader.read_event()? {
            quick_xml::events::Event::Eof => return Ok(events),
            quick_xml::events::Event::Text(e) => events.push(Some(e.unescape()?.into_owned())),
            _ => events.push(None),
        }
    }
}

/// The text nodes of `events`, each trimmed and followed by one space;
/// a node that is blank once trimmed adds nothing.
pub open spec fn spaced_texts(events: Seq<Option<Seq<char>>>) -> Seq<char>
    decreases events.len(),
{
    if events.len() == 0 {
        Seq::empty()
    } else {
        spaced_texts(events.drop_last()) + match events.last() {
            Some(t) => if trimmed(t).len() == 0 {
                Seq::empty()
            } else {
                trimmed(t) + seq![' ']
            },
            None => Seq::empty(),
        }
    }
}

/// The view of the events as `read_markup_events` hands them over.
pub open spec fn events_view(events: Seq<Option<String>>) -> Seq<Option<Seq<char>>> {
    events.map_values(|e: Option<String>| match e {
        Some(s) => Some(s@),
        None => None,
    })
}

/// Joins the text nodes of a run of markup events: each non-blank one
/// trimmed and followed by one space, then the whole trimmed; blank nodes
/// and other events add nothing.
pub fn plain_from_events(events: &Vec<Option<String>>) -> (r: String)
    ensures
        r@ == trimmed(spaced_texts(events_view(events@))),
{
    let ghost evs = events_view(events@);
    let mut out = String::new();
    let mut i: usize = 0;
    while i < events.len()
        invariant
            i <= events@.len(),
            evs == events_view(events@),
            out@ == spaced_texts(evs.subrange(0, i as int)),
        decreases events@.len() - i,
    {
        assert(evs.subrange(0, i + 1).drop_last() =~= evs.subrange(0, i as int));
        if let Some(t) = &events[i] {
            let piece = trim(t.as_str());
            if piece.as_str().unicode_len() > 0 {
                out.append(piece.as_str());
                proof {
                    reveal_strlit(" ");
                }
                out.append(" ");
            }
        }
        assert(out@ =~= spaced_texts(evs.subrange(0, i + 1)));
        i = i + 1;
    }
    assert(evs.subrange(0, events@.len() as int) =~= evs);
    trim(out.as_str())
}

/// The plain text of markup: its text nodes, each trimmed, separated by
/// single spaces, with the whole trimmed; tags are dropped.
pub fn ssml_to_plain(text: &str) -> (r: Result<String, MarkupError>)
    ensures
        match markup_events(text@) {
            Some(events) => r is Ok && r->Ok_0@ == trimmed(spaced_texts(events)),
            None => r == Err::<String, MarkupError>(MarkupError::MarkupParseError),
        },
{
    match read_markup_events(text) {
        Ok(events) => Ok(plain_from_events(&events)),
        Err(_) => Err(MarkupError::MarkupParseError),
    }
}

} // verus!
