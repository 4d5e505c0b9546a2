//! The XML adapter of the delimited attribute list. On encode the list
//! contributes one character-data event holding the joined wire string, and
//! passes attributes and namespaces through unchanged. On decode a scan runs
//! over the incoming events: nested element starts are skipped, the first
//! character-data event is decoded as the wire string, and anything else —
//! including a stream that ends first — fails the decode.

use vstd::prelude::*;

use crate::attribute_list::{
    all_wires_ok, decode_post, fragment_models, fragments_ok, lemma_round_trip, list_wire,
    parse_list_with_delimiter, AttributeList, CodecError, Delimiter, ElementCodec,
};
use crate::wire::{is_whitespace, split_on, strip_whitespace};

verus! {

/// One event of an XML stream, as far as this adapter tells them apart.
/// Everything that is neither the start of an element nor character data
/// stops the scan, so it all folds into `Other`.
#[derive(Debug, PartialEq)]
pub enum XmlEvent {
    /// The start of a nested element.
    StartElement,
    /// Character data between tags, with its text.
    Characters(String),
    /// The end of an element.
    EndElement,
    /// Any other kind of event.
    Other,
}

/// What one scanned event makes the decode do next. The scan has three
/// states: it keeps scanning past element starts, it is done at the first
/// character data, and it has failed on anything else; once done or failed
/// it never scans again.
#[derive(Debug, PartialEq)]
pub enum ScanStep {
    /// Keep scanning: the event was the start of a nested element.
    Continue,
    /// Done: the event carried this character data.
    Found(String),
    /// Failed: the event was of no kind the scan accepts.
    Reject,
}

/// The text of the first character-data event, if the scan reaches one: the
/// scan walks initial element starts and stops at anything else.
pub open spec fn first_characters(events: Seq<XmlEvent>) -> Option<Seq<char>>
    decreases events.len(),
{
    if events.len() == 0 {
        None
    } else {
        match events.first() {
            XmlEvent::StartElement => first_characters(events.drop_first()),
            XmlEvent::Characters(s) => Some(s@),
            _ => None,
        }
    }
}

/// One transition of the scan: starts of elements are skipped, character
/// data ends the scan with its text, anything else rejects the stream.
pub fn scan_event(event: &XmlEvent) -> (r: ScanStep)
    ensures
        event is StartElement <==> r is Continue,
        event is Characters <==> r is Found,
        event matches XmlEvent::Characters(s) ==> (r matches ScanStep::Found(t) && t == s),
{
    match event {
        XmlEvent::StartElement => ScanStep::Continue,
        XmlEvent::Characters(s) => ScanStep::Found(s.clone()),
        _ => ScanStep::Reject,
    }
}

/// Initial element starts do not change what character data the scan finds.
pub proof fn lemma_first_characters_skips_starts(pre: Seq<XmlEvent>, tail: Seq<XmlEvent>)
    requires
        forall|j: int| 0 <= j < pre.len() ==> pre[j] is StartElement,
    ensures
        first_characters(pre + tail) == first_characters(tail),
    decreases pre.len(),
{
    if pre.len() == 0 {
        assert(pre + tail =~= tail);
    } else {
        assert((pre + tail).first() == pre.first());
        assert((pre + tail).drop_first() =~= pre.drop_first() + tail);
        assert(forall|j: int|
            0 <= j < pre.drop_first().len() ==> #[trigger] pre.drop_first()[j] == pre[j + 1]);
        lemma_first_characters_skips_starts(pre.drop_first(), tail);
    }
}

impl<D: Delimiter, T: ElementCodec> AttributeList<D, T> {
    /// The list's contribution to its enclosing XML element: one
    /// character-data event holding the joined wire string. An empty list is
    /// rejected, exactly as `encode` rejects it.
    pub fn encode_characters(&self) -> (r: Result<XmlEvent, CodecError>)
        ensures
            r is Ok <==> self@.len() > 0,
            self@.len() == 0 ==> r is Err && r->Err_0 == CodecError::EmptyList,
            r is Ok ==> (r->Ok_0 matches XmlEvent::Characters(s) && s@ == list_wire::<T>(
                self@,
                D::delim(),
            )),
    {
        match self.encode() {
            Ok(s) => Ok(XmlEvent::Characters(s)),
            Err(e) => Err(e),
        }
    }

    /// The list never presents itself as an XML attribute: asked to
    /// contribute attributes or namespaces, it hands back exactly what it
    /// was given.
    pub fn serialize_attributes<A, N>(&self, attributes: A, namespace: N) -> (r: Result<
        (A, N),
        CodecError,
    >)
        ensures
            r is Ok,
            r->Ok_0.0 == attributes,
            r->Ok_0.1 == namespace,
    {
        Ok((attributes, namespace))
    }

    /// The list decoded from a stream of XML events: the scan skips element
    /// starts, decodes the first character data as the wire string, and
    /// fails with `MalformedStream` on any other event or when the stream
    /// ends without character data.
    pub fn decode_from_events(events: &Vec<XmlEvent>) -> (r: Result<Self, CodecError>)
        ensures
            first_characters(events@) is None ==> (r is Err && r->Err_0
                == CodecError::MalformedStream),
            first_characters(events@) matches Some(text) ==> decode_post::<D, T>(text, r),
    {
        let n = events.len();
        let mut i: usize = 0;
        proof {
            assert(events@.skip(0) =~= events@);
        }
        while i < n
            invariant
                n == events@.len(),
                i <= n,
                first_characters(events@) == first_characters(events@.skip(i as int)),
            decreases n - i,
        {
            let ghost rest = events@.skip(i as int);
            proof {
                assert(rest.first() == events@[i as int]);
                assert(rest.drop_first() =~= events@.skip(i + 1));
            }
            match scan_event(&events[i]) {
                ScanStep::Continue => {},
                ScanStep::Found(text) => {
                    proof {
                        assert(first_characters(events@) == Some(text@));
                    }
                    return parse_list_with_delimiter::<D, T>(text.as_str());
                },
                ScanStep::Reject => {
                    return Err(CodecError::MalformedStream);
                },
            }
            i += 1;
        }
        proof {
            assert(events@.skip(n as int) =~= Seq::<XmlEvent>::empty());
        }
        Err(CodecError::MalformedStream)
    }
}

/// Round trip through the XML adapter: in a stream that opens with any run
/// of element starts, a character-data event holding the encoded wire
/// string — exactly what `encode_characters` emits for one or more values
/// whose wire forms survive the trip — is what the scan finds, and its text
/// splits and decodes back to exactly the same values, as
/// `decode_from_events` promises through these same spec functions.
pub proof fn lemma_xml_round_trip<T: ElementCodec>(
    models: Seq<T::V>,
    d: char,
    s: String,
    pre: Seq<XmlEvent>,
)
    requires
        models.len() >= 1,
        all_wires_ok::<T>(models, d),
        !is_whitespace(d),
        s@ == list_wire::<T>(models, d),
        forall|j: int| 0 <= j < pre.len() ==> pre[j] is StartElement,
    ensures
        first_characters(pre + seq![XmlEvent::Characters(s)]) == Some(list_wire::<T>(models, d)),
        list_wire::<T>(models, d).len() > 0,
        fragments_ok::<T>(split_on(strip_whitespace(list_wire::<T>(models, d)), d)),
        fragment_models::<T>(split_on(strip_whitespace(list_wire::<T>(models, d)), d)) == models,
{
    lemma_first_characters_skips_starts(pre, seq![XmlEvent::Characters(s)]);
    assert(seq![XmlEvent::Characters(s)].first() == XmlEvent::Characters(s));
    lemma_round_trip::<T>(models, d);
}

} // verus!
