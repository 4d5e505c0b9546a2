use android_manifest::AttributeList;
use android_manifest::scan_event;
use android_manifest::CodecError;
use android_manifest::ScanStep;
use android_manifest::Semicolon;
use android_manifest::XmlEvent;

fn strings(values: &[&str]) -> Vec<String> {
    values.iter().map(|v| String::from(*v)).collect()
}

#[test]
fn xml_decode_stream() {
    let events = vec![
        XmlEvent::StartElement,
        XmlEvent::Characters(String::from("cat1;cat2")),
        XmlEvent::EndElement,
    ];
    let list = AttributeList::<Semicolon, String>::decode_from_events(&events).unwrap();
    assert_eq!(list.vec(), &strings(&["cat1", "cat2"]));
}

#[test]
fn xml_decode_without_characters_fails() {
    let events = vec![XmlEvent::StartElement, XmlEvent::EndElement];
    assert_eq!(
        AttributeList::<Semicolon, String>::decode_from_events(&events),
        Err(CodecError::MalformedStream)
    );
}

#[test]
fn xml_decode_exhausted_stream_fails() {
    let events: Vec<XmlEvent> = Vec::new();
    assert_eq!(
        AttributeList::<Semicolon, String>::decode_from_events(&events),
        Err(CodecError::MalformedStream)
    );
}

#[test]
fn xml_decode_empty_text_fails() {
    let events = vec![XmlEvent::Characters(String::new())];
    assert_eq!(
        AttributeList::<Semicolon, String>::decode_from_events(&events),
        Err(CodecError::EmptyInput)
    );
}

#[test]
fn xml_encode_characters() {
    let list: AttributeList<Semicolon, String> = AttributeList::from_vec(strings(&["a", "b"]));
    assert_eq!(
        list.encode_characters(),
        Ok(XmlEvent::Characters(String::from("a;b")))
    );
}

#[test]
fn xml_encode_empty_fails() {
    let list: AttributeList<Semicolon, String> = AttributeList::new();
    assert_eq!(list.encode_characters(), Err(CodecError::EmptyList));
}

#[test]
fn xml_round_trip() {
    let list: AttributeList<Semicolon, String> = AttributeList::from_vec(strings(&["m1", "m2"]));
    let event = list.encode_characters().unwrap();
    let events = vec![XmlEvent::StartElement, event, XmlEvent::EndElement];
    let back = AttributeList::<Semicolon, String>::decode_from_events(&events).unwrap();
    assert_eq!(back, list);
}

#[test]
fn attributes_pass_through_unchanged() {
    let list: AttributeList<Semicolon, String> = AttributeList::from_vec(strings(&["a"]));
    let attributes = strings(&["k=v"]);
    let namespace = 7u32;
    let (got_attributes, got_namespace) =
        list.serialize_attributes(attributes.clone(), namespace).unwrap();
    assert_eq!(got_attributes, attributes);
    assert_eq!(got_namespace, namespace);
}

#[test]
fn scan_steps() {
    assert_eq!(scan_event(&XmlEvent::StartElement), ScanStep::Continue);
    assert_eq!(
        scan_event(&XmlEvent::Characters(String::from("x"))),
        ScanStep::Found(String::from("x"))
    );
    assert_eq!(scan_event(&XmlEvent::EndElement), ScanStep::Reject);
    assert_eq!(scan_event(&XmlEvent::Other), ScanStep::Reject);
}
