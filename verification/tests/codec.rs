use android_manifest::parse_list_with_delimiter;
use android_manifest::AttributeList;
use android_manifest::CodecError;
use android_manifest::Semicolon;
use android_manifest::VerticalBar;

fn strings(values: &[&str]) -> Vec<String> {
    values.iter().map(|v| String::from(*v)).collect()
}

#[test]
fn encode_two_strings() {
    let list: AttributeList<Semicolon, String> = AttributeList::from_vec(strings(&["cat1", "cat2"]));
    assert_eq!(list.encode().unwrap(), "cat1;cat2");
}

#[test]
fn decode_two_strings() {
    let list = parse_list_with_delimiter::<Semicolon, String>("cat1;cat2").unwrap();
    assert_eq!(list.vec(), &strings(&["cat1", "cat2"]));
}

#[test]
fn decode_strips_spaces() {
    let list = parse_list_with_delimiter::<Semicolon, String>("cat1; cat2 ;cat3").unwrap();
    assert_eq!(list.vec(), &strings(&["cat1", "cat2", "cat3"]));
}

#[test]
fn decode_strips_all_whitespace() {
    let list = parse_list_with_delimiter::<Semicolon, String>("cat1;\tcat2\n;\r cat3\u{c}").unwrap();
    assert_eq!(list.vec(), &strings(&["cat1", "cat2", "cat3"]));
}

#[test]
fn decode_ignores_inserted_tabs_and_newlines() {
    let bare = parse_list_with_delimiter::<Semicolon, String>("ab;cd").unwrap();
    let spread = parse_list_with_delimiter::<Semicolon, String>("a\tb;\nc\rd").unwrap();
    assert_eq!(bare, spread);
}

#[test]
fn encode_empty_fails() {
    let semi: AttributeList<Semicolon, String> = AttributeList::new();
    assert_eq!(semi.encode(), Err(CodecError::EmptyList));
    let bar: AttributeList<VerticalBar, String> = AttributeList::new();
    assert_eq!(bar.encode(), Err(CodecError::EmptyList));
    let flags: AttributeList<Semicolon, bool> = AttributeList::new();
    assert_eq!(flags.encode(), Err(CodecError::EmptyList));
}

#[test]
fn decode_empty_fails() {
    assert_eq!(
        parse_list_with_delimiter::<Semicolon, String>(""),
        Err(CodecError::EmptyInput)
    );
    assert_eq!(
        parse_list_with_delimiter::<VerticalBar, String>(""),
        Err(CodecError::EmptyInput)
    );
}

#[test]
fn round_trip_strings() {
    let list: AttributeList<Semicolon, String> =
        AttributeList::from_vec(strings(&["alpha", "beta", "gamma"]));
    let wire = list.encode().unwrap();
    let back = parse_list_with_delimiter::<Semicolon, String>(wire.as_str()).unwrap();
    assert_eq!(back, list);

    let bars: AttributeList<VerticalBar, String> =
        AttributeList::from_vec(strings(&["alpha", "beta", "gamma"]));
    let wire = bars.encode().unwrap();
    let back = parse_list_with_delimiter::<VerticalBar, String>(wire.as_str()).unwrap();
    assert_eq!(back, bars);
}

#[test]
fn policies_produce_different_wires() {
    let semi: AttributeList<Semicolon, String> = AttributeList::from_vec(strings(&["a", "b", "c"]));
    let bar: AttributeList<VerticalBar, String> = AttributeList::from_vec(strings(&["a", "b", "c"]));
    let semi_wire = semi.encode().unwrap();
    let bar_wire = bar.encode().unwrap();
    assert_eq!(semi_wire, "a;b;c");
    assert_eq!(bar_wire, "a|b|c");
    assert_ne!(semi_wire, bar_wire);
}

#[test]
fn decode_single_value() {
    let list = parse_list_with_delimiter::<Semicolon, String>("cat1").unwrap();
    assert_eq!(list.vec().len(), 1);
    assert_eq!(list.vec(), &strings(&["cat1"]));
}

#[test]
fn decode_ignores_inserted_spaces() {
    let bare = parse_list_with_delimiter::<Semicolon, String>("a;b").unwrap();
    let spaced = parse_list_with_delimiter::<Semicolon, String>(" a ;  b ").unwrap();
    assert_eq!(bare, spaced);
}

#[test]
fn round_trip_booleans() {
    let list: AttributeList<Semicolon, bool> = AttributeList::from_vec(vec![true, false, true]);
    let wire = list.encode().unwrap();
    assert_eq!(wire, "true;false;true");
    let back = parse_list_with_delimiter::<Semicolon, bool>(wire.as_str()).unwrap();
    assert_eq!(back, list);
}

#[test]
fn decode_reports_bad_fragment() {
    let r = parse_list_with_delimiter::<Semicolon, bool>("true;maybe;false");
    match r {
        Err(CodecError::ElementDecodeFailure { index, message }) => {
            assert_eq!(index, 1);
            assert_eq!(message, "expected 'true' or 'false'");
        }
        other => panic!("expected a fragment failure, got {:?}", other),
    }
}

#[test]
fn container_operations() {
    let empty: AttributeList<Semicolon, String> = AttributeList::new();
    assert!(empty.is_empty());
    assert_eq!(empty.vec().len(), 0);

    let filled: AttributeList<Semicolon, String> = AttributeList::from_vec(strings(&["x", "y"]));
    assert!(!filled.is_empty());
    assert_eq!(filled.vec(), &strings(&["x", "y"]));
}

#[test]
fn error_messages() {
    assert_eq!(CodecError::EmptyList.message(), "a value list can't be empty");
    assert_eq!(
        CodecError::EmptyInput.message(),
        "there is no default value list. at least one value must be specified"
    );
    assert_eq!(CodecError::MalformedStream.message(), "Unable to parse attribute");
    let failure = CodecError::ElementDecodeFailure {
        index: 3,
        message: String::from("bad"),
    };
    assert_eq!(failure.message(), "bad");
}
