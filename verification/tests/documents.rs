use json_parser::{parse_json_bytes, Json, JsonContext, JsonError, JsonValue};

/// All that a cursor gives, as owned keys and values.
fn drain(json: &Json, context: &mut JsonContext) -> Vec<(Vec<u8>, JsonValue)> {
    let mut met = Vec::new();
    while let Some((key, value)) = json.get_next_element(context) {
        met.push((key.to_vec(), *value));
        assert!(met.len() <= json.source().len());
    }
    met
}

fn children(json: &Json, value: &JsonValue) -> Vec<(Vec<u8>, JsonValue)> {
    let mut context = json.open_collection(value).expect("a collection");
    drain(json, &mut context)
}

fn root_children(json: &Json) -> Vec<(Vec<u8>, JsonValue)> {
    let mut context = json.get_root_context();
    drain(json, &mut context)
}

fn keys(met: &[(Vec<u8>, JsonValue)]) -> Vec<&[u8]> {
    met.iter().map(|(key, _)| key.as_slice()).collect()
}

fn error_of(bytes: &[u8]) -> JsonError {
    match parse_json_bytes(bytes) {
        Ok(_) => panic!("expected an error"),
        Err(error) => error,
    }
}

fn digits(json: &Json, value: &JsonValue) -> Vec<u8> {
    match value {
        JsonValue::Number(number) => json.span_bytes(&number.integer).expect("in buffer").to_vec(),
        _ => panic!("expected a number"),
    }
}

#[test]
fn double_comma_is_accepted() {
    let json = parse_json_bytes(b"{\"a\":1,,\"b\":2}").expect("lenient dialect");
    let met = root_children(&json);
    assert_eq!(keys(&met), vec![&b"a"[..], &b"b"[..]]);
    assert_eq!(digits(&json, &met[0].1), b"1");
    assert_eq!(digits(&json, &met[1].1), b"2");
}

#[test]
fn missing_comma_is_accepted() {
    let json = parse_json_bytes(b"{\"a\":1 \"b\":2}").expect("lenient dialect");
    let met = root_children(&json);
    assert_eq!(keys(&met), vec![&b"a"[..], &b"b"[..]]);
    assert_eq!(digits(&json, &met[0].1), b"1");
    assert_eq!(digits(&json, &met[1].1), b"2");
}

#[test]
fn missing_colon_is_accepted() {
    let json = parse_json_bytes(b"{\"a\" 1 \"b\"2}").expect("lenient dialect");
    let met = root_children(&json);
    assert_eq!(keys(&met), vec![&b"a"[..], &b"b"[..]]);
}

#[test]
fn duplicate_keys_are_kept() {
    let json = parse_json_bytes(b"{\"a\":1,\"a\":2}").expect("duplicates are no error");
    let met = root_children(&json);
    assert_eq!(keys(&met), vec![&b"a"[..], &b"a"[..]]);
    assert_eq!(digits(&json, &met[0].1), b"1");
    assert_eq!(digits(&json, &met[1].1), b"2");
}

#[test]
fn scalar_roots_are_rejected() {
    assert_eq!(error_of(b"\"just a string\""), JsonError::RootNotCollection);
    assert_eq!(error_of(b"42"), JsonError::RootNotCollection);
    assert_eq!(error_of(b"true"), JsonError::RootNotCollection);
    assert_eq!(error_of(b"null"), JsonError::RootNotCollection);
    assert_eq!(error_of(b"}"), JsonError::RootNotCollection);
    assert_eq!(error_of(b"]"), JsonError::RootNotCollection);
}

#[test]
fn what_follows_the_root_is_ignored() {
    let json = parse_json_bytes(b"[1] this is not json }{").expect("the root is complete");
    assert_eq!(root_children(&json).len(), 1);
    let json = parse_json_bytes(b"{}]").expect("the root is complete");
    assert_eq!(root_children(&json).len(), 0);
}

#[test]
fn each_error_has_an_input() {
    assert_eq!(error_of(b""), JsonError::UnexpectedEnd);
    assert_eq!(error_of(b"   "), JsonError::UnexpectedEnd);
    assert_eq!(error_of(b"{"), JsonError::UnexpectedEnd);
    assert_eq!(error_of(b"[1, 2"), JsonError::UnexpectedEnd);
    assert_eq!(error_of(b"{\"a\":"), JsonError::UnexpectedEnd);
    assert_eq!(error_of(b"{\"a\":[{\"b\":1}"), JsonError::UnexpectedEnd);
    assert_eq!(error_of(b"{\"a"), JsonError::UnterminatedString);
    assert_eq!(error_of(b"[\"a\\\"]"), JsonError::UnterminatedString);
    assert_eq!(error_of(b"[tru]"), JsonError::InvalidTrue);
    assert_eq!(error_of(b"[f]"), JsonError::InvalidFalse);
    assert_eq!(error_of(b"{\"a\":nil}"), JsonError::InvalidNull);
    assert_eq!(error_of(b"[x]"), JsonError::InvalidToken);
    assert_eq!(error_of(b"x"), JsonError::InvalidToken);
    assert_eq!(error_of(b"[-]"), JsonError::InvalidToken);
    assert_eq!(error_of(b"{1:2}"), JsonError::ExpectedKey);
    assert_eq!(error_of(b"{[]}"), JsonError::ExpectedKey);
    assert_eq!(error_of(b"{]"), JsonError::ExpectedKey);
    assert_eq!(error_of(b"{\"a\":1,true}"), JsonError::ExpectedKey);
    assert_eq!(error_of(b"{\"a\"}"), JsonError::ValueMissingAtObjectEnd);
    assert_eq!(error_of(b"{\"a\":]"), JsonError::ValueMissingAtArrayEnd);
    assert_eq!(error_of(b"[}"), JsonError::ObjectEndInArray);
    assert_eq!(error_of(b"[1,{\"a\":[2}]"), JsonError::ObjectEndInArray);
}

#[test]
fn an_error_deep_inside_fails_the_whole_parse() {
    assert_eq!(error_of(b"[[[[1,2,[3,x]]]]]"), JsonError::InvalidToken);
    assert_eq!(error_of(b"{\"a\":{\"b\":{\"c\":tru}}}"), JsonError::InvalidTrue);
}

#[test]
fn root_ranges_start_at_zero() {
    let json = parse_json_bytes(b"[1,2,3]").expect("an array");
    let mut context = json.get_root_context();
    let first = json.get_next_element(&mut context).expect("a first element");
    assert_eq!(first.0, b"");
    assert_eq!(digits(&json, first.1), b"1");
    let json = parse_json_bytes(b"{\"k\":[]}").expect("an object");
    let met = root_children(&json);
    assert_eq!(met, vec![(b"k".to_vec(), JsonValue::Array { start_index: 0, end_index: 0 })]);
}

#[test]
fn nested_arrays_are_passed_in_one_step() {
    let json = parse_json_bytes(b"[[1,2],[3,[4,5,6]],7,[]]").expect("arrays in arrays");
    let met = root_children(&json);
    assert_eq!(met.len(), 4);
    assert_eq!(met[0].1, JsonValue::Array { start_index: 1, end_index: 3 });
    assert_eq!(met[1].1, JsonValue::Array { start_index: 4, end_index: 9 });
    assert_eq!(digits(&json, &met[2].1), b"7");
    assert_eq!(met[3].1, JsonValue::Array { start_index: 11, end_index: 11 });

    let first = children(&json, &met[0].1);
    assert_eq!(first.len(), 2);
    assert_eq!(digits(&json, &first[0].1), b"1");
    assert_eq!(digits(&json, &first[1].1), b"2");

    let second = children(&json, &met[1].1);
    assert_eq!(second.len(), 2);
    assert_eq!(digits(&json, &second[0].1), b"3");
    assert_eq!(second[1].1, JsonValue::Array { start_index: 6, end_index: 9 });
    let innermost = children(&json, &second[1].1);
    assert_eq!(innermost.len(), 3);
    assert_eq!(digits(&json, &innermost[0].1), b"4");
    assert_eq!(digits(&json, &innermost[1].1), b"5");
    assert_eq!(digits(&json, &innermost[2].1), b"6");

    assert_eq!(children(&json, &met[3].1).len(), 0);
}

#[test]
fn nested_objects_are_passed_in_one_step() {
    let json = parse_json_bytes(b"{\"a\":{\"b\":1,\"c\":{\"d\":2}},\"e\":3,\"f\":{}}")
        .expect("objects in objects");
    let met = root_children(&json);
    assert_eq!(keys(&met), vec![&b"a"[..], &b"e"[..], &b"f"[..]]);
    assert_eq!(met[0].1, JsonValue::Object { start_index: 1, end_index: 4 });
    assert_eq!(digits(&json, &met[1].1), b"3");
    assert_eq!(met[2].1, JsonValue::Object { start_index: 6, end_index: 6 });

    let a = children(&json, &met[0].1);
    assert_eq!(keys(&a), vec![&b"b"[..], &b"c"[..]]);
    assert_eq!(digits(&json, &a[0].1), b"1");
    assert_eq!(a[1].1, JsonValue::Object { start_index: 3, end_index: 4 });
    let c = children(&json, &a[1].1);
    assert_eq!(keys(&c), vec![&b"d"[..]]);
    assert_eq!(digits(&json, &c[0].1), b"2");
}

#[test]
fn objects_in_an_array_and_arrays_in_an_object() {
    let json = parse_json_bytes(b"[{\"a\":1},{\"b\":{\"c\":2}},{}]").expect("objects in array");
    let met = root_children(&json);
    assert_eq!(met.len(), 3);
    assert_eq!(met[0].1, JsonValue::Object { start_index: 0, end_index: 1 });
    assert_eq!(met[1].1, JsonValue::Object { start_index: 1, end_index: 3 });
    assert_eq!(met[2].1, JsonValue::Object { start_index: 3, end_index: 3 });
    assert_eq!(keys(&children(&json, &met[0].1)), vec![&b"a"[..]]);
    assert_eq!(keys(&children(&json, &met[1].1)), vec![&b"b"[..]]);

    let json = parse_json_bytes(b"{\"x\":[1,2],\"y\":[[3]],\"z\":4}").expect("arrays in object");
    let met = root_children(&json);
    assert_eq!(keys(&met), vec![&b"x"[..], &b"y"[..], &b"z"[..]]);
    assert_eq!(met[0].1, JsonValue::Array { start_index: 0, end_index: 2 });
    assert_eq!(met[1].1, JsonValue::Array { start_index: 2, end_index: 4 });
    assert_eq!(children(&json, &met[0].1).len(), 2);
    let y = children(&json, &met[1].1);
    assert_eq!(y, vec![(Vec::new(), JsonValue::Array { start_index: 3, end_index: 4 })]);
}

#[test]
fn members_below_an_array_stand_behind_the_array_in_the_member_table() {
    // The cursor passes an array that it meets in an object in one step of one
    // slot, and the members of the objects in that array stand right behind.
    let json = parse_json_bytes(b"{\"a\":[{\"b\":1}],\"c\":2}").expect("mixed nesting");
    let met = root_children(&json);
    assert_eq!(keys(&met), vec![&b"a"[..], &b"b"[..], &b"c"[..]]);
    assert_eq!(met[0].1, JsonValue::Array { start_index: 0, end_index: 1 });
    let a = children(&json, &met[0].1);
    assert_eq!(a, vec![(Vec::new(), JsonValue::Object { start_index: 1, end_index: 2 })]);
    assert_eq!(keys(&children(&json, &a[0].1)), vec![&b"b"[..]]);
}

#[test]
fn scalars_of_every_kind() {
    let json = parse_json_bytes(b"{\"s\":\"text\",\"n\":-1.5e3,\"t\":true,\"f\":false,\"z\":null}")
        .expect("scalars");
    let met = root_children(&json);
    assert_eq!(keys(&met), vec![&b"s"[..], &b"n"[..], &b"t"[..], &b"f"[..], &b"z"[..]]);
    match &met[0].1 {
        JsonValue::String(span) => assert_eq!(json.span_bytes(span), Some(&b"text"[..])),
        _ => panic!("expected a string"),
    }
    match &met[1].1 {
        JsonValue::Number(number) => {
            assert!(number.negative);
            assert_eq!(json.span_bytes(&number.integer), Some(&b"1"[..]));
            assert_eq!(json.span_bytes(&number.fraction), Some(&b"5"[..]));
            assert!(!number.exponent_negative);
            assert_eq!(json.span_bytes(&number.exponent), Some(&b"3"[..]));
        }
        _ => panic!("expected a number"),
    }
    assert_eq!(met[2].1, JsonValue::Boolean(true));
    assert_eq!(met[3].1, JsonValue::Boolean(false));
    assert_eq!(met[4].1, JsonValue::Null);
}

#[test]
fn strings_are_spans_of_the_buffer_itself() {
    let bytes: &[u8] = b"{\"key\":\"va\\\"lue\",\"other\":[\"x\"]}";
    let json = parse_json_bytes(bytes).expect("strings");
    assert_eq!(json.source().as_ptr(), bytes.as_ptr());
    let mut context = json.get_root_context();
    let (key, value) = json.get_next_element(&mut context).expect("a member");
    assert_eq!(key, b"key");
    assert_eq!(key.as_ptr(), bytes[2..].as_ptr());
    match value {
        JsonValue::String(span) => {
            assert_eq!((span.offset, span.len), (8, 7));
            let text = json.span_bytes(span).expect("a span of the buffer");
            assert_eq!(text, &bytes[8..15]);
            assert_eq!(text, b"va\\\"lue");
            assert_eq!(text.as_ptr(), bytes[8..].as_ptr());
            assert_eq!(bytes[span.offset - 1], b'"');
            assert_eq!(bytes[span.offset + span.len], b'"');
        }
        _ => panic!("expected a string"),
    }
}

#[test]
fn spans_outside_the_buffer_have_no_bytes() {
    let json = parse_json_bytes(b"[]").expect("an array");
    assert_eq!(json.span_bytes(&json_parser::ByteSpan { offset: 0, len: 2 }), Some(&b"[]"[..]));
    assert_eq!(json.span_bytes(&json_parser::ByteSpan { offset: 2, len: 0 }), Some(&b""[..]));
    assert_eq!(json.span_bytes(&json_parser::ByteSpan { offset: 1, len: 2 }), None);
    assert_eq!(json.span_bytes(&json_parser::ByteSpan { offset: 3, len: 0 }), None);
    assert_eq!(json.span_bytes(&json_parser::ByteSpan { offset: usize::MAX, len: 2 }), None);
}

#[test]
fn scalars_cannot_be_opened() {
    let json = parse_json_bytes(b"[1,\"s\",true,null]").expect("scalars");
    for (_, value) in root_children(&json) {
        assert!(json.open_collection(&value).is_none());
    }
}

#[test]
fn an_exhausted_cursor_stays_exhausted_and_a_new_one_starts_over() {
    let json = parse_json_bytes(b"[1,2]").expect("an array");
    let mut context = json.get_root_context();
    assert!(json.get_next_element(&mut context).is_some());
    assert!(json.get_next_element(&mut context).is_some());
    assert!(json.get_next_element(&mut context).is_none());
    assert!(json.get_next_element(&mut context).is_none());
    assert_eq!(root_children(&json).len(), 2);
}

#[test]
fn cursors_of_another_document_end_at_once_outside_the_table() {
    let large = parse_json_bytes(b"[1,2,3,4,5]").expect("an array");
    let small = parse_json_bytes(b"[1]").expect("an array");
    let mut context = large.get_root_context();
    assert!(small.get_next_element(&mut context).is_some());
    assert!(small.get_next_element(&mut context).is_none());
}

#[test]
fn the_scenario_of_two_pairs() {
    let bytes: &[u8] = b"{\"pairs\":[{\"x0\":12.5,\"y0\":24.5,\"x1\":50.5,\"y1\":37.5},{\"x0\":12.25,\"y0\":22.25,\"x1\":-17.25,\"y1\":3.525e-9}]}";
    let json = parse_json_bytes(bytes).expect("the scenario parses");
    let mut root = json.get_root_context();
    let (key, pairs) = json.get_next_element(&mut root).expect("one member");
    assert_eq!(key, b"pairs");
    assert_eq!(*pairs, JsonValue::Array { start_index: 0, end_index: 2 });
    let objects = children(&json, pairs);
    assert_eq!(
        objects,
        vec![
            (Vec::new(), JsonValue::Object { start_index: 1, end_index: 5 }),
            (Vec::new(), JsonValue::Object { start_index: 5, end_index: 9 }),
        ]
    );
    let first = children(&json, &objects[0].1);
    assert_eq!(keys(&first), vec![&b"x0"[..], &b"y0"[..], &b"x1"[..], &b"y1"[..]]);
    let second = children(&json, &objects[1].1);
    assert_eq!(keys(&second), vec![&b"x0"[..], &b"y0"[..], &b"x1"[..], &b"y1"[..]]);
    match &second[3].1 {
        JsonValue::Number(number) => {
            assert!(!number.negative);
            assert_eq!(json.span_bytes(&number.integer), Some(&b"3"[..]));
            assert_eq!(json.span_bytes(&number.fraction), Some(&b"525"[..]));
            assert!(number.exponent_negative);
            assert_eq!(json.span_bytes(&number.exponent), Some(&b"9"[..]));
        }
        _ => panic!("expected a number"),
    }
}

/// A value with all that lies below it, as a cursor reads it.
#[derive(Debug, PartialEq)]
enum Read {
    Scalar(Vec<u8>, JsonValue),
    Collection(Vec<u8>, Vec<Read>),
}

fn read_all(json: &Json, key: &[u8], value: &JsonValue) -> Read {
    match json.open_collection(value) {
        None => Read::Scalar(key.to_vec(), *value),
        Some(mut context) => {
            let mut below = Vec::new();
            while let Some((key, value)) = json.get_next_element(&mut context) {
                below.push(read_all(json, key, value));
            }
            Read::Collection(key.to_vec(), below)
        }
    }
}

fn read_document(bytes: &[u8]) -> Read {
    let json = parse_json_bytes(bytes).expect("a document");
    let mut context = json.get_root_context();
    let mut below = Vec::new();
    while let Some((key, value)) = json.get_next_element(&mut context) {
        below.push(read_all(&json, key, value));
    }
    Read::Collection(Vec::new(), below)
}

fn flag(key: &[u8], value: bool) -> Read {
    Read::Scalar(key.to_vec(), JsonValue::Boolean(value))
}

fn group(key: &[u8], below: Vec<Read>) -> Read {
    Read::Collection(key.to_vec(), below)
}

#[test]
fn arrays_read_back_in_document_order() {
    let read = read_document(b"[[true,[false,null]],[],[[[]]],false]");
    assert_eq!(
        read,
        group(
            b"",
            vec![
                group(
                    b"",
                    vec![
                        flag(b"", true),
                        group(b"", vec![flag(b"", false), Read::Scalar(Vec::new(), JsonValue::Null)])
                    ]
                ),
                group(b"", vec![]),
                group(b"", vec![group(b"", vec![group(b"", vec![])])]),
                flag(b"", false),
            ]
        )
    );
}

#[test]
fn objects_read_back_in_document_order() {
    let read = read_document(b"{\"a\":{\"b\":{\"c\":{}},\"b\":true},\"d\":{\"e\":false},\"f\":null}");
    assert_eq!(
        read,
        group(
            b"",
            vec![
                group(b"a", vec![group(b"b", vec![group(b"c", vec![])]), flag(b"b", true)]),
                group(b"d", vec![flag(b"e", false)]),
                Read::Scalar(b"f".to_vec(), JsonValue::Null),
            ]
        )
    );
}

#[test]
fn objects_of_scalars_in_arrays_read_back_in_document_order() {
    let read = read_document(b"[{\"a\":true,\"b\":false},{},{\"c\":{\"d\":true}}]");
    assert_eq!(
        read,
        group(
            b"",
            vec![
                group(b"", vec![flag(b"a", true), flag(b"b", false)]),
                group(b"", vec![]),
                group(b"", vec![group(b"c", vec![flag(b"d", true)])]),
            ]
        )
    );
}

#[test]
fn deep_nesting_is_read_level_by_level() {
    let depth = 2_000;
    let mut bytes = Vec::new();
    for _ in 0..depth {
        bytes.push(b'[');
    }
    for _ in 0..depth {
        bytes.push(b']');
    }
    let json = parse_json_bytes(&bytes).expect("nested arrays");
    let mut context = json.get_root_context();
    let mut levels = 1;
    loop {
        let next = match json.get_next_element(&mut context) {
            Some((_, value)) => json.open_collection(value).expect("an array"),
            None => break,
        };
        assert!(json.get_next_element(&mut context).is_none());
        context = next;
        levels += 1;
    }
    assert_eq!(levels, depth);
}

#[test]
fn many_children_are_met_one_by_one() {
    let mut bytes = Vec::new();
    bytes.push(b'{');
    for i in 0..1_000 {
        bytes.extend_from_slice(format!("\"k{}\":[{},{}],", i, i, i + 1).as_bytes());
    }
    bytes.push(b'}');
    let json = parse_json_bytes(&bytes).expect("an object of arrays");
    let met = root_children(&json);
    assert_eq!(met.len(), 1_000);
    for (i, (key, value)) in met.iter().enumerate() {
        assert_eq!(key, format!("k{}", i).as_bytes());
        assert_eq!(*value, JsonValue::Array { start_index: 2 * i, end_index: 2 * i + 2 });
        let pair = children(&json, value);
        assert_eq!(digits(&json, &pair[0].1), format!("{}", i).as_bytes());
        assert_eq!(digits(&json, &pair[1].1), format!("{}", i + 1).as_bytes());
    }
}
