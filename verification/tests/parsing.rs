use json_parser::{parse_json_bytes, Json, JsonNumber, JsonValue};

/// The value of a run of digits, accumulated digit by digit.
fn digits_value(json: &Json, span: &json_parser::ByteSpan) -> f64 {
    let mut value = 0.0_f64;
    for byte in json.span_bytes(span).expect("span of the document") {
        value = value * 10.0 + (byte - b'0') as f64;
    }
    value
}

/// The value of a number: sign * (integer + fraction) * 10^(exponent).
fn number_value(json: &Json, number: &JsonNumber) -> f64 {
    let sign = if number.negative { -1.0 } else { 1.0 };
    let integer = digits_value(json, &number.integer);
    let mut fraction = 0.0_f64;
    let mut place = 1.0 / 10.0;
    for byte in json.span_bytes(&number.fraction).expect("span of the document") {
        fraction += place * (byte - b'0') as f64;
        place *= 1.0 / 10.0;
    }
    let exponent = json.exponent_of(number).expect("an exponent that fits");
    sign * 10_f64.powi(exponent) * (integer + fraction)
}

#[test]
fn parse_nothing() {
    let json_bytes: &'static [u8] = b"";
    assert!(parse_json_bytes(json_bytes).is_err());
}

#[test]
fn parse_empty_object() {
    let json_bytes: &'static [u8] = b"{}";
    let json = parse_json_bytes(json_bytes).expect("Failed to parse empty object.");
    let mut root_object = json.get_root_context();
    assert!(matches!(json.get_next_element(&mut root_object), None));
}

#[test]
fn parse_empty_array() {
    let json_bytes: &'static [u8] = b"[]";
    let json = parse_json_bytes(json_bytes).expect("Failed to parse empty ARRAY.");
    let mut root_array = json.get_root_context();
    assert!(matches!(json.get_next_element(&mut root_array), None));
}

#[test]
fn parse_object_w_empty_array() {
    let json_bytes: &'static [u8] = b"{\"empty_array\":[]}";
    let json = parse_json_bytes(json_bytes).expect("Failed to parse object w/ empty array.");
    let mut root_object = json.get_root_context();
    let empty_array = json.get_next_element(&mut root_object);
    if let Some((name, JsonValue::Array { start_index, end_index })) = empty_array {
        assert_eq!(start_index, end_index); // assert that array is empty
        assert_eq!(name, b"empty_array");
    } else {
        panic!("Expected empty array.");
    }
}

#[test]
fn parse_array_many_types() {
    let json_bytes: &'static [u8] = b"[\"string\", 12.5, 24, true, false, null]";
    let json = parse_json_bytes(json_bytes).expect("Failed to parse empty array with many types.");
    let mut root_array = json.get_root_context();
    if let Some((_, JsonValue::String(span))) = json.get_next_element(&mut root_array) {
        assert_eq!(json.span_bytes(span), Some(&b"string"[..]));
    } else {
        panic!("Couldn't find string.");
    }
    if let Some((_, JsonValue::Number(value))) = json.get_next_element(&mut root_array) {
        assert_eq!(12.5f64, number_value(&json, value));
    } else {
        panic!("Couldn't find floating point.");
    }
    if let Some((_, JsonValue::Number(value))) = json.get_next_element(&mut root_array) {
        assert_eq!(24f64, number_value(&json, value));
    } else {
        panic!("Couldn't find integer.");
    }
    if let Some((_, JsonValue::Boolean(true))) = json.get_next_element(&mut root_array) {
    } else {
        panic!("Couldn't find true.");
    }
    if let Some((_, JsonValue::Boolean(false))) = json.get_next_element(&mut root_array) {
    } else {
        panic!("Couldn't find false.");
    }
    if let Some((_, JsonValue::Null)) = json.get_next_element(&mut root_array) {
    } else {
        panic!("Couldn't find null.");
    }
    assert!(matches!(json.get_next_element(&mut root_array), None));
}

#[test]
fn parse_whitespace_and_escaped_characters() {
    let json_bytes: &'static [u8] = b"  \t\n\r{\
            \t\n\r\"{}[]:true\\\"_\\\"false\\\'null123.01e-2\\\"\"  \t\n\r:\
            \t\n\r[  \t\n\r]\
        \t\n\r}  \t\n\r";
    let json = parse_json_bytes(json_bytes).expect("Failed to parse object w/ empty array.");
    let mut root_object = json.get_root_context();
    if let Some((name, JsonValue::Array { start_index, end_index })) =
        json.get_next_element(&mut root_object)
    {
        assert_eq!(start_index, end_index); // assert that array is empty
        assert_eq!(name, b"{}[]:true\\\"_\\\"false\\\'null123.01e-2\\\"");
    } else {
        panic!("Expected empty array.");
    }
    assert!(matches!(json.get_next_element(&mut root_object), None));
}

fn expect_number(json: &Json, element: Option<(&[u8], &JsonValue)>, key: &[u8]) -> f64 {
    if let Some((name, JsonValue::Number(value))) = element {
        assert_eq!(name, key);
        number_value(json, value)
    } else {
        panic!();
    }
}

#[test]
fn parse_pairs_test() {
    let json_bytes: &'static [u8] = b"\
        {\
                \"pairs\":[\
                    {\
                        \"x0\":12.5,\
                        \"y0\":24.5,\
                        \"x1\":50.5,\
                        \"y1\":37.5\
                    },\
                    {\
                        \"x0\":12.25,\
                        \"y0\":22.25,\
                        \"x1\":-17.25,\
                        \"y1\":3.525e-9\
                    }\
                    ]\
            }";

    let json = parse_json_bytes(json_bytes).expect("Failed to parse object w/ empty array.");
    let mut root_object = json.get_root_context();
    if let Some((b"pairs", value)) = json.get_next_element(&mut root_object) {
        let mut pairs_array = json.open_collection(value).expect("Expected array.");
        if let Some((_, value)) = json.get_next_element(&mut pairs_array) {
            let mut pair_object = json.open_collection(value).expect("Expected point pair object.");
            let x0 = expect_number(&json, json.get_next_element(&mut pair_object), b"x0");
            assert_eq!(12.5, x0);
            let y0 = expect_number(&json, json.get_next_element(&mut pair_object), b"y0");
            assert_eq!(24.5, y0);
            let x1 = expect_number(&json, json.get_next_element(&mut pair_object), b"x1");
            assert_eq!(50.5, x1);
            let y1 = expect_number(&json, json.get_next_element(&mut pair_object), b"y1");
            assert_eq!(37.5, y1);
        } else {
            panic!("Expected two objects with array.");
        }
        if let Some((_, value)) = json.get_next_element(&mut pairs_array) {
            let mut pair_object = json.open_collection(value).expect("Expected point pair object.");
            let x0 = expect_number(&json, json.get_next_element(&mut pair_object), b"x0");
            assert_eq!(12.25, x0);
            let y0 = expect_number(&json, json.get_next_element(&mut pair_object), b"y0");
            assert_eq!(22.25, y0);
            let x1 = expect_number(&json, json.get_next_element(&mut pair_object), b"x1");
            assert_eq!(-17.25, x1);
            let y1 = expect_number(&json, json.get_next_element(&mut pair_object), b"y1");
            assert_eq!(3.525e-9, y1);
        } else {
            panic!("Expected two objects with array.");
        }
        assert!(matches!(json.get_next_element(&mut pairs_array), None));
    } else {
        panic!("Expected object with array.");
    }
}

fn first_number(bytes: &[u8]) -> f64 {
    let json = parse_json_bytes(bytes).expect("an array with a number");
    let mut context = json.get_root_context();
    match json.get_next_element(&mut context) {
        Some((_, JsonValue::Number(number))) => number_value(&json, number),
        _ => panic!("expected a number"),
    }
}

#[test]
fn number_values_follow_the_formula() {
    assert_eq!(first_number(b"[0]"), 0.0);
    assert_eq!(first_number(b"[-0]"), 0.0);
    assert_eq!(first_number(b"[007]"), 7.0);
    assert_eq!(first_number(b"[+42]"), 42.0);
    assert_eq!(first_number(b"[-12.5]"), -12.5);
    assert_eq!(first_number(b"[0.25]"), 0.25);
    assert_eq!(first_number(b"[1.]"), 1.0);
    assert_eq!(first_number(b"[2e3]"), 2000.0);
    assert_eq!(first_number(b"[2E+3]"), 2000.0);
    assert_eq!(first_number(b"[25e-2]"), 0.25);
    assert_eq!(first_number(b"[5e]"), 5.0);
    assert_eq!(first_number(b"[1.5e1]"), 15.0);
    assert_eq!(first_number(b"[123456789]"), 123456789.0);
    // the fraction is a sum of digit / 10^k, each term rounded
    assert_eq!(first_number(b"[0.1]"), 1.0 / 10.0);
    let sum = 1.0 / 10.0 * 5.0 + (1.0 / 10.0) * (1.0 / 10.0) * 2.0 + (1.0 / 10.0) * (1.0 / 10.0) * (1.0 / 10.0) * 5.0;
    assert_eq!(first_number(b"[3.525e-9]"), 10_f64.powi(-9) * (3.0 + sum));
    assert!((first_number(b"[3.525e-9]") - 3.525e-9).abs() < 1e-20);
}

fn first_exponent(bytes: &[u8]) -> Option<i32> {
    let json = parse_json_bytes(bytes).expect("an array with a number");
    let mut context = json.get_root_context();
    match json.get_next_element(&mut context) {
        Some((_, JsonValue::Number(number))) => json.exponent_of(number),
        _ => panic!("expected a number"),
    }
}

#[test]
fn exponents_are_accumulated_from_their_digits() {
    assert_eq!(first_exponent(b"[1]"), Some(0));
    assert_eq!(first_exponent(b"[1e]"), Some(0));
    assert_eq!(first_exponent(b"[1e-]"), Some(0));
    assert_eq!(first_exponent(b"[1e7]"), Some(7));
    assert_eq!(first_exponent(b"[1e+07]"), Some(7));
    assert_eq!(first_exponent(b"[1.5E-308]"), Some(-308));
    assert_eq!(first_exponent(b"[1e2147483647]"), Some(i32::MAX));
    assert_eq!(first_exponent(b"[1e-2147483647]"), Some(-i32::MAX));
    assert_eq!(first_exponent(b"[1e0000000000000012]"), Some(12));
    assert_eq!(first_exponent(b"[1e2147483648]"), None);
    assert_eq!(first_exponent(b"[1e-2147483648]"), None);
    assert_eq!(first_exponent(b"[1e99999999999999999999]"), None);
}

#[test]
fn exponents_of_numbers_of_another_buffer_are_refused() {
    let long = parse_json_bytes(b"[1234567890123e5]").expect("an array");
    let short = parse_json_bytes(b"[1,\"ab\"]").expect("an array");
    let mut context = long.get_root_context();
    match long.get_next_element(&mut context) {
        Some((_, JsonValue::Number(number))) => {
            assert_eq!(long.exponent_of(number), Some(5));
            // the span of the exponent lies outside the shorter buffer
            assert_eq!(short.exponent_of(number), None);
            // a span inside the buffer that holds no digits
            let mut moved = *number;
            moved.exponent = json_parser::ByteSpan { offset: 4, len: 2 };
            assert_eq!(short.exponent_of(&moved), None);
            moved.exponent = json_parser::ByteSpan { offset: 1, len: 1 };
            assert_eq!(short.exponent_of(&moved), Some(1));
        }
        _ => panic!("expected a number"),
    }
}
