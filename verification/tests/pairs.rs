use json_parser::{parse_json_bytes, pairs_from_root_json, Json, JsonNumber, PairsError};

fn text(json: &Json, number: &JsonNumber) -> String {
    let mut out = String::new();
    if number.negative {
        out.push('-');
    }
    out.push_str(std::str::from_utf8(json.span_bytes(&number.integer).unwrap()).unwrap());
    out.push('.');
    out.push_str(std::str::from_utf8(json.span_bytes(&number.fraction).unwrap()).unwrap());
    out
}

#[test]
fn pairs_are_read_in_their_order() {
    let json = parse_json_bytes(
        b"{\"pairs\":[{\"x0\":12.5,\"y0\":24.5,\"x1\":50.5,\"y1\":37.5},{\"x0\":12.25,\"y0\":22.25,\"x1\":-17.25,\"y1\":3.525e-9}]}",
    )
    .expect("a document");
    let pairs = pairs_from_root_json(&json).expect("two pairs");
    assert_eq!(pairs.len(), 2);
    assert_eq!(text(&json, &pairs[0].x0), "12.5");
    assert_eq!(text(&json, &pairs[0].y0), "24.5");
    assert_eq!(text(&json, &pairs[0].x1), "50.5");
    assert_eq!(text(&json, &pairs[0].y1), "37.5");
    assert_eq!(text(&json, &pairs[1].x0), "12.25");
    assert_eq!(text(&json, &pairs[1].y0), "22.25");
    assert_eq!(text(&json, &pairs[1].x1), "-17.25");
    assert_eq!(text(&json, &pairs[1].y1), "3.525");
    assert!(pairs[1].y1.exponent_negative);
    assert_eq!(json.span_bytes(&pairs[1].y1.exponent), Some(&b"9"[..]));
}

#[test]
fn no_pairs_at_all() {
    let json = parse_json_bytes(b"{\"pairs\":[]}").expect("a document");
    assert_eq!(pairs_from_root_json(&json), Ok(Vec::new()));
}

#[test]
fn more_members_behind_the_four_are_not_looked_at() {
    let json =
        parse_json_bytes(b"{\"pairs\":[{\"x0\":1,\"y0\":2,\"x1\":3,\"y1\":4,\"z\":5}],\"more\":1}")
            .expect("a document");
    let pairs = pairs_from_root_json(&json).expect("one pair");
    assert_eq!(pairs.len(), 1);
    assert_eq!(json.span_bytes(&pairs[0].y1.integer), Some(&b"4"[..]));
}

#[test]
fn the_root_must_start_with_pairs() {
    for bytes in [
        &b"{}"[..],
        &b"[]"[..],
        &b"{\"other\":[]}"[..],
        &b"{\"pair\":[]}"[..],
        &b"{\"pairss\":[]}"[..],
        &b"{\"first\":1,\"pairs\":[]}"[..],
        &b"{\"pairs\":1}"[..],
        &b"{\"pairs\":\"none\"}"[..],
        &b"[[]]"[..],
    ] {
        let json = parse_json_bytes(bytes).expect("a document");
        assert_eq!(pairs_from_root_json(&json), Err(PairsError::ExpectedPairs));
    }
}

#[test]
fn each_pair_must_start_with_the_four_numbers() {
    for bytes in [
        &b"{\"pairs\":[1]}"[..],
        &b"{\"pairs\":[{}]}"[..],
        &b"{\"pairs\":[{\"x0\":1,\"y0\":2,\"x1\":3}]}"[..],
        &b"{\"pairs\":[{\"y0\":2,\"x0\":1,\"x1\":3,\"y1\":4}]}"[..],
        &b"{\"pairs\":[{\"x0\":1,\"y0\":2,\"x1\":3,\"y1\":\"4\"}]}"[..],
        &b"{\"pairs\":[{\"x0\":1,\"y0\":2,\"x1\":3,\"y1\":null}]}"[..],
        &b"{\"pairs\":[{\"x0\":1,\"y0\":2,\"x1\":3,\"y2\":4}]}"[..],
        &b"{\"pairs\":[{\"x0\":1,\"y0\":2,\"x1\":3,\"y1\":4},{\"x0\":1}]}"[..],
        &b"{\"pairs\":[[1,2,3,4]]}"[..],
    ] {
        let json = parse_json_bytes(bytes).expect("a document");
        assert_eq!(pairs_from_root_json(&json), Err(PairsError::ExpectedFourNumbers));
    }
}

#[test]
fn pairs_may_be_held_by_an_object() {
    let json = parse_json_bytes(b"{\"pairs\":{\"p\":{\"x0\":1,\"y0\":2,\"x1\":3,\"y1\":4}}}")
        .expect("a document");
    let pairs = pairs_from_root_json(&json).expect("one pair");
    assert_eq!(pairs.len(), 1);
}

#[test]
fn elements_of_arrays_inside_a_pair_stand_among_the_pairs() {
    // The elements of the inner array stand in the element table right behind
    // the first pair, where the cursor over `pairs` meets them.
    let json = parse_json_bytes(
        b"{\"pairs\":[{\"x0\":1,\"y0\":2,\"x1\":3,\"y1\":4,\"more\":[5]},{\"x0\":1,\"y0\":2,\"x1\":3,\"y1\":4}]}",
    )
    .expect("a document");
    assert_eq!(pairs_from_root_json(&json), Err(PairsError::ExpectedFourNumbers));
}
