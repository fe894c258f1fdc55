use car_cli::codec::{encode_records, parse_records};
use car_cli::record::{Error, Record, Timestamp};

fn ts(year: u32, month: u32, day: u32, hour: u32, minute: u32, second: u32) -> Timestamp {
    Timestamp { year, month, day, hour, minute, second }
}

fn rec(id: u64, name: &str, model: &str, engine: u64, category: &str, age: u64, t: Timestamp) -> Record {
    Record {
        id,
        name: name.as_bytes().to_vec(),
        model: model.as_bytes().to_vec(),
        engine,
        category: category.as_bytes().to_vec(),
        age,
        created_at: t,
    }
}

#[test]
fn round_trip_three_records() {
    let records = vec![
        rec(1, "Alpha", "Ghia", 2, "coupe", 7, ts(2021, 3, 7, 9, 5, 30)),
        rec(55, "Beta", "Kadett", 0, "sedan", 1, ts(1999, 12, 31, 23, 59, 59)),
        rec(99, "", "X", 4, "coupe", 29, ts(0, 1, 1, 0, 0, 0)),
    ];
    let bytes = encode_records(&records);
    let back = parse_records(&bytes).expect("the stored form parses");
    assert_eq!(back, records);
}

#[test]
fn round_trip_empty_store() {
    let records: Vec<Record> = Vec::new();
    let bytes = encode_records(&records);
    assert_eq!(bytes, b"[]".to_vec());
    let back = parse_records(&bytes).expect("the stored form parses");
    assert!(back.is_empty());
}

#[test]
fn round_trip_extreme_numbers() {
    let records = vec![rec(u64::MAX, "n", "m", 0, "sedan", 30, ts(9999, 12, 31, 23, 59, 59))];
    let bytes = encode_records(&records);
    let back = parse_records(&bytes).expect("the stored form parses");
    assert_eq!(back, records);
}

#[test]
fn stored_form_is_plain_text() {
    let records = vec![rec(7, "Gamma", "GT", 1, "coupe", 3, ts(2021, 3, 7, 9, 5, 30))];
    let bytes = encode_records(&records);
    let text = String::from_utf8(bytes).expect("the stored form is ASCII");
    assert_eq!(
        text,
        "[{\"id\":7,\"name\":\"Gamma\",\"model\":\"GT\",\"engine\":1,\"category\":\"coupe\",\"age\":3,\"created_at\":\"2021-03-07T09:05:30Z\"}]"
    );
}

#[test]
fn stored_form_is_valid_json() {
    let records = vec![
        rec(7, "Gamma", "GT", 1, "coupe", 3, ts(2021, 3, 7, 9, 5, 30)),
        rec(8, "Delta", "DS", 2, "sedan", 4, ts(2022, 1, 2, 3, 4, 5)),
    ];
    let bytes = encode_records(&records);
    let value: serde_json::Value = serde_json::from_slice(&bytes).expect("valid JSON");
    let arr = value.as_array().expect("a JSON array");
    assert_eq!(arr.len(), 2);
    assert_eq!(arr[0]["id"], serde_json::Value::from(7u64));
    assert_eq!(arr[0]["name"], serde_json::Value::from("Gamma"));
    assert_eq!(arr[1]["category"], serde_json::Value::from("sedan"));
    assert_eq!(arr[1]["created_at"], serde_json::Value::from("2022-01-02T03:04:05Z"));
}

#[test]
fn parses_literal_content() {
    let text = "[{\"id\":42,\"name\":\"Fox\",\"model\":\"F1\",\"engine\":0,\"category\":\"sedan\",\"age\":12,\"created_at\":\"1987-06-05T04:03:02Z\"}]";
    let back = parse_records(&text.as_bytes().to_vec()).expect("well-formed content parses");
    assert_eq!(back, vec![rec(42, "Fox", "F1", 0, "sedan", 12, ts(1987, 6, 5, 4, 3, 2))]);
}

#[test]
fn malformed_content_is_a_parse_failure() {
    let cases: Vec<&[u8]> = vec![
        b"",
        b"not json",
        b"{}",
        b"[",
        b"[]extra",
        b"[{\"id\":1}]",
        b"[{\"name\":\"x\",\"id\":1,\"model\":\"m\",\"engine\":0,\"category\":\"c\",\"age\":1,\"created_at\":\"2021-01-01T00:00:00Z\"}]",
    ];
    for case in cases {
        assert_eq!(parse_records(&case.to_vec()), Err(Error::ParseFailure), "case {:?}", case);
    }
}

#[test]
fn leading_zero_is_rejected() {
    let text = "[{\"id\":01,\"name\":\"a\",\"model\":\"b\",\"engine\":0,\"category\":\"c\",\"age\":1,\"created_at\":\"2021-01-01T00:00:00Z\"}]";
    assert_eq!(parse_records(&text.as_bytes().to_vec()), Err(Error::ParseFailure));
}

#[test]
fn out_of_range_timestamp_is_rejected() {
    let text = "[{\"id\":1,\"name\":\"a\",\"model\":\"b\",\"engine\":0,\"category\":\"c\",\"age\":1,\"created_at\":\"2021-13-01T00:00:00Z\"}]";
    assert_eq!(parse_records(&text.as_bytes().to_vec()), Err(Error::ParseFailure));
}

#[test]
fn number_too_large_for_id_is_rejected() {
    let text = "[{\"id\":18446744073709551616,\"name\":\"a\",\"model\":\"b\",\"engine\":0,\"category\":\"c\",\"age\":1,\"created_at\":\"2021-01-01T00:00:00Z\"}]";
    assert_eq!(parse_records(&text.as_bytes().to_vec()), Err(Error::ParseFailure));
}

#[test]
fn fractional_seconds_are_accepted_and_dropped() {
    let text = "[{\"id\":1,\"name\":\"a\",\"model\":\"b\",\"engine\":0,\"category\":\"c\",\"age\":1,\"created_at\":\"2021-01-01T00:00:05.123456789Z\"}]";
    let back = parse_records(&text.as_bytes().to_vec()).expect("fractional stamps parse");
    assert_eq!(back[0].created_at, ts(2021, 1, 1, 0, 0, 5));
    // Writing the store back keeps whole seconds.
    let bytes = encode_records(&back);
    let text2 = String::from_utf8(bytes).unwrap();
    assert!(text2.contains("2021-01-01T00:00:05Z"));
}

#[test]
fn a_dot_without_digits_is_rejected() {
    let text = "[{\"id\":1,\"name\":\"a\",\"model\":\"b\",\"engine\":0,\"category\":\"c\",\"age\":1,\"created_at\":\"2021-01-01T00:00:05.Z\"}]";
    assert_eq!(parse_records(&text.as_bytes().to_vec()), Err(Error::ParseFailure));
}

#[test]
fn insignificant_whitespace_is_accepted() {
    let empty_cases: Vec<&str> = vec!["[]", "[ ]", " []", "[]\n", "\t[ ]\r\n", "[\n]"];
    for case in empty_cases {
        let back = parse_records(&case.as_bytes().to_vec()).expect(case);
        assert!(back.is_empty(), "case {:?}", case);
    }
    let expected = vec![
        rec(7, "Gamma", "GT", 1, "coupe", 3, ts(2021, 3, 7, 9, 5, 30)),
        rec(8, "Delta", "DS", 2, "sedan", 4, ts(2022, 1, 2, 3, 4, 5)),
    ];
    let pretty = "[\n  {\n    \"id\": 7,\n    \"name\": \"Gamma\",\n    \"model\": \"GT\",\n    \"engine\": 1,\n    \"category\": \"coupe\",\n    \"age\": 3,\n    \"created_at\": \"2021-03-07T09:05:30Z\"\n  },\n  {\n    \"id\": 8,\n    \"name\": \"Delta\",\n    \"model\": \"DS\",\n    \"engine\": 2,\n    \"category\": \"sedan\",\n    \"age\": 4,\n    \"created_at\": \"2022-01-02T03:04:05Z\"\n  }\n]\n";
    let back = parse_records(&pretty.as_bytes().to_vec()).expect("pretty-printed content parses");
    assert_eq!(back, expected);
}

#[test]
fn whitespace_inside_a_token_is_still_rejected() {
    // A space inside the digits of a number splits the token.
    let text = "[{\"id\":1 2,\"name\":\"a\",\"model\":\"b\",\"engine\":0,\"category\":\"c\",\"age\":1,\"created_at\":\"2021-01-01T00:00:00Z\"}]";
    assert_eq!(parse_records(&text.as_bytes().to_vec()), Err(Error::ParseFailure));
}
