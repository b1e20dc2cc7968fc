use nanobot::error::QueryError;
use nanobot::record::{rows_to_map, KeyedRecords, Record, Scalar};
use nanobot::rows::{decode_count, decode_record, decode_rows};

fn text(s: &str) -> Scalar {
    Scalar::Text(s.to_string())
}

fn record(fields: Vec<(&str, Scalar)>) -> Record {
    Record {
        fields: fields.into_iter().map(|(k, v)| (k.to_string(), v)).collect(),
    }
}

#[test]
fn rows_are_keyed_by_the_column() {
    let rows = vec![
        record(vec![("id", text("a")), ("name", text("Alice"))]),
        record(vec![("id", text("b")), ("name", text("Bob"))]),
    ];
    let keyed = rows_to_map(rows, "id").unwrap();
    assert_eq!(
        keyed.entries,
        vec![
            ("a".to_string(), record(vec![("name", text("Alice"))])),
            ("b".to_string(), record(vec![("name", text("Bob"))])),
        ]
    );
}

#[test]
fn remaining_fields_keep_their_order() {
    let rows = vec![record(vec![
        ("z", text("1")),
        ("id", text("k")),
        ("a", Scalar::Literal("2".to_string())),
        ("m", Scalar::Literal("null".to_string())),
    ])];
    let keyed = rows_to_map(rows, "id").unwrap();
    assert_eq!(
        keyed.entries,
        vec![(
            "k".to_string(),
            record(vec![
                ("z", text("1")),
                ("a", Scalar::Literal("2".to_string())),
                ("m", Scalar::Literal("null".to_string())),
            ])
        )]
    );
}

#[test]
fn missing_column_fails() {
    let rows = vec![
        record(vec![("id", text("a")), ("name", text("Alice"))]),
        record(vec![("name", text("Bob"))]),
    ];
    assert_eq!(rows_to_map(rows, "id").err(), Some(QueryError::MissingKeyError));
    let rows = vec![record(vec![])];
    assert_eq!(rows_to_map(rows, "id").err(), Some(QueryError::MissingKeyError));
}

#[test]
fn no_rows_give_no_entries() {
    let keyed = rows_to_map(vec![], "id").unwrap();
    assert_eq!(keyed, KeyedRecords::new());
    assert!(keyed.entries.is_empty());
}

#[test]
fn later_row_takes_the_place_of_an_earlier_one() {
    let rows = vec![
        record(vec![("id", text("a")), ("n", text("1"))]),
        record(vec![("id", text("b")), ("n", text("2"))]),
        record(vec![("id", text("a")), ("n", text("3"))]),
    ];
    let keyed = rows_to_map(rows, "id").unwrap();
    assert_eq!(
        keyed.entries,
        vec![
            ("a".to_string(), record(vec![("n", text("3"))])),
            ("b".to_string(), record(vec![("n", text("2"))])),
        ]
    );
}

#[test]
fn a_number_keys_by_its_literal() {
    let rows = vec![record(vec![
        ("id", Scalar::Literal("12".to_string())),
        ("n", text("x")),
    ])];
    let keyed = rows_to_map(rows, "id").unwrap();
    assert_eq!(keyed.entries[0].0, "12");
}

#[test]
fn insert_replaces_in_place() {
    let mut keyed = KeyedRecords::new();
    keyed.insert("a".to_string(), record(vec![("n", text("1"))]));
    keyed.insert("b".to_string(), record(vec![("n", text("2"))]));
    keyed.insert("a".to_string(), record(vec![("n", text("3"))]));
    assert_eq!(keyed.entries.len(), 2);
    assert_eq!(keyed.entries[0], ("a".to_string(), record(vec![("n", text("3"))])));
    assert_eq!(keyed.entries[1], ("b".to_string(), record(vec![("n", text("2"))])));
}

#[test]
fn split_key_parts_a_record() {
    let r = record(vec![("id", text("a")), ("name", text("Alice"))]);
    let (key, rest) = r.split_key("id");
    assert_eq!(key, Some("a".to_string()));
    assert_eq!(rest, record(vec![("name", text("Alice"))]));
    let (key, rest) = r.split_key("age");
    assert_eq!(key, None);
    assert_eq!(rest, r);
}

#[test]
fn scalar_text_and_copy() {
    assert_eq!(text("a").text(), "a");
    assert_eq!(Scalar::Literal("1.5".to_string()).text(), "1.5");
    assert_eq!(text("a").copy(), text("a"));
    assert_eq!(
        Scalar::Literal("true".to_string()).copy(),
        Scalar::Literal("true".to_string())
    );
}

#[test]
fn payload_decodes_in_the_order_of_its_text() {
    let r = decode_record("{\"name\":\"Alice\",\"id\":\"a\",\"age\":30,\"ok\":true,\"x\":null,\"f\":1.5}")
        .unwrap();
    assert_eq!(
        r,
        record(vec![
            ("name", text("Alice")),
            ("id", text("a")),
            ("age", Scalar::Literal("30".to_string())),
            ("ok", Scalar::Literal("true".to_string())),
            ("x", Scalar::Literal("null".to_string())),
            ("f", Scalar::Literal("1.5".to_string())),
        ])
    );
}

#[test]
fn payload_with_escapes_decodes_to_plain_text() {
    let r = decode_record("{\"a\":\"x\\ny\\\"z\"}").unwrap();
    assert_eq!(r, record(vec![("a", text("x\ny\"z"))]));
    let r = decode_record("  { }  ").unwrap();
    assert_eq!(r, record(vec![]));
}

#[test]
fn payload_that_is_no_object_fails() {
    assert_eq!(decode_record("").err(), Some(QueryError::DecodeError));
    assert_eq!(decode_record("[1,2]").err(), Some(QueryError::DecodeError));
    assert_eq!(decode_record("\"a\"").err(), Some(QueryError::DecodeError));
    assert_eq!(decode_record("{\"a\":").err(), Some(QueryError::DecodeError));
    assert_eq!(decode_record("{\"a\":1} x").err(), Some(QueryError::DecodeError));
}

#[test]
fn rows_decode_all_or_nothing() {
    let good = vec!["{\"id\":\"a\"}".to_string(), "{\"id\":\"b\"}".to_string()];
    assert_eq!(
        decode_rows(&good).unwrap(),
        vec![record(vec![("id", text("a"))]), record(vec![("id", text("b"))])]
    );
    let bad = vec!["{\"id\":\"a\"}".to_string(), "nope".to_string()];
    assert_eq!(decode_rows(&bad).err(), Some(QueryError::DecodeError));
    assert_eq!(decode_rows(&vec![]).unwrap(), vec![]);
}

#[test]
fn decoded_rows_reshape() {
    let payloads = vec![
        "{\"id\":\"a\",\"name\":\"Alice\"}".to_string(),
        "{\"id\":\"b\",\"name\":\"Bob\"}".to_string(),
    ];
    let keyed = rows_to_map(decode_rows(&payloads).unwrap(), "id").unwrap();
    assert_eq!(
        keyed.entries,
        vec![
            ("a".to_string(), record(vec![("name", text("Alice"))])),
            ("b".to_string(), record(vec![("name", text("Bob"))])),
        ]
    );
}

#[test]
fn count_decodes_when_not_negative() {
    assert_eq!(decode_count(0), Ok(0));
    assert_eq!(decode_count(42), Ok(42));
    assert_eq!(decode_count(-1), Err(QueryError::DecodeError));
    assert_eq!(decode_count(i64::MIN), Err(QueryError::DecodeError));
}
