use nanobot::error::QueryError;
use nanobot::parse::{parse, parse_url};
use nanobot::sql::{Direction, Operator, Select};
use nanobot::url::select_to_url;

fn query(table: &str) -> Select {
    let mut q = Select::new();
    q.table(table);
    q
}

#[test]
fn url_of_a_bare_table() {
    assert_eq!(select_to_url(&query("people")), "people");
}

#[test]
fn url_with_every_parameter() {
    let mut q = query("people");
    q.filter(vec![
        ("name".to_string(), Operator::EQUALS, "Alice".to_string()),
        ("city".to_string(), Operator::EQUALS, "Oslo".to_string()),
    ])
    .order(vec![
        ("age".to_string(), Direction::DESC),
        ("name".to_string(), Direction::ASC),
    ])
    .limit(5)
    .offset(20);
    assert_eq!(
        select_to_url(&q),
        "people?name=eq.Alice&city=eq.Oslo&order=age.desc,name.asc&limit=5&offset=20"
    );
}

#[test]
fn default_limit_is_left_out() {
    let mut q = query("people");
    q.limit(10);
    assert_eq!(select_to_url(&q), "people");
    assert!(!select_to_url(&q).contains("limit="));
    let mut unset = query("people");
    unset.limit(0);
    assert_eq!(select_to_url(&q), select_to_url(&unset));
    q.limit(11);
    assert_eq!(select_to_url(&q), "people?limit=11");
}

#[test]
fn zero_offset_is_left_out() {
    let mut q = query("people");
    q.limit(5).offset(0);
    assert_eq!(select_to_url(&q), "people?limit=5");
    assert!(!select_to_url(&q).contains("offset="));
    q.offset(1);
    assert_eq!(select_to_url(&q), "people?limit=5&offset=1");
}

#[test]
fn parse_reads_filter_order_and_limit() {
    let q = parse("people", "name=eq.Alice&order=age.desc&limit=5").unwrap();
    assert_eq!(q.table, "people");
    assert!(q.select.is_empty());
    assert_eq!(
        q.filter,
        vec![("name".to_string(), Operator::EQUALS, "Alice".to_string())]
    );
    assert_eq!(q.order, vec![("age".to_string(), Direction::DESC)]);
    assert_eq!(q.limit, 5);
    assert_eq!(q.offset, 0);
}

#[test]
fn parse_without_parameters_gives_the_defaults() {
    let q = parse("people", "").unwrap();
    assert_eq!(q.table, "people");
    assert!(q.filter.is_empty());
    assert!(q.order.is_empty());
    assert_eq!(q.limit, 10);
    assert_eq!(q.offset, 0);
}

#[test]
fn parse_takes_a_value_without_tag_as_equality() {
    let q = parse("people", "name=Alice").unwrap();
    assert_eq!(
        q.filter,
        vec![("name".to_string(), Operator::EQUALS, "Alice".to_string())]
    );
    let q = parse("people", "name=eq.eq.x&note=a=b").unwrap();
    assert_eq!(
        q.filter,
        vec![
            ("name".to_string(), Operator::EQUALS, "eq.x".to_string()),
            ("note".to_string(), Operator::EQUALS, "a=b".to_string()),
        ]
    );
}

#[test]
fn parse_passes_over_what_is_no_parameter() {
    let q = parse("people", "flag&&=x&name=eq.Bob&").unwrap();
    assert_eq!(
        q.filter,
        vec![("name".to_string(), Operator::EQUALS, "Bob".to_string())]
    );
    assert_eq!(q.limit, 10);
}

#[test]
fn parse_reads_several_ordering_steps() {
    let q = parse("people", "order=age.desc,first.name.asc&order=id.asc").unwrap();
    assert_eq!(
        q.order,
        vec![
            ("age".to_string(), Direction::DESC),
            ("first.name".to_string(), Direction::ASC),
            ("id".to_string(), Direction::ASC),
        ]
    );
}

#[test]
fn parse_caps_the_limit_and_keeps_the_last() {
    assert_eq!(parse("people", "limit=100").unwrap().limit, 100);
    assert_eq!(parse("people", "limit=101").unwrap().limit, 100);
    assert_eq!(parse("people", "limit=0").unwrap().limit, 0);
    assert_eq!(parse("people", "limit=007").unwrap().limit, 7);
    assert_eq!(parse("people", "limit=3&limit=4").unwrap().limit, 4);
    assert_eq!(parse("people", "offset=1234567890").unwrap().offset, 1234567890);
}

#[test]
fn parse_fails_on_malformed_parameters() {
    assert_eq!(parse("", "limit=5").err(), Some(QueryError::ParseError));
    assert_eq!(parse("people", "limit=abc").err(), Some(QueryError::ParseError));
    assert_eq!(parse("people", "limit=").err(), Some(QueryError::ParseError));
    assert_eq!(parse("people", "limit=-1").err(), Some(QueryError::ParseError));
    assert_eq!(parse("people", "offset=1.5").err(), Some(QueryError::ParseError));
    assert_eq!(
        parse("people", "offset=99999999999999999999999999999999").err(),
        Some(QueryError::ParseError)
    );
    assert_eq!(parse("people", "order=age").err(), Some(QueryError::ParseError));
    assert_eq!(parse("people", "order=").err(), Some(QueryError::ParseError));
    assert_eq!(parse("people", "order=age.desc,").err(), Some(QueryError::ParseError));
}

#[test]
fn parse_fails_on_an_unknown_direction() {
    assert_eq!(
        parse("people", "order=age.up").err(),
        Some(QueryError::UnsupportedOperatorError)
    );
    assert_eq!(
        parse("people", "order=age.DESC").err(),
        Some(QueryError::UnsupportedOperatorError)
    );
    assert_eq!(
        parse("people", "order=age.").err(),
        Some(QueryError::UnsupportedOperatorError)
    );
}

#[test]
fn first_failure_is_reported() {
    assert_eq!(
        parse("people", "order=age.up&limit=x").err(),
        Some(QueryError::UnsupportedOperatorError)
    );
    assert_eq!(
        parse("people", "limit=x&order=age.up").err(),
        Some(QueryError::ParseError)
    );
}

#[test]
fn parse_url_splits_at_the_first_question_mark() {
    let q = parse_url("people?name=eq.who?&limit=2").unwrap();
    assert_eq!(q.table, "people");
    assert_eq!(
        q.filter,
        vec![("name".to_string(), Operator::EQUALS, "who?".to_string())]
    );
    assert_eq!(q.limit, 2);
    let q = parse_url("people").unwrap();
    assert_eq!(q.table, "people");
    assert_eq!(q.limit, 10);
    assert_eq!(parse_url("?limit=2").err(), Some(QueryError::ParseError));
    assert_eq!(parse_url("").err(), Some(QueryError::ParseError));
}

#[test]
fn rendered_url_reads_back() {
    let mut q = query("people");
    q.filter(vec![
        ("name".to_string(), Operator::EQUALS, "Alice".to_string()),
        ("city".to_string(), Operator::EQUALS, "eq.Oslo=x".to_string()),
    ])
    .order(vec![
        ("age".to_string(), Direction::DESC),
        ("first.name".to_string(), Direction::ASC),
    ])
    .limit(100)
    .offset(40);
    let back = parse_url(&select_to_url(&q)).unwrap();
    assert_eq!(back.table, q.table);
    assert_eq!(back.filter, q.filter);
    assert_eq!(back.order, q.order);
    assert_eq!(back.limit, q.limit);
    assert_eq!(back.offset, q.offset);
    assert!(back.select.is_empty());
}

#[test]
fn rendered_url_with_default_limit_reads_back() {
    let mut q = query("people");
    q.limit(10);
    let back = parse_url(&select_to_url(&q)).unwrap();
    assert_eq!(back.limit, 10);
    assert_eq!(back.offset, 0);
    for limit in 1..=100usize {
        let mut q = query("t");
        q.limit(limit).offset(limit - 1);
        let back = parse_url(&select_to_url(&q)).unwrap();
        assert_eq!(back.limit, limit);
        assert_eq!(back.offset, limit - 1);
    }
}

#[test]
fn unset_limit_reads_back_as_the_default() {
    let q = query("people");
    assert_eq!(q.limit, 0);
    let back = parse_url(&select_to_url(&q)).unwrap();
    assert_eq!(back.limit, 10);
}

#[test]
fn non_ascii_text_is_kept() {
    let q = parse("caf\u{e9}s", "n\u{e4}me=eq.Z\u{fc}rich&order=\u{e5}r.asc").unwrap();
    assert_eq!(q.table, "caf\u{e9}s");
    assert_eq!(
        q.filter,
        vec![("n\u{e4}me".to_string(), Operator::EQUALS, "Z\u{fc}rich".to_string())]
    );
    assert_eq!(q.order, vec![("\u{e5}r".to_string(), Direction::ASC)]);
    assert_eq!(
        select_to_url(&q),
        "caf\u{e9}s?n\u{e4}me=eq.Z\u{fc}rich&order=\u{e5}r.asc"
    );
}
