use nanobot::sql::{
    is_quote_free, select_to_sql, select_to_sql_count, Direction, Operator, Select, LIMIT_DEFAULT,
    LIMIT_MAX,
};

fn columns() -> Vec<String> {
    vec!["id".to_string(), "name".to_string(), "age".to_string()]
}

fn people() -> Select {
    let mut q = Select::new();
    q.table("people");
    q
}

#[test]
fn fetch_statement_with_every_clause() {
    let mut q = Select::new();
    q.table("people")
        .select(vec!["id".to_string(), "name".to_string()])
        .filter(vec![("name".to_string(), Operator::EQUALS, "Alice".to_string())])
        .order(vec![("age".to_string(), Direction::DESC)])
        .limit(5)
        .offset(20);
    assert_eq!(
        select_to_sql(&q, &columns()),
        "SELECT json_object(\n  'id', \"id\",\n  'name', \"name\"\n) AS json_result\nFROM \"people\"\nWHERE \"name\" = 'Alice'\nORDER BY \"age\" DESC\nLIMIT 5\nOFFSET 20"
    );
    assert_eq!(
        select_to_sql_count(&q),
        "SELECT COUNT(*) AS count\nFROM \"people\"\nWHERE \"name\" = 'Alice'"
    );
}

#[test]
fn empty_projection_asks_for_all_columns() {
    let q = people();
    assert_eq!(
        select_to_sql(&q, &columns()),
        "SELECT json_object(\n  'id', \"id\",\n  'name', \"name\",\n  'age', \"age\"\n) AS json_result\nFROM \"people\""
    );
    assert_eq!(select_to_sql_count(&q), "SELECT COUNT(*) AS count\nFROM \"people\"");
}

#[test]
fn projection_takes_the_place_of_the_table_columns() {
    let mut q = people();
    q.select(vec!["name".to_string()]);
    assert_eq!(
        select_to_sql(&q, &columns()),
        "SELECT json_object(\n  'name', \"name\"\n) AS json_result\nFROM \"people\""
    );
    assert_eq!(select_to_sql(&q, &columns()), select_to_sql(&q, &vec![]));
    let all = people();
    assert_eq!(
        select_to_sql(&all, &vec!["name".to_string()]),
        select_to_sql(&q, &columns())
    );
}

#[test]
fn filters_are_joined_with_and() {
    let mut q = people();
    q.filter(vec![
        ("name".to_string(), Operator::EQUALS, "Alice".to_string()),
        ("city".to_string(), Operator::EQUALS, "Oslo".to_string()),
    ]);
    assert_eq!(
        select_to_sql_count(&q),
        "SELECT COUNT(*) AS count\nFROM \"people\"\nWHERE \"name\" = 'Alice'\n  AND \"city\" = 'Oslo'"
    );
}

#[test]
fn ordering_steps_are_joined_with_commas() {
    let mut q = people();
    q.order(vec![
        ("age".to_string(), Direction::DESC),
        ("name".to_string(), Direction::ASC),
    ]);
    assert_eq!(
        select_to_sql(&q, &vec!["id".to_string()]),
        "SELECT json_object(\n  'id', \"id\"\n) AS json_result\nFROM \"people\"\nORDER BY \"age\" DESC, \"name\" ASC"
    );
}

#[test]
fn zero_limit_and_offset_leave_their_clauses_out() {
    let mut q = people();
    q.limit(0).offset(0);
    assert!(!select_to_sql(&q, &columns()).contains("LIMIT"));
    assert!(!select_to_sql(&q, &columns()).contains("OFFSET"));
    q.offset(7);
    assert!(select_to_sql(&q, &columns()).ends_with("FROM \"people\"\nOFFSET 7"));
}

#[test]
fn large_numbers_are_written_in_full() {
    let mut q = people();
    q.limit(100).offset(1234567890);
    assert!(select_to_sql(&q, &columns()).ends_with("\nLIMIT 100\nOFFSET 1234567890"));
}

#[test]
fn compiling_twice_gives_the_same_text() {
    let mut q = people();
    q.select(vec!["id".to_string()])
        .filter(vec![("id".to_string(), Operator::EQUALS, "a".to_string())])
        .limit(3);
    let copy = Select::clone(&q);
    assert_eq!(select_to_sql(&q, &columns()), select_to_sql(&q, &columns()));
    assert_eq!(select_to_sql(&q, &columns()), select_to_sql(&copy, &columns()));
    assert_eq!(select_to_sql_count(&q), select_to_sql_count(&copy));
}

#[test]
fn count_statement_ignores_the_page() {
    let mut q = people();
    q.filter(vec![("id".to_string(), Operator::EQUALS, "a".to_string())]);
    let mut paged = Select::clone(&q);
    paged.limit(5).offset(10).order(vec![("id".to_string(), Direction::ASC)]);
    assert_eq!(select_to_sql_count(&q), select_to_sql_count(&paged));
}

#[test]
fn mutators_append() {
    let mut q = people();
    q.select(vec!["a".to_string()]);
    q.select(vec!["b".to_string(), "c".to_string()]);
    assert_eq!(q.select, vec!["a".to_string(), "b".to_string(), "c".to_string()]);
    q.filter(vec![("a".to_string(), Operator::EQUALS, "1".to_string())]);
    q.filter(vec![("b".to_string(), Operator::EQUALS, "2".to_string())]);
    assert_eq!(q.filter.len(), 2);
    assert_eq!(q.filter[1].0, "b");
    q.order(vec![("a".to_string(), Direction::ASC)]);
    q.order(vec![("b".to_string(), Direction::DESC)]);
    assert_eq!(
        q.order,
        vec![("a".to_string(), Direction::ASC), ("b".to_string(), Direction::DESC)]
    );
}

#[test]
fn setters_replace() {
    let mut q = people();
    q.table("places").limit(5).limit(7).offset(1).offset(2);
    assert_eq!(q.table, "places");
    assert_eq!(q.limit, 7);
    assert_eq!(q.offset, 2);
}

#[test]
fn limit_is_capped() {
    let mut q = people();
    q.limit(LIMIT_MAX);
    assert_eq!(q.limit, 100);
    q.limit(LIMIT_MAX + 1);
    assert_eq!(q.limit, 100);
    q.limit(usize::MAX);
    assert_eq!(q.limit, 100);
    assert_eq!(LIMIT_DEFAULT, 10);
}

#[test]
fn new_query_is_empty() {
    let q = Select::new();
    assert_eq!(q.table, "");
    assert!(q.select.is_empty());
    assert!(q.filter.is_empty());
    assert!(q.order.is_empty());
    assert_eq!(q.limit, 0);
    assert_eq!(q.offset, 0);
}

#[test]
fn copy_holds_the_same_fields() {
    let mut q = people();
    q.select(vec!["id".to_string()])
        .filter(vec![("id".to_string(), Operator::EQUALS, "a".to_string())])
        .order(vec![("id".to_string(), Direction::DESC)])
        .limit(4)
        .offset(8);
    let copy = Select::clone(&q);
    assert_eq!(copy.table, q.table);
    assert_eq!(copy.select, q.select);
    assert_eq!(copy.filter, q.filter);
    assert_eq!(copy.order, q.order);
    assert_eq!(copy.limit, 4);
    assert_eq!(copy.offset, 8);
}

#[test]
fn quotes_are_found() {
    assert!(is_quote_free(""));
    assert!(is_quote_free("Alice"));
    assert!(!is_quote_free("O'Brien"));
    assert!(!is_quote_free("a\"b"));
    assert!(!is_quote_free("'"));
    let mut q = people();
    q.select(vec!["id".to_string()])
        .filter(vec![("name".to_string(), Operator::EQUALS, "Alice".to_string())])
        .order(vec![("age".to_string(), Direction::ASC)]);
    assert!(q.is_quote_free());
    let mut bad = Select::clone(&q);
    bad.filter(vec![("name".to_string(), Operator::EQUALS, "x' OR '1'='1".to_string())]);
    assert!(!bad.is_quote_free());
    let mut bad = Select::clone(&q);
    bad.filter(vec![("na\"me".to_string(), Operator::EQUALS, "x".to_string())]);
    assert!(!bad.is_quote_free());
    let mut bad = Select::clone(&q);
    bad.select(vec!["i'd".to_string()]);
    assert!(!bad.is_quote_free());
    let mut bad = Select::clone(&q);
    bad.order(vec![("a\"ge".to_string(), Direction::ASC)]);
    assert!(!bad.is_quote_free());
    let mut bad = Select::clone(&q);
    bad.table("peo\"ple");
    assert!(!bad.is_quote_free());
}

#[test]
fn values_are_written_as_they_are() {
    let mut q = people();
    q.filter(vec![("name".to_string(), Operator::EQUALS, "O'Brien".to_string())]);
    assert_eq!(
        select_to_sql_count(&q),
        "SELECT COUNT(*) AS count\nFROM \"people\"\nWHERE \"name\" = 'O'Brien'"
    );
}
