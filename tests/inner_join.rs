use rusty_pipes::error::RustyPipesError;
use rusty_pipes::inner_join::{extract_identifier, InnerJoin};
use rusty_pipes::table::{ColumnValue, Dataframe, Row};
use std::collections::HashMap;

fn row(pairs: Vec<(&str, ColumnValue)>) -> Row {
    Row::from_pairs(pairs.into_iter().map(|(k, v)| (k.to_owned(), v)).collect())
}

fn as_maps(t: &Dataframe) -> Vec<HashMap<String, ColumnValue>> {
    t.iter().map(|r| r.entries().iter().cloned().collect()).collect()
}

fn maps(rows: Vec<Vec<(&str, ColumnValue)>>) -> Vec<HashMap<String, ColumnValue>> {
    rows.into_iter()
        .map(|r| r.into_iter().map(|(k, v)| (k.to_owned(), v)).collect())
        .collect()
}

fn s(v: &str) -> ColumnValue {
    ColumnValue::String(String::from(v))
}

fn join(clause: &str, left: &Dataframe, right: &Dataframe) -> Vec<HashMap<String, ColumnValue>> {
    as_maps(&InnerJoin::new(clause).unwrap().transform(left, right))
}

#[test]
fn inner_join_no_matching_ids() {
    let left = vec![
        row(vec![("id", s("id1")), ("foo", ColumnValue::Integer(0))]),
        row(vec![("id", s("id2")), ("foo", ColumnValue::Integer(1))]),
        row(vec![("id", s("id3")), ("foo", ColumnValue::Integer(2))]),
    ];
    let right = vec![
        row(vec![("id", s("id4")), ("bar", ColumnValue::Integer(3))]),
        row(vec![("id", s("id5")), ("bar", ColumnValue::Integer(4))]),
        row(vec![("id", s("id6")), ("bar", ColumnValue::Integer(5))]),
    ];
    assert_eq!(join("id = id", &left, &right), vec![]);
}

#[test]
fn inner_join_no_matching_column_names() {
    let left = vec![row(vec![("id", s("id1")), ("foo", ColumnValue::Integer(0))])];
    let right = vec![row(vec![("id", s("id4")), ("bar", ColumnValue::Integer(3))])];
    assert_eq!(join("non_existing = non_existing", &left, &right), vec![]);
}

#[test]
fn inner_join_matching_rows() {
    let left = vec![
        row(vec![("id", s("id1")), ("foo", ColumnValue::Integer(0))]),
        row(vec![("id", s("id2")), ("foo", ColumnValue::Integer(1))]),
    ];
    let right = vec![
        row(vec![("id", s("id1")), ("bar", ColumnValue::Integer(3))]),
        row(vec![("id", s("id2")), ("bar", ColumnValue::Integer(4))]),
    ];
    assert_eq!(
        join("id = id", &left, &right),
        maps(vec![
            vec![("id", s("id1")), ("foo", ColumnValue::Integer(0)), ("bar", ColumnValue::Integer(3))],
            vec![("id", s("id2")), ("foo", ColumnValue::Integer(1)), ("bar", ColumnValue::Integer(4))],
        ])
    );
}

#[test]
fn inner_join_multiple_matching_rows_right_multiplex() {
    let left = vec![row(vec![("id", s("id1")), ("foo", ColumnValue::Integer(0))])];
    let right = vec![
        row(vec![("id", s("id1")), ("bar", ColumnValue::Integer(3))]),
        row(vec![("id", s("id1")), ("bar", ColumnValue::Integer(4))]),
    ];
    assert_eq!(
        join("id = id", &left, &right),
        maps(vec![
            vec![("id", s("id1")), ("foo", ColumnValue::Integer(0)), ("bar", ColumnValue::Integer(3))],
            vec![("id", s("id1")), ("foo", ColumnValue::Integer(0)), ("bar", ColumnValue::Integer(4))],
        ])
    );
}

#[test]
fn inner_join_multiple_matching_rows_left_multiplex() {
    let left = vec![
        row(vec![("id", s("id1")), ("foo", ColumnValue::Integer(0))]),
        row(vec![("id", s("id1")), ("foo", ColumnValue::Integer(1))]),
    ];
    let right = vec![row(vec![("id", s("id1")), ("bar", ColumnValue::Integer(3))])];
    assert_eq!(
        join("id = id", &left, &right),
        maps(vec![
            vec![("id", s("id1")), ("foo", ColumnValue::Integer(0)), ("bar", ColumnValue::Integer(3))],
            vec![("id", s("id1")), ("foo", ColumnValue::Integer(1)), ("bar", ColumnValue::Integer(3))],
        ])
    );
}

#[test]
fn inner_join_joins_on_integers() {
    let left = vec![row(vec![("id", ColumnValue::Integer(1)), ("foo", ColumnValue::Integer(0))])];
    let right = vec![row(vec![("id", ColumnValue::Integer(1)), ("bar", ColumnValue::Integer(3))])];
    assert_eq!(
        join("id = id", &left, &right),
        maps(vec![vec![
            ("id", ColumnValue::Integer(1)),
            ("foo", ColumnValue::Integer(0)),
            ("bar", ColumnValue::Integer(3)),
        ]])
    );
}

#[test]
fn does_not_join_on_floats() {
    let left = vec![row(vec![
        ("id", ColumnValue::Decimal(1.0f64.to_bits())),
        ("foo", ColumnValue::Integer(0)),
    ])];
    let right = vec![row(vec![
        ("id", ColumnValue::Decimal(1.0f64.to_bits())),
        ("bar", ColumnValue::Integer(3)),
    ])];
    assert_eq!(join("id = id", &left, &right), vec![]);
}

#[test]
fn inner_join_unable_to_parse_clause() {
    let op = InnerJoin::new("id > 3");
    assert!(match op {
        Err(RustyPipesError::TransformationError(message)) => {
            message.contains("Unable to parse join clause")
        }
        _ => false,
    });
}

#[test]
fn join_example_expands_right_rows_in_order() {
    let left = vec![row(vec![("id", s("1")), ("foo", ColumnValue::Integer(0))])];
    let right = vec![
        row(vec![("id", s("1")), ("bar", ColumnValue::Integer(3))]),
        row(vec![("id", s("1")), ("bar", ColumnValue::Integer(4))]),
    ];
    assert_eq!(
        join("id = id", &left, &right),
        maps(vec![
            vec![("id", s("1")), ("foo", ColumnValue::Integer(0)), ("bar", ColumnValue::Integer(3))],
            vec![("id", s("1")), ("foo", ColumnValue::Integer(0)), ("bar", ColumnValue::Integer(4))],
        ])
    );
}

#[test]
fn join_right_value_wins_on_shared_column() {
    let left = vec![row(vec![("id", s("a")), ("v", ColumnValue::Integer(1)), ("l", ColumnValue::Integer(7))])];
    let right = vec![row(vec![("key", s("a")), ("v", ColumnValue::Integer(2))])];
    assert_eq!(
        join("id = key", &left, &right),
        maps(vec![vec![
            ("id", s("a")),
            ("l", ColumnValue::Integer(7)),
            ("key", s("a")),
            ("v", ColumnValue::Integer(2)),
        ]])
    );
}

#[test]
fn join_cardinality_is_sum_of_matches() {
    let left = vec![
        row(vec![("k", s("a"))]),
        row(vec![("k", s("b"))]),
        row(vec![("k", s("c"))]),
        row(vec![("other", s("a"))]),
    ];
    let right = vec![
        row(vec![("k", s("a")), ("n", ColumnValue::Integer(1))]),
        row(vec![("k", s("b")), ("n", ColumnValue::Integer(2))]),
        row(vec![("k", s("a")), ("n", ColumnValue::Integer(3))]),
        row(vec![("k", s("a")), ("n", ColumnValue::Integer(4))]),
    ];
    let out = join("k = k", &left, &right);
    assert_eq!(out.len(), 4);
    assert_eq!(out[0].get("n"), Some(&ColumnValue::Integer(1)));
    assert_eq!(out[1].get("n"), Some(&ColumnValue::Integer(3)));
    assert_eq!(out[2].get("n"), Some(&ColumnValue::Integer(4)));
    assert_eq!(out[3].get("n"), Some(&ColumnValue::Integer(2)));
}

#[test]
fn join_integer_matches_its_text() {
    let left = vec![row(vec![("id", ColumnValue::Integer(-42))])];
    let right = vec![
        row(vec![("id", s("-42")), ("x", ColumnValue::Integer(1))]),
        row(vec![("id", s("42")), ("x", ColumnValue::Integer(2))]),
    ];
    assert_eq!(
        join("id=id", &left, &right),
        maps(vec![vec![("id", s("-42")), ("x", ColumnValue::Integer(1))]])
    );
}

#[test]
fn join_decimal_rows_are_skipped_not_errors() {
    let left = vec![
        row(vec![("id", ColumnValue::Decimal(1.0f64.to_bits()))]),
        row(vec![("id", s("1")), ("l", ColumnValue::Integer(0))]),
    ];
    let right = vec![
        row(vec![("id", ColumnValue::Decimal(1.0f64.to_bits()))]),
        row(vec![("id", ColumnValue::Integer(1)), ("r", ColumnValue::Integer(9))]),
    ];
    assert_eq!(
        join("id = id", &left, &right),
        maps(vec![vec![
            ("id", ColumnValue::Integer(1)),
            ("l", ColumnValue::Integer(0)),
            ("r", ColumnValue::Integer(9)),
        ]])
    );
}

#[test]
fn join_clause_is_split_at_first_equals_and_trimmed() {
    let left = vec![row(vec![("a", s("x"))])];
    let right = vec![row(vec![("b=c", s("x"))])];
    assert_eq!(join("  a \t=  b=c ", &left, &right).len(), 1);
}

#[test]
fn join_clause_error_message_is_exact() {
    match InnerJoin::new("id > 3") {
        Err(RustyPipesError::TransformationError(m)) => assert_eq!(m, "Unable to parse join clause id > 3"),
        _ => panic!("expected an error"),
    }
}

#[test]
fn identifier_of_values() {
    assert_eq!(extract_identifier(&ColumnValue::Integer(1234)), Some(String::from("1234")));
    assert_eq!(extract_identifier(&s("abc")), Some(String::from("abc")));
    assert_eq!(extract_identifier(&ColumnValue::Decimal(2.0f64.to_bits())), None);
}
