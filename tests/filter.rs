use rusty_pipes::context::Context;
use rusty_pipes::error::RustyPipesError;
use rusty_pipes::filter::Filter;
use rusty_pipes::table::{ColumnValue, Dataframe, Row};
use std::collections::HashMap;

fn read_decimal(s: &String) -> Option<u64> {
    s.parse::<f64>().ok().map(f64::to_bits)
}

fn row(pairs: Vec<(&str, ColumnValue)>) -> Row {
    Row::from_pairs(pairs.into_iter().map(|(k, v)| (k.to_owned(), v)).collect())
}

fn as_maps(t: &Dataframe) -> Vec<HashMap<String, ColumnValue>> {
    t.iter().map(|r| r.entries().iter().cloned().collect()).collect()
}

fn maps(rows: Vec<Vec<(&str, ColumnValue)>>) -> Vec<HashMap<String, ColumnValue>> {
    rows.into_iter()
        .map(|r| r.into_iter().map(|(k, v)| (k.to_owned(), v)).collect())
        .collect()
}

fn df() -> Dataframe {
    vec![
        row(vec![("foo", ColumnValue::Integer(0))]),
        row(vec![("foo", ColumnValue::Integer(1))]),
        row(vec![("foo", ColumnValue::Integer(2))]),
    ]
}

fn ctx(params: Vec<(&str, &str)>) -> Context {
    Context::new(params.into_iter().map(|(k, v)| (k.to_owned(), v.to_owned())).collect())
}

fn run(predicate: &str, context: &Context, table: &Dataframe) -> Vec<HashMap<String, ColumnValue>> {
    let op = Filter::new(predicate, context, &read_decimal).unwrap();
    as_maps(&op.transform(table).unwrap())
}

fn strings(values: Vec<&str>) -> Dataframe {
    values
        .into_iter()
        .map(|v| row(vec![("foo", ColumnValue::String(v.to_owned()))]))
        .collect()
}

fn decimal(x: f64) -> ColumnValue {
    ColumnValue::Decimal(x.to_bits())
}

#[test]
fn filter_filter_gt() {
    let result = run("foo > 1", &ctx(vec![]), &df());
    assert_eq!(result, maps(vec![vec![("foo", ColumnValue::Integer(2))]]));
}

#[test]
fn filter_filter_gte() {
    let result = run("foo >= 1", &ctx(vec![]), &df());
    assert_eq!(
        result,
        maps(vec![vec![("foo", ColumnValue::Integer(1))], vec![("foo", ColumnValue::Integer(2))]])
    );
}

#[test]
fn filter_filter_lt() {
    let result = run("foo < 1", &ctx(vec![]), &df());
    assert_eq!(result, maps(vec![vec![("foo", ColumnValue::Integer(0))]]));
}

#[test]
fn filter_filter_lte() {
    let result = run("foo <= 1", &ctx(vec![]), &df());
    assert_eq!(
        result,
        maps(vec![vec![("foo", ColumnValue::Integer(0))], vec![("foo", ColumnValue::Integer(1))]])
    );
}

#[test]
fn filter_filter_eq() {
    let result = run("foo == 1", &ctx(vec![]), &df());
    assert_eq!(result, maps(vec![vec![("foo", ColumnValue::Integer(1))]]));
}

#[test]
fn filter_filter_ne() {
    let result = run("foo != 1", &ctx(vec![]), &df());
    assert_eq!(
        result,
        maps(vec![vec![("foo", ColumnValue::Integer(0))], vec![("foo", ColumnValue::Integer(2))]])
    );
}

#[test]
fn filter_filter_contains() {
    let result = run("foo contains bar", &Context::default(), &strings(vec!["barrister", "arable"]));
    assert_eq!(
        result,
        maps(vec![vec![("foo", ColumnValue::String(String::from("barrister")))]])
    );
}

#[test]
fn filter_filter_not_contains() {
    let result = run("foo !contains bar", &Context::default(), &strings(vec!["barrister", "arable"]));
    assert_eq!(result, maps(vec![vec![("foo", ColumnValue::String(String::from("arable")))]]));
}

#[test]
fn filter_filter_using_parameter() {
    let result = run("foo != :param_name", &ctx(vec![("param_name", "1")]), &df());
    assert_eq!(
        result,
        maps(vec![vec![("foo", ColumnValue::Integer(0))], vec![("foo", ColumnValue::Integer(2))]])
    );
}

fn transformation_message(r: Result<Filter, RustyPipesError>) -> String {
    match r {
        Err(RustyPipesError::TransformationError(message)) => message,
        _ => panic!("expected a transformation error"),
    }
}

#[test]
fn filter_nonsense_predicate() {
    let op = Filter::new("foo ==", &Default::default(), &read_decimal);
    assert!(transformation_message(op).contains("Unable to parse"));
}

#[test]
fn filter_invalid_operation() {
    let op = Filter::new("foo === 10", &Default::default(), &read_decimal);
    assert!(transformation_message(op).contains("Unrecognised operation"));
}

#[test]
fn filter_unresolved_param() {
    let op = Filter::new("foo == :bar", &Default::default(), &read_decimal);
    assert!(transformation_message(op).contains("Unable to resolve parameter"));
}

#[test]
fn filter_error_messages_are_exact() {
    let m = transformation_message(Filter::new("foo ==", &Context::default(), &read_decimal));
    assert_eq!(m, "Unable to parse predicate foo ==");
    let m = transformation_message(Filter::new("foo === 10", &Context::default(), &read_decimal));
    assert_eq!(m, "Unrecognised operation: ===");
    let m = transformation_message(Filter::new("foo == :bar", &Context::default(), &read_decimal));
    assert_eq!(m, "Unable to resolve parameter :bar");
}

#[test]
fn filter_rejects_a_fourth_token() {
    let m = transformation_message(Filter::new("foo == 1 2", &Context::default(), &read_decimal));
    assert_eq!(m, "Unable to parse predicate foo == 1 2");
}

#[test]
fn filter_accepts_any_whitespace_between_tokens() {
    let result = run("  foo\t>\n1  ", &Context::default(), &df());
    assert_eq!(result, maps(vec![vec![("foo", ColumnValue::Integer(2))]]));
}

#[test]
fn filter_keeps_rows_without_the_field() {
    let table = vec![
        row(vec![("foo", ColumnValue::Integer(0))]),
        row(vec![("bar", ColumnValue::Integer(0))]),
        row(vec![("foo", ColumnValue::Integer(5))]),
    ];
    let result = run("foo > 1", &Context::default(), &table);
    assert_eq!(
        result,
        maps(vec![vec![("bar", ColumnValue::Integer(0))], vec![("foo", ColumnValue::Integer(5))]])
    );
}

#[test]
fn filter_on_empty_table_is_empty() {
    let result = run("foo > 1", &Context::default(), &vec![]);
    assert!(result.is_empty());
}

#[test]
fn filter_compares_decimals_numerically() {
    let table = vec![
        row(vec![("x", decimal(-2.5))]),
        row(vec![("x", decimal(-0.0))]),
        row(vec![("x", decimal(0.5))]),
        row(vec![("x", decimal(10.0))]),
    ];
    let result = run("x > -1", &Context::default(), &table);
    assert_eq!(
        result,
        maps(vec![vec![("x", decimal(-0.0))], vec![("x", decimal(0.5))], vec![("x", decimal(10.0))]])
    );
    let result = run("x == 0", &Context::default(), &table);
    assert_eq!(result, maps(vec![vec![("x", decimal(-0.0))]]));
    let result = run("x <= -2.5", &Context::default(), &table);
    assert_eq!(result, maps(vec![vec![("x", decimal(-2.5))]]));
}

#[test]
fn filter_nan_is_only_unequal() {
    let table = vec![row(vec![("x", decimal(f64::NAN))])];
    assert!(run("x == 1", &Context::default(), &table).is_empty());
    assert!(run("x < 1", &Context::default(), &table).is_empty());
    assert_eq!(run("x != 1", &Context::default(), &table).len(), 1);
}

#[test]
fn filter_compares_text_lexicographically() {
    let table = strings(vec!["apple", "banana", "cherry"]);
    let result = run("foo >= banana", &Context::default(), &table);
    assert_eq!(
        result,
        maps(vec![
            vec![("foo", ColumnValue::String(String::from("banana")))],
            vec![("foo", ColumnValue::String(String::from("cherry")))],
        ])
    );
    let result = run("foo < b", &Context::default(), &table);
    assert_eq!(result, maps(vec![vec![("foo", ColumnValue::String(String::from("apple")))]]));
}

#[test]
fn filter_contains_excludes_non_text_both_ways() {
    let table = vec![row(vec![("foo", ColumnValue::Integer(1))])];
    assert!(run("foo contains 1", &Context::default(), &table).is_empty());
    assert!(run("foo !contains 1", &Context::default(), &table).is_empty());
}

#[test]
fn filter_unreadable_integer_literal_is_an_error() {
    let op = Filter::new("foo > abc", &Context::default(), &read_decimal).unwrap();
    match op.transform(&df()) {
        Err(RustyPipesError::TransformationError(m)) => {
            assert_eq!(m, "Unable to read as an integer: abc")
        }
        _ => panic!("expected an error"),
    }
}

#[test]
fn filter_unreadable_decimal_literal_is_an_error() {
    let op = Filter::new("x > abc", &Context::default(), &read_decimal).unwrap();
    match op.transform(&vec![row(vec![("x", decimal(1.0))])]) {
        Err(RustyPipesError::TransformationError(m)) => {
            assert_eq!(m, "Unable to read as a decimal: abc")
        }
        _ => panic!("expected an error"),
    }
}

#[test]
fn filter_integer_literal_out_of_range_is_an_error() {
    let op = Filter::new("foo > 9223372036854775808", &Context::default(), &read_decimal).unwrap();
    assert!(op.transform(&df()).is_err());
    let result = run("foo > -9223372036854775808", &Context::default(), &df());
    assert_eq!(result.len(), 3);
    let result = run("foo == +1", &Context::default(), &df());
    assert_eq!(result, maps(vec![vec![("foo", ColumnValue::Integer(1))]]));
}

#[test]
fn filter_not_equal_then_equal_partition_rows() {
    let table = vec![
        row(vec![("foo", ColumnValue::Integer(1))]),
        row(vec![("bar", ColumnValue::Integer(1))]),
        row(vec![("foo", ColumnValue::Integer(2))]),
        row(vec![("foo", ColumnValue::Integer(1))]),
    ];
    let ne = run("foo != 1", &Context::default(), &table);
    let eq = run("foo == 1", &Context::default(), &table);
    assert_eq!(
        ne,
        maps(vec![vec![("bar", ColumnValue::Integer(1))], vec![("foo", ColumnValue::Integer(2))]])
    );
    assert_eq!(
        eq,
        maps(vec![
            vec![("foo", ColumnValue::Integer(1))],
            vec![("bar", ColumnValue::Integer(1))],
            vec![("foo", ColumnValue::Integer(1))],
        ])
    );
}

#[test]
fn context_later_parameter_wins() {
    let c = ctx(vec![("a", "1"), ("a", "2")]);
    assert_eq!(c.parameter_value("a"), Some("2"));
    assert_eq!(c.parameter_value("b"), None);
}
