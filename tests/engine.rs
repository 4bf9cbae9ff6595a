use rusty_pipes::context::Context;
use rusty_pipes::definitions::{
    ColumnDefinition, DataSourceDefinition, DataType, Format, Operation, PipelineDefinition, Source,
    TransformationDefinition,
};
use rusty_pipes::engine::{run_transformation, Engine};
use rusty_pipes::error::RustyPipesError;
use rusty_pipes::loader::FileLoader;
use rusty_pipes::table::{ColumnValue, Dataframe, Row};
use std::collections::HashMap;

fn read_decimal(s: &String) -> Option<u64> {
    s.parse::<f64>().ok().map(f64::to_bits)
}

fn row(pairs: Vec<(&str, ColumnValue)>) -> Row {
    Row::from_pairs(pairs.into_iter().map(|(k, v)| (k.to_owned(), v)).collect())
}

fn as_maps(t: &Dataframe) -> Vec<HashMap<String, ColumnValue>> {
    t.iter().map(|r| r.entries().iter().cloned().collect()).collect()
}

fn maps(rows: Vec<Vec<(&str, ColumnValue)>>) -> Vec<HashMap<String, ColumnValue>> {
    rows.into_iter()
        .map(|r| r.into_iter().map(|(k, v)| (k.to_owned(), v)).collect())
        .collect()
}

fn column(name: &str, data_type: DataType) -> ColumnDefinition {
    ColumnDefinition { column_name: name.to_owned(), data_type, required: true }
}

fn file_source(path: &str, schema: Vec<ColumnDefinition>) -> DataSourceDefinition {
    DataSourceDefinition { schema, source: Source::File { path: path.to_owned(), format: Format::Csv } }
}

fn filter(predicate: &str) -> Operation {
    Operation::Filter { predicate: predicate.to_owned() }
}

fn transformation(sources: Vec<&str>, operations: Vec<Operation>) -> TransformationDefinition {
    TransformationDefinition { sources: sources.into_iter().map(|s| s.to_owned()).collect(), operations }
}

fn salaries() -> Dataframe {
    vec![
        row(vec![
            ("first_name", ColumnValue::String(String::from("Jen"))),
            ("salary", ColumnValue::Decimal(19319.0f64.to_bits())),
        ]),
        row(vec![
            ("first_name", ColumnValue::String(String::from("Al"))),
            ("salary", ColumnValue::Decimal(5000.0f64.to_bits())),
        ]),
    ]
}

#[test]
fn engine_it_runs_a_pipeline() {
    let definition = PipelineDefinition {
        sources: vec![(
            "s".to_owned(),
            file_source("people.csv", vec![column("first_name", DataType::String), column("salary", DataType::Decimal)]),
        )],
        transformations: vec![("filtered".to_owned(), transformation(vec!["s"], vec![filter("salary > 10000")]))],
    };
    let engine = Engine::from_definition(definition);
    let loaded = vec![("s".to_owned(), Ok(salaries()))];
    let result = engine.run(&loaded, &Context::default(), &read_decimal);
    assert_eq!(result.len(), 1);
    assert_eq!(result[0].0, "filtered");
    let tables = result[0].1.as_ref().unwrap();
    assert_eq!(tables.len(), 1);
    assert_eq!(
        as_maps(&tables[0]),
        maps(vec![vec![
            ("first_name", ColumnValue::String(String::from("Jen"))),
            ("salary", ColumnValue::Decimal(19319.0f64.to_bits())),
        ]])
    );
}

#[test]
fn engine_isolates_failed_sources() {
    let definition = PipelineDefinition {
        sources: vec![
            ("good".to_owned(), file_source("good.csv", vec![column("first_name", DataType::String)])),
            ("bad".to_owned(), file_source("bad.csv", vec![column("first_name", DataType::String)])),
        ],
        transformations: vec![
            ("broken".to_owned(), transformation(vec!["bad"], vec![filter("salary > 1")])),
            ("fine".to_owned(), transformation(vec!["good"], vec![filter("salary > 10000")])),
        ],
    };
    let engine = Engine::from_definition(definition);
    let loaded = vec![
        ("good".to_owned(), Ok(salaries())),
        ("bad".to_owned(), Err(RustyPipesError::LoaderError("no such file".to_owned()))),
    ];
    let result = engine.run(&loaded, &Context::default(), &read_decimal);
    assert_eq!(result.len(), 2);
    assert_eq!(result[0].0, "broken");
    match &result[0].1 {
        Err(RustyPipesError::LoaderError(m)) => assert_eq!(m, "no such file"),
        _ => panic!("expected the load error"),
    }
    assert_eq!(result[1].0, "fine");
    let tables = result[1].1.as_ref().unwrap();
    assert_eq!(tables.len(), 1);
    assert_eq!(tables[0].len(), 1);
}

#[test]
fn engine_compile_error_comes_before_source_error() {
    let t = transformation(vec!["bad"], vec![filter("salary >")]);
    let loaded = vec![("bad".to_owned(), Err(RustyPipesError::LoaderError("gone".to_owned())))];
    match run_transformation(&t, &loaded, &Context::default(), &read_decimal) {
        Err(RustyPipesError::TransformationError(m)) => assert_eq!(m, "Unable to parse predicate salary >"),
        _ => panic!("expected a compile error"),
    }
}

#[test]
fn engine_unknown_source_is_an_error() {
    let t = transformation(vec!["missing"], vec![filter("salary > 1")]);
    match run_transformation(&t, &vec![], &Context::default(), &read_decimal) {
        Err(RustyPipesError::TransformationError(m)) => assert_eq!(m, "Unknown source missing"),
        _ => panic!("expected an error"),
    }
}

#[test]
fn engine_chains_join_then_filter() {
    let left = vec![
        row(vec![("id", ColumnValue::String("1".to_owned())), ("foo", ColumnValue::Integer(0))]),
        row(vec![("id", ColumnValue::String("2".to_owned())), ("foo", ColumnValue::Integer(5))]),
    ];
    let right = vec![
        row(vec![("id", ColumnValue::String("1".to_owned())), ("bar", ColumnValue::Integer(3))]),
        row(vec![("id", ColumnValue::String("1".to_owned())), ("bar", ColumnValue::Integer(4))]),
        row(vec![("id", ColumnValue::String("2".to_owned())), ("bar", ColumnValue::Integer(6))]),
    ];
    let t = transformation(
        vec!["l", "r"],
        vec![Operation::InnerJoin { on: "id = id".to_owned() }, filter("bar >= :min")],
    );
    let loaded = vec![("l".to_owned(), Ok(left)), ("r".to_owned(), Ok(right))];
    let context = Context::new(vec![("min".to_owned(), "4".to_owned())]);
    let tables = run_transformation(&t, &loaded, &context, &read_decimal).unwrap();
    assert_eq!(tables.len(), 1);
    assert_eq!(
        as_maps(&tables[0]),
        maps(vec![
            vec![("id", ColumnValue::String("1".to_owned())), ("foo", ColumnValue::Integer(0)), ("bar", ColumnValue::Integer(4))],
            vec![("id", ColumnValue::String("2".to_owned())), ("foo", ColumnValue::Integer(5)), ("bar", ColumnValue::Integer(6))],
        ])
    );
}

#[test]
fn engine_arity_mismatch_is_an_error() {
    let t = transformation(vec!["l"], vec![Operation::InnerJoin { on: "id = id".to_owned() }]);
    let loaded = vec![("l".to_owned(), Ok(vec![]))];
    match run_transformation(&t, &loaded, &Context::default(), &read_decimal) {
        Err(RustyPipesError::TransformationError(m)) => assert_eq!(m, "An inner join takes exactly two tables"),
        _ => panic!("expected an error"),
    }
    let t = transformation(vec!["l", "l"], vec![filter("a > 1")]);
    match run_transformation(&t, &loaded, &Context::default(), &read_decimal) {
        Err(RustyPipesError::TransformationError(m)) => assert_eq!(m, "A filter takes exactly one table"),
        _ => panic!("expected an error"),
    }
}

#[test]
fn engine_output_without_operations_is_empty() {
    let t = transformation(vec!["l"], vec![]);
    let loaded = vec![("l".to_owned(), Ok(salaries()))];
    let tables = run_transformation(&t, &loaded, &Context::default(), &read_decimal).unwrap();
    assert!(tables.is_empty());
}

#[test]
fn loader_decodes_records_by_schema() {
    let loader = FileLoader::new(
        "people.csv".to_owned(),
        Format::Csv,
        vec![column("name", DataType::String), column("age", DataType::Integer), column("pay", DataType::Decimal)],
    );
    let records = vec![
        vec!["Jen".to_owned(), "41".to_owned(), "19319.5".to_owned()],
        vec!["Al".to_owned(), "-3".to_owned(), "0".to_owned(), "extra".to_owned()],
    ];
    let table = loader.decode_records(&records, &read_decimal).unwrap();
    assert_eq!(
        as_maps(&table),
        maps(vec![
            vec![
                ("name", ColumnValue::String("Jen".to_owned())),
                ("age", ColumnValue::Integer(41)),
                ("pay", ColumnValue::Decimal(19319.5f64.to_bits())),
            ],
            vec![
                ("name", ColumnValue::String("Al".to_owned())),
                ("age", ColumnValue::Integer(-3)),
                ("pay", ColumnValue::Decimal(0.0f64.to_bits())),
            ],
        ])
    );
}

#[test]
fn loader_reports_bad_fields() {
    let loader = FileLoader::new("p.csv".to_owned(), Format::Csv, vec![column("age", DataType::Integer)]);
    match loader.decode_record(&vec!["forty".to_owned()], &read_decimal) {
        Err(RustyPipesError::LoaderError(m)) => assert_eq!(m, "Unable to read a field of column age"),
        _ => panic!("expected an error"),
    }
    match loader.decode_record(&vec![], &read_decimal) {
        Err(RustyPipesError::LoaderError(m)) => assert_eq!(m, "Record has fewer fields than the schema"),
        _ => panic!("expected an error"),
    }
    let loader = FileLoader::new("p.csv".to_owned(), Format::Csv, vec![column("pay", DataType::Decimal)]);
    assert!(loader.decode_record(&vec!["lots".to_owned()], &read_decimal).is_err());
}

#[test]
fn row_insert_overwrites() {
    let mut r = Row::new();
    r.insert("a".to_owned(), ColumnValue::Integer(1));
    r.insert("b".to_owned(), ColumnValue::Integer(2));
    r.insert("a".to_owned(), ColumnValue::Integer(3));
    assert_eq!(r.get(&"a".to_owned()), Some(&ColumnValue::Integer(3)));
    assert_eq!(r.get(&"c".to_owned()), None);
    assert_eq!(r.entries().len(), 2);
}

#[test]
fn error_message_text() {
    let e = RustyPipesError::LoaderError("x".to_owned());
    assert_eq!(e.message(), "x");
}
