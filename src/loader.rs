//! Turning the text fields of a record into a typed row, following a schema.
use vstd::prelude::*;
use crate::definitions::{ColumnDefinition, DataType, Format};
use crate::error::{ErrorView, RustyPipesError};
use crate::filter::{is_reader, read_with, reading};
use crate::filter::table_result;
use crate::table::{rows_view, ColumnValue, Dataframe, Row, Value};
use crate::text::{integer_reading, parse_integer};

verus! {

/// The value that a field's text gives under a column type.
pub open spec fn field_value<F: Fn(&String) -> Option<u64>>(
    t: DataType,
    text: Seq<char>,
    read: F,
) -> Option<Value> {
    match t {
        DataType::Integer => match integer_reading(text) {
            Some(i) => Some(Value::Integer(i)),
            None => None,
        },
        DataType::Decimal => match reading(read, text) {
            Some(b) => Some(Value::Decimal(b)),
            None => None,
        },
        DataType::String => Some(Value::Text(text)),
    }
}

/// The row of the first `n` columns of the schema, or the error of the first
/// field that does not read as its column's type.
pub open spec fn decoded_columns<F: Fn(&String) -> Option<u64>>(
    schema: Seq<ColumnDefinition>,
    record: Seq<Seq<char>>,
    read: F,
    n: int,
) -> Result<Map<Seq<char>, Value>, ErrorView>
    decreases n,
{
    if n <= 0 {
        Ok(Map::empty())
    } else {
        match decoded_columns(schema, record, read, n - 1) {
            Err(e) => Err(e),
            Ok(m) => {
                let c = schema[n - 1];
                match field_value(c.data_type, record[n - 1], read) {
                    Some(v) => Ok(m.insert(c.column_name@, v)),
                    None => Err(ErrorView::Loader("Unable to read a field of column "@ + c.column_name@)),
                }
            },
        }
    }
}

/// The row that a record gives under a schema: the i-th field is read as the
/// i-th column's type and stored under its name (a later column wins over an
/// earlier one of the same name); fields past the schema are ignored.
pub open spec fn decoded_row<F: Fn(&String) -> Option<u64>>(
    schema: Seq<ColumnDefinition>,
    record: Seq<Seq<char>>,
    read: F,
) -> Result<Map<Seq<char>, Value>, ErrorView> {
    if record.len() < schema.len() {
        Err(ErrorView::Loader("Record has fewer fields than the schema"@))
    } else {
        decoded_columns(schema, record, read, schema.len() as int)
    }
}

pub open spec fn fields_view(record: Vec<String>) -> Seq<Seq<char>> {
    record@.map_values(|s: String| s@)
}

/// The rows that the records give, in order, or the error of the first
/// record that does not decode.
pub open spec fn decoded_table<F: Fn(&String) -> Option<u64>>(
    schema: Seq<ColumnDefinition>,
    records: Seq<Vec<String>>,
    read: F,
) -> Result<Seq<Map<Seq<char>, Value>>, ErrorView>
    decreases records.len(),
{
    if records.len() == 0 {
        Ok(seq![])
    } else {
        match decoded_table(schema, records.drop_last(), read) {
            Err(e) => Err(e),
            Ok(rows) => match decoded_row(schema, fields_view(records.last()), read) {
                Err(e) => Err(e),
                Ok(row) => Ok(rows.push(row)),
            },
        }
    }
}

/// A loader of a file source, for a path, a format and a schema. Reading the
/// file is left to the caller; the loader decodes each record.
pub struct FileLoader {
    path: String,
    format: Format,
    schema: Vec<ColumnDefinition>,
}

impl FileLoader {
    /// A loader for the given path, format and schema. No work is done until
    /// records are decoded.
    pub fn new(path: String, format: Format, schema: Vec<ColumnDefinition>) -> (r: FileLoader)
        ensures
            r.path()@ == path@,
            r.format() == format,
            r.schema()@ == schema@,
    {
        FileLoader { path, format, schema }
    }

    pub closed spec fn path(&self) -> String {
        self.path
    }

    pub closed spec fn format(&self) -> Format {
        self.format
    }

    pub closed spec fn schema(&self) -> Vec<ColumnDefinition> {
        self.schema
    }

    /// The path of the file.
    pub fn path_text(&self) -> (r: &String)
        ensures
            r@ == self.path()@,
    {
        &self.path
    }

    /// The format of the file.
    pub fn file_format(&self) -> (r: Format)
        ensures
            r == self.format(),
    {
        self.format
    }

    /// Decodes one record of text fields into a row of the schema.
    pub fn decode_record<F: Fn(&String) -> Option<u64>>(
        &self,
        record: &Vec<String>,
        read_decimal: &F,
    ) -> (r: Result<Row, RustyPipesError>)
        requires
            is_reader(*read_decimal),
        ensures
            match decoded_row(self.schema()@, fields_view(*record), *read_decimal) {
                Ok(m) => r matches Ok(row) && row@ == m,
                Err(e) => r matches Err(x) && x@ == e,
            },
    {
        let ghost fields = record@.map_values(|s: String| s@);
        if record.len() < self.schema.len() {
            return Err(
                RustyPipesError::LoaderError(
                    String::from_str("Record has fewer fields than the schema"),
                ),
            );
        }
        let mut row = Row::new();
        let mut i: usize = 0;
        while i < self.schema.len()
            invariant
                i <= self.schema@.len(),
                self.schema@.len() <= record@.len(),
                fields == record@.map_values(|s: String| s@),
                is_reader(*read_decimal),
                decoded_columns(self.schema@, fields, *read_decimal, i as int) == Ok::<
                    Map<Seq<char>, Value>,
                    ErrorView,
                >(row@),
            decreases self.schema@.len() - i,
        {
            let column = &self.schema[i];
            let text = &record[i];
            assert(fields[i as int] == text@);
            let value = match column.data_type {
                DataType::Integer => match parse_integer(text.as_str()) {
                    Some(v) => Some(ColumnValue::Integer(v)),
                    None => None,
                },
                DataType::Decimal => match read_with(read_decimal, text) {
                    Some(b) => Some(ColumnValue::Decimal(b)),
                    None => None,
                },
                DataType::String => Some(ColumnValue::String(text.clone())),
            };
            match value {
                Some(v) => {
                    row.insert(column.column_name.clone(), v);
                },
                None => {
                    proof {
                        lemma_decoded_err_extends(self.schema@, fields, *read_decimal, i + 1);
                    }
                    return Err(
                        RustyPipesError::LoaderError(
                            String::from_str("Unable to read a field of column ").concat(
                                column.column_name.as_str(),
                            ),
                        ),
                    );
                },
            }
            i = i + 1;
        }
        Ok(row)
    }
}

impl FileLoader {
    /// Decodes the records of a source, in order, into a table; the first
    /// record that does not decode gives the error.
    pub fn decode_records<F: Fn(&String) -> Option<u64>>(
        &self,
        records: &Vec<Vec<String>>,
        read_decimal: &F,
    ) -> (r: Result<Dataframe, RustyPipesError>)
        requires
            is_reader(*read_decimal),
        ensures
            table_result(r) == decoded_table(self.schema()@, records@, *read_decimal),
    {
        let mut out: Vec<Row> = Vec::new();
        let mut i: usize = 0;
        assert(records@.take(0) =~= seq![]);
        assert(rows_view(out@) =~= seq![]);
        while i < records.len()
            invariant
                i <= records@.len(),
                is_reader(*read_decimal),
                decoded_table(self.schema()@, records@.take(i as int), *read_decimal) == Ok::<
                    Seq<Map<Seq<char>, Value>>,
                    ErrorView,
                >(rows_view(out@)),
            decreases records@.len() - i,
        {
            assert(records@.take(i + 1).drop_last() =~= records@.take(i as int));
            assert(records@.take(i + 1).last() == records@[i as int]);
            let ghost before = rows_view(out@);
            match self.decode_record(&records[i], read_decimal) {
                Ok(row) => {
                    let ghost rv = row@;
                    out.push(row);
                    assert(rows_view(out@) =~= before.push(rv));
                },
                Err(e) => {
                    proof {
                        lemma_table_err_extends(self.schema()@, records@, *read_decimal, i + 1);
                    }
                    return Err(e);
                },
            }
            i = i + 1;
        }
        assert(records@.take(i as int) =~= records@);
        Ok(out)
    }
}

proof fn lemma_table_err_extends<F: Fn(&String) -> Option<u64>>(
    schema: Seq<ColumnDefinition>,
    records: Seq<Vec<String>>,
    read: F,
    k: int,
)
    requires
        0 <= k <= records.len(),
        decoded_table(schema, records.take(k), read) is Err,
    ensures
        decoded_table(schema, records, read) == decoded_table(schema, records.take(k), read),
    decreases records.len() - k,
{
    if k < records.len() {
        assert(records.take(k + 1).drop_last() =~= records.take(k));
        lemma_table_err_extends(schema, records, read, k + 1);
    } else {
        assert(records.take(k) =~= records);
    }
}

proof fn lemma_decoded_err_extends<F: Fn(&String) -> Option<u64>>(
    schema: Seq<ColumnDefinition>,
    record: Seq<Seq<char>>,
    read: F,
    k: int,
)
    requires
        0 <= k <= schema.len(),
        decoded_columns(schema, record, read, k) is Err,
    ensures
        decoded_columns(schema, record, read, schema.len() as int) == decoded_columns(
            schema,
            record,
            read,
            k,
        ),
    decreases schema.len() - k,
{
    if k < schema.len() {
        lemma_decoded_err_extends(schema, record, read, k + 1);
    }
}

} // verus!
