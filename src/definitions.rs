//! The declared pipeline: sources with their schemas, and named
//! transformation outputs with their operations.
use vstd::prelude::*;

verus! {

/// The declared type of a column.
#[derive(Debug, Clone, Copy, PartialEq, Eq, Structural)]
pub enum DataType {
    Integer,
    Decimal,
    String,
}

/// The schema of one column.
#[derive(Debug, Clone)]
pub struct ColumnDefinition {
    pub column_name: String,
    pub data_type: DataType,
    pub required: bool,
}

/// The format of a data source.
#[derive(Debug, Clone, Copy, PartialEq, Eq, Structural)]
pub enum Format {
    Csv,
}

/// Where the data of a source comes from.
#[derive(Debug, Clone)]
pub enum Source {
    File { path: String, format: Format },
}

/// A data source: its schema, as a list of column definitions, and where it
/// is read from.
#[derive(Debug, Clone)]
pub struct DataSourceDefinition {
    pub schema: Vec<ColumnDefinition>,
    pub source: Source,
}

/// One operation of a transformation.
#[derive(Debug, Clone)]
pub enum Operation {
    /// A predicate `column_name operator literal`, where the operator is one
    /// of `>`, `>=`, `<`, `<=`, `==`, `!=`, `contains` and `!contains`, and
    /// the literal is text or a `:name` parameter. Takes one table.
    Filter { predicate: String },
    /// A clause `left_column_name = right_column_name`. Takes two tables.
    InnerJoin { on: String },
}

/// An operation as a mathematical value.
pub enum OperationView {
    Filter(Seq<char>),
    InnerJoin(Seq<char>),
}

impl View for Operation {
    type V = OperationView;

    open spec fn view(&self) -> OperationView {
        match self {
            Operation::Filter { predicate } => OperationView::Filter(predicate@),
            Operation::InnerJoin { on } => OperationView::InnerJoin(on@),
        }
    }
}

/// A transformation output: the sources it reads, in order, and the
/// operations it runs on them, in order.
#[derive(Debug, Clone)]
pub struct TransformationDefinition {
    pub sources: Vec<String>,
    pub operations: Vec<Operation>,
}

/// A transformation as a mathematical value.
pub struct TransformationView {
    pub sources: Seq<Seq<char>>,
    pub operations: Seq<OperationView>,
}

impl View for TransformationDefinition {
    type V = TransformationView;

    open spec fn view(&self) -> TransformationView {
        TransformationView {
            sources: self.sources@.map_values(|s: String| s@),
            operations: self.operations@.map_values(|o: Operation| o@),
        }
    }
}

/// A whole pipeline: the sources and the transformation outputs, each under
/// its name.
#[derive(Debug, Clone)]
pub struct PipelineDefinition {
    pub sources: Vec<(String, DataSourceDefinition)>,
    pub transformations: Vec<(String, TransformationDefinition)>,
}

} // verus!
