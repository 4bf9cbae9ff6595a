//! The engine: compiles each transformation output, feeds it the tables of
//! the sources it names, folds its operations over them, and reports each
//! output on its own.
use vstd::prelude::*;
use crate::context::Context;
use crate::definitions::{
    Operation, OperationView, PipelineDefinition, TransformationDefinition, TransformationView,
};
use crate::error::{transformation_error, ErrorView, RustyPipesError};
use crate::filter::{compiled_filter, filter_rows, is_reader, table_result, Filter, FilterView};
use crate::inner_join::{join_clause, join_rows, InnerJoin, JoinView};
use crate::table::{assoc, lemma_assoc_absent, lemma_assoc_last, rows_view, Dataframe, Row, Value};

verus! {

/// A table as a mathematical value.
pub type TableView = Seq<Map<Seq<char>, Value>>;

/// A compiled operation.
pub enum Step {
    Filter(Filter),
    InnerJoin(InnerJoin),
}

/// A compiled operation as a mathematical value.
pub enum StepView {
    Filter(FilterView),
    InnerJoin(JoinView),
}

impl View for Step {
    type V = StepView;

    open spec fn view(&self) -> StepView {
        match self {
            Step::Filter(f) => StepView::Filter(f@),
            Step::InnerJoin(j) => StepView::InnerJoin(j@),
        }
    }
}

/// The operation compiled against a context.
pub open spec fn compiled_step<F: Fn(&String) -> Option<u64>>(
    op: OperationView,
    ctx: Map<Seq<char>, Seq<char>>,
    read: F,
) -> Result<StepView, ErrorView> {
    match op {
        OperationView::Filter(p) => match compiled_filter(p, ctx, read) {
            Ok(f) => Ok(StepView::Filter(f)),
            Err(e) => Err(e),
        },
        OperationView::InnerJoin(c) => match join_clause(c) {
            Ok(j) => Ok(StepView::InnerJoin(j)),
            Err(e) => Err(e),
        },
    }
}

/// The operations compiled in order, or the error of the first that does not
/// compile.
pub open spec fn compiled_steps<F: Fn(&String) -> Option<u64>>(
    ops: Seq<OperationView>,
    ctx: Map<Seq<char>, Seq<char>>,
    read: F,
) -> Result<Seq<StepView>, ErrorView>
    decreases ops.len(),
{
    if ops.len() == 0 {
        Ok(seq![])
    } else {
        match compiled_steps(ops.drop_last(), ctx, read) {
            Err(e) => Err(e),
            Ok(steps) => match compiled_step(ops.last(), ctx, read) {
                Err(e) => Err(e),
                Ok(s) => Ok(steps.push(s)),
            },
        }
    }
}

/// How many tables an operation takes.
pub open spec fn arity(s: StepView) -> nat {
    match s {
        StepView::Filter(_) => 1,
        StepView::InnerJoin(_) => 2,
    }
}

pub open spec fn arity_error(s: StepView) -> ErrorView {
    match s {
        StepView::Filter(_) => ErrorView::Transformation("A filter takes exactly one table"@),
        StepView::InnerJoin(_) => ErrorView::Transformation(
            "An inner join takes exactly two tables"@,
        ),
    }
}

/// One operation applied to its input tables.
pub open spec fn applied(s: StepView, inputs: Seq<TableView>) -> Result<Seq<TableView>, ErrorView> {
    if inputs.len() != arity(s) {
        Err(arity_error(s))
    } else {
        match s {
            StepView::Filter(f) => match filter_rows(f, inputs[0]) {
                Ok(t) => Ok(seq![t]),
                Err(e) => Err(e),
            },
            StepView::InnerJoin(j) => Ok(seq![join_rows(inputs[0], inputs[1], j.left, j.right)]),
        }
    }
}

/// The operations applied in order, each to the tables that the one before
/// gave.
pub open spec fn folded(steps: Seq<StepView>, inputs: Seq<TableView>) -> Result<
    Seq<TableView>,
    ErrorView,
>
    decreases steps.len(),
{
    if steps.len() == 0 {
        Ok(inputs)
    } else {
        match folded(steps.drop_last(), inputs) {
            Err(e) => Err(e),
            Ok(tables) => applied(steps.last(), tables),
        }
    }
}

/// The tables of the named sources, in order, or the error of the first
/// source that is unknown or failed to load.
pub open spec fn source_tables(
    names: Seq<Seq<char>>,
    loaded: Map<Seq<char>, Result<TableView, ErrorView>>,
) -> Result<Seq<TableView>, ErrorView>
    decreases names.len(),
{
    if names.len() == 0 {
        Ok(seq![])
    } else {
        match source_tables(names.drop_last(), loaded) {
            Err(e) => Err(e),
            Ok(tables) => {
                let n = names.last();
                if !loaded.contains_key(n) {
                    Err(ErrorView::Transformation("Unknown source "@ + n))
                } else {
                    match loaded[n] {
                        Err(e) => Err(e),
                        Ok(t) => Ok(tables.push(t)),
                    }
                }
            },
        }
    }
}

/// The result of one transformation output: compile its operations, take
/// its source tables, then fold the operations over them. An output with no
/// operations gives no tables.
pub open spec fn transformation_outcome<F: Fn(&String) -> Option<u64>>(
    t: TransformationView,
    loaded: Map<Seq<char>, Result<TableView, ErrorView>>,
    ctx: Map<Seq<char>, Seq<char>>,
    read: F,
) -> Result<Seq<TableView>, ErrorView> {
    match compiled_steps(t.operations, ctx, read) {
        Err(e) => Err(e),
        Ok(steps) => match source_tables(t.sources, loaded) {
            Err(e) => Err(e),
            Ok(inputs) => if steps.len() == 0 {
                Ok(seq![])
            } else {
                folded(steps, inputs)
            },
        },
    }
}

pub open spec fn loaded_entry(e: (String, Result<Dataframe, RustyPipesError>)) -> (
    Seq<char>,
    Result<TableView, ErrorView>,
) {
    (e.0@, table_result(e.1))
}

/// The loaded sources by name; a later entry wins over an earlier one.
pub open spec fn loaded_view(l: Seq<(String, Result<Dataframe, RustyPipesError>)>) -> Map<
    Seq<char>,
    Result<TableView, ErrorView>,
> {
    assoc(l.map_values(|e: (String, Result<Dataframe, RustyPipesError>)| loaded_entry(e)))
}

pub open spec fn tables_view(v: Seq<Dataframe>) -> Seq<TableView> {
    v.map_values(|t: Dataframe| rows_view(t@))
}

pub open spec fn tables_result(r: Result<Vec<Dataframe>, RustyPipesError>) -> Result<
    Seq<TableView>,
    ErrorView,
> {
    match r {
        Ok(v) => Ok(tables_view(v@)),
        Err(e) => Err(e@),
    }
}

/// Compiles one operation against the context.
pub fn compile_step<F: Fn(&String) -> Option<u64>>(
    op: &Operation,
    context: &Context,
    read_decimal: &F,
) -> (r: Result<Step, RustyPipesError>)
    requires
        is_reader(*read_decimal),
    ensures
        match compiled_step(op@, context@, *read_decimal) {
            Ok(v) => r matches Ok(s) && s@ == v,
            Err(e) => r matches Err(x) && x@ == e,
        },
{
    match op {
        Operation::Filter { predicate } => match Filter::new(
            predicate.as_str(),
            context,
            read_decimal,
        ) {
            Ok(f) => Ok(Step::Filter(f)),
            Err(e) => Err(e),
        },
        Operation::InnerJoin { on } => match InnerJoin::new(on.as_str()) {
            Ok(j) => Ok(Step::InnerJoin(j)),
            Err(e) => Err(e),
        },
    }
}

/// Compiles the operations of a transformation in order; the first that
/// does not compile gives the error.
pub fn build_pipeline<F: Fn(&String) -> Option<u64>>(
    definition: &TransformationDefinition,
    context: &Context,
    read_decimal: &F,
) -> (r: Result<Vec<Step>, RustyPipesError>)
    requires
        is_reader(*read_decimal),
    ensures
        match compiled_steps(definition@.operations, context@, *read_decimal) {
            Ok(v) => r matches Ok(s) && s@.map_values(|x: Step| x@) == v,
            Err(e) => r matches Err(x) && x@ == e,
        },
{
    let ghost ops = definition@.operations;
    let mut steps: Vec<Step> = Vec::new();
    let mut i: usize = 0;
    assert(ops.take(0) =~= seq![]);
    assert(steps@.map_values(|x: Step| x@) =~= seq![]);
    while i < definition.operations.len()
        invariant
            i <= ops.len(),
            ops == definition@.operations,
            ops.len() == definition.operations@.len(),
            is_reader(*read_decimal),
            compiled_steps(ops.take(i as int), context@, *read_decimal) == Ok::<
                Seq<StepView>,
                ErrorView,
            >(steps@.map_values(|x: Step| x@)),
        decreases ops.len() - i,
    {
        assert(ops.take(i + 1).drop_last() =~= ops.take(i as int));
        assert(ops.take(i + 1).last() == definition.operations@[i as int]@);
        let ghost before = steps@.map_values(|x: Step| x@);
        match compile_step(&definition.operations[i], context, read_decimal) {
            Ok(s) => {
                steps.push(s);
                assert(steps@.map_values(|x: Step| x@) =~= before.push(s@));
            },
            Err(e) => {
                proof {
                    lemma_compiled_err_extends(ops, context@, *read_decimal, i + 1);
                }
                return Err(e);
            },
        }
        i = i + 1;
    }
    assert(ops.take(i as int) =~= ops);
    Ok(steps)
}

proof fn lemma_compiled_err_extends<F: Fn(&String) -> Option<u64>>(
    ops: Seq<OperationView>,
    ctx: Map<Seq<char>, Seq<char>>,
    read: F,
    k: int,
)
    requires
        0 <= k <= ops.len(),
        compiled_steps(ops.take(k), ctx, read) is Err,
    ensures
        compiled_steps(ops, ctx, read) == compiled_steps(ops.take(k), ctx, read),
    decreases ops.len() - k,
{
    if k < ops.len() {
        assert(ops.take(k + 1).drop_last() =~= ops.take(k));
        lemma_compiled_err_extends(ops, ctx, read, k + 1);
    } else {
        assert(ops.take(k) =~= ops);
    }
}

/// A copy of a table.
pub fn copy_table(t: &Dataframe) -> (r: Dataframe)
    ensures
        rows_view(r@) == rows_view(t@),
{
    let mut out: Vec<Row> = Vec::new();
    let mut i: usize = 0;
    while i < t.len()
        invariant
            i <= t@.len(),
            rows_view(out@) == rows_view(t@.take(i as int)),
        decreases t@.len() - i,
    {
        let ghost before = rows_view(out@);
        out.push(t[i].duplicate());
        assert(rows_view(out@) =~= before.push(t@[i as int]@));
        assert(rows_view(t@.take(i + 1)) =~= rows_view(t@.take(i as int)).push(t@[i as int]@));
        i = i + 1;
    }
    assert(t@.take(i as int) =~= t@);
    out
}

/// The loaded entry for a source name; a later entry wins.
fn lookup_source<'a>(
    loaded: &'a Vec<(String, Result<Dataframe, RustyPipesError>)>,
    name: &String,
) -> (r: Option<&'a Result<Dataframe, RustyPipesError>>)
    ensures
        match r {
            Some(e) => loaded_view(loaded@).contains_key(name@) && loaded_view(loaded@)[name@]
                == table_result(*e),
            None => !loaded_view(loaded@).contains_key(name@),
        },
{
    let ghost s = loaded@.map_values(
        |e: (String, Result<Dataframe, RustyPipesError>)| loaded_entry(e),
    );
    let mut i: usize = loaded.len();
    while i > 0
        invariant
            i <= loaded@.len(),
            s == loaded@.map_values(
                |e: (String, Result<Dataframe, RustyPipesError>)| loaded_entry(e),
            ),
            forall|j: int| i <= j < s.len() ==> (#[trigger] s[j]).0 != name@,
        decreases i,
    {
        i = i - 1;
        if loaded[i].0 == *name {
            proof {
                lemma_assoc_last(s, name@, i as int);
            }
            return Some(&loaded[i].1);
        }
    }
    proof {
        lemma_assoc_absent(s, name@);
    }
    None
}

/// The tables of the named sources, in order; the first source that is
/// unknown or failed to load gives the error.
pub fn source_dataframes(
    names: &Vec<String>,
    loaded: &Vec<(String, Result<Dataframe, RustyPipesError>)>,
) -> (r: Result<Vec<Dataframe>, RustyPipesError>)
    ensures
        tables_result(r) == source_tables(names@.map_values(|s: String| s@), loaded_view(loaded@)),
{
    let ghost ns = names@.map_values(|s: String| s@);
    let ghost lv = loaded_view(loaded@);
    let mut out: Vec<Dataframe> = Vec::new();
    let mut i: usize = 0;
    assert(ns.take(0) =~= seq![]);
    assert(tables_view(out@) =~= seq![]);
    while i < names.len()
        invariant
            i <= names@.len(),
            ns == names@.map_values(|s: String| s@),
            lv == loaded_view(loaded@),
            source_tables(ns.take(i as int), lv) == Ok::<Seq<TableView>, ErrorView>(
                tables_view(out@),
            ),
        decreases names@.len() - i,
    {
        assert(ns.take(i + 1).drop_last() =~= ns.take(i as int));
        assert(ns.take(i + 1).last() == names@[i as int]@);
        let ghost before = tables_view(out@);
        match lookup_source(loaded, &names[i]) {
            None => {
                proof {
                    lemma_sources_err_extends(ns, lv, i + 1);
                }
                return Err(transformation_error("Unknown source ", names[i].as_str()));
            },
            Some(Err(e)) => {
                proof {
                    lemma_sources_err_extends(ns, lv, i + 1);
                }
                return Err(e.duplicate());
            },
            Some(Ok(t)) => {
                out.push(copy_table(t));
                assert(tables_view(out@) =~= before.push(rows_view(t@)));
            },
        }
        i = i + 1;
    }
    assert(ns.take(i as int) =~= ns);
    Ok(out)
}

proof fn lemma_sources_err_extends(
    names: Seq<Seq<char>>,
    loaded: Map<Seq<char>, Result<TableView, ErrorView>>,
    k: int,
)
    requires
        0 <= k <= names.len(),
        source_tables(names.take(k), loaded) is Err,
    ensures
        source_tables(names, loaded) == source_tables(names.take(k), loaded),
    decreases names.len() - k,
{
    if k < names.len() {
        assert(names.take(k + 1).drop_last() =~= names.take(k));
        lemma_sources_err_extends(names, loaded, k + 1);
    } else {
        assert(names.take(k) =~= names);
    }
}

/// One operation applied to its input tables; a wrong number of tables is
/// an error.
pub fn apply_step(step: &Step, inputs: &Vec<Dataframe>) -> (r: Result<
    Vec<Dataframe>,
    RustyPipesError,
>)
    ensures
        tables_result(r) == applied(step@, tables_view(inputs@)),
{
    match step {
        Step::Filter(f) => {
            if inputs.len() != 1 {
                return Err(
                    RustyPipesError::TransformationError(
                        String::from_str("A filter takes exactly one table"),
                    ),
                );
            }
            match f.transform(&inputs[0]) {
                Ok(t) => {
                    let out = vec![t];
                    assert(tables_view(out@) =~= seq![rows_view(out@[0]@)]);
                    Ok(out)
                },
                Err(e) => Err(e),
            }
        },
        Step::InnerJoin(j) => {
            if inputs.len() != 2 {
                return Err(
                    RustyPipesError::TransformationError(
                        String::from_str("An inner join takes exactly two tables"),
                    ),
                );
            }
            let t = j.transform(&inputs[0], &inputs[1]);
            let out = vec![t];
            assert(tables_view(out@) =~= seq![rows_view(out@[0]@)]);
            Ok(out)
        },
    }
}

/// Runs one transformation output against the loaded sources: compiles its
/// operations, takes the tables of its sources, and feeds them through the
/// operations in order.
pub fn run_transformation<F: Fn(&String) -> Option<u64>>(
    definition: &TransformationDefinition,
    loaded: &Vec<(String, Result<Dataframe, RustyPipesError>)>,
    context: &Context,
    read_decimal: &F,
) -> (r: Result<Vec<Dataframe>, RustyPipesError>)
    requires
        is_reader(*read_decimal),
    ensures
        tables_result(r) == transformation_outcome(
            definition@,
            loaded_view(loaded@),
            context@,
            *read_decimal,
        ),
{
    let steps = match build_pipeline(definition, context, read_decimal) {
        Ok(s) => s,
        Err(e) => return Err(e),
    };
    let ghost sv = steps@.map_values(|x: Step| x@);
    let inputs = match source_dataframes(&definition.sources, loaded) {
        Ok(t) => t,
        Err(e) => return Err(e),
    };
    let ghost iv = tables_view(inputs@);
    assert(compiled_steps(definition@.operations, context@, *read_decimal) == Ok::<
        Seq<StepView>,
        ErrorView,
    >(sv));
    assert(source_tables(definition@.sources, loaded_view(loaded@)) == Ok::<
        Seq<TableView>,
        ErrorView,
    >(iv));
    if steps.len() == 0 {
        let none: Vec<Dataframe> = Vec::new();
        assert(tables_view(none@) =~= seq![]);
        return Ok(none);
    }
    let mut current = inputs;
    let mut i: usize = 0;
    assert(sv.take(0) =~= seq![]);
    while i < steps.len()
        invariant
            i <= steps@.len(),
            sv == steps@.map_values(|x: Step| x@),
            compiled_steps(definition@.operations, context@, *read_decimal) == Ok::<
                Seq<StepView>,
                ErrorView,
            >(sv),
            source_tables(definition@.sources, loaded_view(loaded@)) == Ok::<
                Seq<TableView>,
                ErrorView,
            >(iv),
            sv.len() > 0,
            folded(sv.take(i as int), iv) == Ok::<Seq<TableView>, ErrorView>(
                tables_view(current@),
            ),
        decreases steps@.len() - i,
    {
        assert(sv.take(i + 1).drop_last() =~= sv.take(i as int));
        assert(sv.take(i + 1).last() == steps@[i as int]@);
        match apply_step(&steps[i], &current) {
            Ok(next) => {
                current = next;
            },
            Err(e) => {
                proof {
                    assert(folded(sv.take(i + 1), iv) == applied(
                        steps@[i as int]@,
                        tables_view(current@),
                    ));
                    lemma_folded_err_extends(sv, iv, i + 1);
                    assert(folded(sv, iv) == Err::<Seq<TableView>, ErrorView>(e@));
                    assert(sv.len() > 0);
                }
                return Err(e);
            },
        }
        i = i + 1;
    }
    assert(sv.take(i as int) =~= sv);
    Ok(current)
}

proof fn lemma_folded_err_extends(steps: Seq<StepView>, inputs: Seq<TableView>, k: int)
    requires
        0 <= k <= steps.len(),
        folded(steps.take(k), inputs) is Err,
    ensures
        folded(steps, inputs) == folded(steps.take(k), inputs),
    decreases steps.len() - k,
{
    if k < steps.len() {
        assert(steps.take(k + 1).drop_last() =~= steps.take(k));
        lemma_folded_err_extends(steps, inputs, k + 1);
    } else {
        assert(steps.take(k) =~= steps);
    }
}

/// The engine: holds a pipeline definition and runs its outputs.
pub struct Engine {
    pipeline_definition: PipelineDefinition,
}

pub open spec fn output_name(e: (String, TransformationDefinition)) -> Seq<char> {
    e.0@
}

impl Engine {
    /// An engine for the given pipeline definition.
    pub fn from_definition(pipeline_definition: PipelineDefinition) -> (r: Engine)
        ensures
            r.definition() == pipeline_definition,
    {
        Engine { pipeline_definition }
    }

    pub closed spec fn definition(&self) -> PipelineDefinition {
        self.pipeline_definition
    }

    /// The pipeline definition.
    pub fn pipeline_definition(&self) -> (r: &PipelineDefinition)
        ensures
            *r == self.definition(),
    {
        &self.pipeline_definition
    }

    /// Runs every transformation output against the loaded sources, in the
    /// order of the definition. Each output gets its own result, computed
    /// from its own operations and the sources it names alone; an error of
    /// one output is reported as that output's result and touches no other.
    pub fn run<F: Fn(&String) -> Option<u64>>(
        &self,
        loaded: &Vec<(String, Result<Dataframe, RustyPipesError>)>,
        context: &Context,
        read_decimal: &F,
    ) -> (r: Vec<(String, Result<Vec<Dataframe>, RustyPipesError>)>)
        requires
            is_reader(*read_decimal),
        ensures
            r@.len() == self.definition().transformations@.len(),
            forall|i: int|
                0 <= i < r@.len() ==> (#[trigger] r@[i]).0@ == output_name(
                    self.definition().transformations@[i],
                ) && tables_result(r@[i].1) == transformation_outcome(
                    self.definition().transformations@[i].1@,
                    loaded_view(loaded@),
                    context@,
                    *read_decimal,
                ),
    {
        let outputs = &self.pipeline_definition.transformations;
        let mut results: Vec<(String, Result<Vec<Dataframe>, RustyPipesError>)> = Vec::new();
        let mut i: usize = 0;
        while i < outputs.len()
            invariant
                i <= outputs@.len(),
                *outputs == self.definition().transformations,
                is_reader(*read_decimal),
                results@.len() == i,
                forall|k: int|
                    0 <= k < i ==> (#[trigger] results@[k]).0@ == output_name(outputs@[k])
                        && tables_result(results@[k].1) == transformation_outcome(
                        outputs@[k].1@,
                        loaded_view(loaded@),
                        context@,
                        *read_decimal,
                    ),
            decreases outputs@.len() - i,
        {
            let entry = &outputs[i];
            let result = run_transformation(&entry.1, loaded, context, read_decimal);
            results.push((entry.0.clone(), result));
            i = i + 1;
        }
        results
    }
}

proof fn lemma_sources_fail(
    names: Seq<Seq<char>>,
    loaded: Map<Seq<char>, Result<TableView, ErrorView>>,
    k: int,
)
    requires
        0 <= k < names.len(),
        loaded.contains_key(names[k]),
        loaded[names[k]] is Err,
    ensures
        source_tables(names, loaded) is Err,
    decreases names.len(),
{
    if k < names.len() - 1 {
        assert(names.drop_last()[k] == names[k]);
        lemma_sources_fail(names.drop_last(), loaded, k);
    }
}

proof fn lemma_sources_agree(
    names: Seq<Seq<char>>,
    a: Map<Seq<char>, Result<TableView, ErrorView>>,
    b: Map<Seq<char>, Result<TableView, ErrorView>>,
)
    requires
        forall|k: int|
            0 <= k < names.len() ==> (a.contains_key(#[trigger] names[k]) == b.contains_key(
                names[k],
            )) && (a.contains_key(names[k]) ==> a[names[k]] == b[names[k]]),
    ensures
        source_tables(names, a) == source_tables(names, b),
    decreases names.len(),
{
    if names.len() > 0 {
        let init = names.drop_last();
        assert forall|k: int| 0 <= k < init.len() implies (a.contains_key(#[trigger] init[k])
            == b.contains_key(init[k])) && (a.contains_key(init[k]) ==> a[init[k]] == b[init[k]]) by {
            assert(init[k] == names[k]);
        }
        lemma_sources_agree(init, a, b);
        assert(names.last() == names[names.len() - 1]);
    }
}

proof fn lemma_sources_loaded(
    names: Seq<Seq<char>>,
    loaded: Map<Seq<char>, Result<TableView, ErrorView>>,
)
    requires
        forall|k: int|
            0 <= k < names.len() ==> loaded.contains_key(#[trigger] names[k]) && loaded[names[k]] is Ok,
    ensures
        source_tables(names, loaded) is Ok,
    decreases names.len(),
{
    if names.len() > 0 {
        let init = names.drop_last();
        assert forall|k: int| 0 <= k < init.len() implies loaded.contains_key(#[trigger] init[k])
            && loaded[init[k]] is Ok by {
            assert(init[k] == names[k]);
        }
        lemma_sources_loaded(init, loaded);
        assert(names.last() == names[names.len() - 1]);
    }
}

/// Outputs are isolated from one another: an output that reads a source
/// whose load failed reports an error, while an output whose sources all
/// loaded receives their tables, and its result depends on those tables
/// alone, whatever the failed source or any other source holds.
pub proof fn lemma_engine_isolation<F: Fn(&String) -> Option<u64>>(
    failing: TransformationView,
    healthy: TransformationView,
    loaded: Map<Seq<char>, Result<TableView, ErrorView>>,
    other: Map<Seq<char>, Result<TableView, ErrorView>>,
    ctx: Map<Seq<char>, Seq<char>>,
    read: F,
    bad: Seq<char>,
)
    requires
        failing.sources.contains(bad),
        loaded.contains_key(bad),
        loaded[bad] is Err,
        forall|k: int|
            0 <= k < healthy.sources.len() ==> loaded.contains_key(#[trigger] healthy.sources[k])
                && loaded[healthy.sources[k]] is Ok,
        forall|k: int|
            0 <= k < healthy.sources.len() ==> other.contains_key(#[trigger] healthy.sources[k])
                && other[healthy.sources[k]] == loaded[healthy.sources[k]],
    ensures
        transformation_outcome(failing, loaded, ctx, read) is Err,
        source_tables(healthy.sources, loaded) is Ok,
        transformation_outcome(healthy, loaded, ctx, read) == transformation_outcome(
            healthy,
            other,
            ctx,
            read,
        ),
{
    let k = choose|k: int| 0 <= k < failing.sources.len() && failing.sources[k] == bad;
    lemma_sources_fail(failing.sources, loaded, k);
    lemma_sources_loaded(healthy.sources, loaded);
    lemma_sources_agree(healthy.sources, loaded, other);
}

} // verus!
