//! The filter operation: keeps the rows of one table on which a predicate
//! `field operator literal` holds.
use vstd::prelude::*;
use crate::context::Context;
use crate::error::{transformation_error, ErrorView, RustyPipesError};
use crate::table::{rows_view, ColumnValue, Dataframe, Row, Value};
use crate::text::{
    chars_of, compare_text, has_substring, integer_reading, parse_integer, split_whitespace,
    text_contains, text_order, tokens,
};

verus! {

/// The comparison of a filter predicate.
#[derive(Debug, Clone, Copy, PartialEq, Eq, Structural)]
pub enum Operator {
    Gt,
    Ge,
    Lt,
    Le,
    Eq,
    Ne,
    Contains,
    NotContains,
}

pub open spec fn operator_of(t: Seq<char>) -> Option<Operator> {
    if t == ">"@ {
        Some(Operator::Gt)
    } else if t == ">="@ {
        Some(Operator::Ge)
    } else if t == "<"@ {
        Some(Operator::Lt)
    } else if t == "<="@ {
        Some(Operator::Le)
    } else if t == "=="@ {
        Some(Operator::Eq)
    } else if t == "!="@ {
        Some(Operator::Ne)
    } else if t == "contains"@ {
        Some(Operator::Contains)
    } else if t == "!contains"@ {
        Some(Operator::NotContains)
    } else {
        None
    }
}

/// Whether two texts are equal.
pub fn same_text(a: &str, b: &str) -> (r: bool)
    ensures
        r == (a@ == b@),
{
    let x = chars_of(a);
    let y = chars_of(b);
    if x.len() != y.len() {
        return false;
    }
    let mut i: usize = 0;
    while i < x.len()
        invariant
            x@ == a@,
            y@ == b@,
            x@.len() == y@.len(),
            i <= x@.len(),
            forall|k: int| 0 <= k < i ==> x@[k] == y@[k],
        decreases x@.len() - i,
    {
        if x[i] != y[i] {
            return false;
        }
        i = i + 1;
    }
    assert(a@ =~= b@);
    true
}

impl Operator {
    /// The operator that `token` names.
    pub fn parse(token: &str) -> (r: Result<Operator, RustyPipesError>)
        ensures
            match operator_of(token@) {
                Some(op) => r == Ok::<Operator, RustyPipesError>(op),
                None => r matches Err(e) && e@ == ErrorView::Transformation(
                    "Unrecognised operation: "@ + token@,
                ),
            },
    {
        if same_text(token, ">") {
            Ok(Operator::Gt)
        } else if same_text(token, ">=") {
            Ok(Operator::Ge)
        } else if same_text(token, "<") {
            Ok(Operator::Lt)
        } else if same_text(token, "<=") {
            Ok(Operator::Le)
        } else if same_text(token, "==") {
            Ok(Operator::Eq)
        } else if same_text(token, "!=") {
            Ok(Operator::Ne)
        } else if same_text(token, "contains") {
            Ok(Operator::Contains)
        } else if same_text(token, "!contains") {
            Ok(Operator::NotContains)
        } else {
            Err(transformation_error("Unrecognised operation: ", token))
        }
    }
}

/// What a literal token stands for: a `:name` token is the parameter `name`
/// of the context, any other token is itself.
pub open spec fn resolved(key: Seq<char>, ctx: Map<Seq<char>, Seq<char>>) -> Result<
    Seq<char>,
    ErrorView,
> {
    if key.len() > 0 && key[0] == ':' {
        if ctx.contains_key(key.drop_first()) {
            Ok(ctx[key.drop_first()])
        } else {
            Err(ErrorView::Transformation("Unable to resolve parameter "@ + key))
        }
    } else {
        Ok(key)
    }
}

/// Resolves a literal token against the context.
pub fn resolve_target(key: &str, context: &Context) -> (r: Result<String, RustyPipesError>)
    ensures
        match resolved(key@, context@) {
            Ok(t) => r matches Ok(s) && s@ == t,
            Err(e) => r matches Err(x) && x@ == e,
        },
{
    let n = key.unicode_len();
    if n > 0 && key.get_char(0) == ':' {
        let name = key.substring_char(1, n);
        assert(name@ =~= key@.drop_first());
        match context.parameter_value(name) {
            Some(v) => Ok(String::from_str(v)),
            None => Err(transformation_error("Unable to resolve parameter ", key)),
        }
    } else {
        Ok(String::from_str(key))
    }
}

/// Whether a value is text that holds `target`.
pub fn contains_text(value: &ColumnValue, target: &str) -> (r: bool)
    ensures
        r == (value@ matches Value::Text(s) && has_substring(s, target@)),
{
    match value {
        ColumnValue::String(v) => text_contains(v.as_str(), target),
        _ => false,
    }
}

/// The error of a predicate that is not three whitespace-separated tokens.
pub fn parse_err(predicate: &str) -> (r: RustyPipesError)
    ensures
        r@ == ErrorView::Transformation("Unable to parse predicate "@ + predicate@),
{
    transformation_error("Unable to parse predicate ", predicate)
}

/// The field, operator and resolved literal of a predicate.
pub open spec fn compiled_predicate(pred: Seq<char>, ctx: Map<Seq<char>, Seq<char>>) -> Result<
    (Seq<char>, Operator, Seq<char>),
    ErrorView,
> {
    let t = tokens(pred);
    if t.len() != 3 {
        Err(ErrorView::Transformation("Unable to parse predicate "@ + pred))
    } else {
        match operator_of(t[1]) {
            None => Err(ErrorView::Transformation("Unrecognised operation: "@ + t[1])),
            Some(op) => match resolved(t[2], ctx) {
                Ok(target) => Ok((t[0], op, target)),
                Err(e) => Err(e),
            },
        }
    }
}

/// `read` is a function from text to an optional decimal bit pattern: it can
/// be called on any text, and equal texts read the same.
pub open spec fn is_reader<F: Fn(&String) -> Option<u64>>(read: F) -> bool {
    &&& forall|s: String| #[trigger] read.requires((&s,))
    &&& forall|s1: String, s2: String, a: Option<u64>, b: Option<u64>|
        s1@ == s2@ && #[trigger] read.ensures((&s1,), a) && #[trigger] read.ensures((&s2,), b)
            ==> a == b
}

/// What `read` gives on `text`.
pub open spec fn reading<F: Fn(&String) -> Option<u64>>(read: F, text: Seq<char>) -> Option<u64> {
    (choose|p: (String, Option<u64>)| p.0@ == text && #[trigger] read.ensures((&p.0,), p.1)).1
}

/// Calls `read`; the result is `reading(read, s@)`.
pub fn read_with<F: Fn(&String) -> Option<u64>>(read: &F, s: &String) -> (r: Option<u64>)
    requires
        is_reader(*read),
    ensures
        r == reading(*read, s@),
{
    let r = read(s);
    proof {
        let w: (String, Option<u64>) = (*s, r);
        assert(w.0@ == s@ && read.ensures((&w.0,), w.1));
        let p = choose|p: (String, Option<u64>)| p.0@ == s@ && #[trigger] read.ensures((&p.0,), p.1);
        assert(read.ensures((&p.0,), p.1));
    }
    r
}

fn is_nan(b: u64) -> (r: bool)
    ensures
        r == decimal_is_nan(b),
{
    (b >> 52u64) & 0x7ffu64 == 0x7ffu64 && (b & 0xf_ffff_ffff_ffffu64) != 0
}

fn decimal_key_of(b: u64) -> (r: i128)
    ensures
        r as int == decimal_key(b),
{
    let m = b & 0x7fff_ffff_ffff_ffffu64;
    if (b >> 63u64) == 1 {
        -(m as i128)
    } else {
        m as i128
    }
}

proof fn lemma_filter_rows_err_extends(f: FilterView, rows: Seq<Map<Seq<char>, Value>>, k: int)
    requires
        0 <= k <= rows.len(),
        filter_rows(f, rows.take(k)) is Err,
    ensures
        filter_rows(f, rows) == filter_rows(f, rows.take(k)),
    decreases rows.len() - k,
{
    if k < rows.len() {
        assert(rows.take(k + 1).drop_last() =~= rows.take(k));
        lemma_filter_rows_err_extends(f, rows, k + 1);
    } else {
        assert(rows.take(k) =~= rows);
    }
}

/// A compiled filter as a mathematical value.
pub struct FilterView {
    pub field: Seq<char>,
    pub op: Operator,
    pub target: Seq<char>,
    pub integer: Option<i64>,
    pub decimal: Option<u64>,
}

/// The IEEE-754 binary64 pattern `b` is a NaN.
pub open spec fn decimal_is_nan(b: u64) -> bool {
    (b >> 52u64) & 0x7ffu64 == 0x7ffu64 && (b & 0xf_ffff_ffff_ffffu64) != 0
}

/// A key whose integer order is the numeric order of non-NaN binary64
/// patterns (both zeros get key 0).
pub open spec fn decimal_key(b: u64) -> int {
    let m = (b & 0x7fff_ffff_ffff_ffffu64) as int;
    if (b >> 63u64) == 1 {
        -m
    } else {
        m
    }
}

pub open spec fn sign_of(a: int, b: int) -> int {
    if a < b {
        -1
    } else if a > b {
        1
    } else {
        0
    }
}

/// An order comparison given the sign of `value - literal`.
pub open spec fn order_holds(op: Operator, c: int) -> bool {
    match op {
        Operator::Gt => c > 0,
        Operator::Ge => c >= 0,
        Operator::Lt => c < 0,
        Operator::Le => c <= 0,
        Operator::Eq => c == 0,
        Operator::Ne => c != 0,
        _ => false,
    }
}

/// The predicate on a present value; `None` when the literal cannot be read
/// as a number of the value's type.
pub open spec fn outcome(f: FilterView, v: Value) -> Option<bool> {
    match f.op {
        Operator::Contains => Some(v matches Value::Text(s) && has_substring(s, f.target)),
        Operator::NotContains => Some(v matches Value::Text(s) && !has_substring(s, f.target)),
        _ => match v {
            Value::Integer(i) => match f.integer {
                Some(t) => Some(order_holds(f.op, sign_of(i as int, t as int))),
                None => None,
            },
            Value::Decimal(b) => match f.decimal {
                Some(t) => Some(
                    if decimal_is_nan(b) || decimal_is_nan(t) {
                        f.op == Operator::Ne
                    } else {
                        order_holds(f.op, sign_of(decimal_key(b), decimal_key(t)))
                    },
                ),
                None => None,
            },
            Value::Text(s) => Some(order_holds(f.op, text_order(s, f.target))),
        },
    }
}

/// The row is kept: it lacks the field, or the predicate holds on it.
pub open spec fn keeps(f: FilterView, row: Map<Seq<char>, Value>) -> bool {
    !row.contains_key(f.field) || outcome(f, row[f.field]) == Some(true)
}

/// The row has the field, and the literal cannot be read as its type.
pub open spec fn fails_on(f: FilterView, row: Map<Seq<char>, Value>) -> bool {
    row.contains_key(f.field) && outcome(f, row[f.field]) is None
}

pub open spec fn read_error(f: FilterView, v: Value) -> ErrorView {
    match v {
        Value::Integer(_) => ErrorView::Transformation("Unable to read as an integer: "@ + f.target),
        _ => ErrorView::Transformation("Unable to read as a decimal: "@ + f.target),
    }
}

/// The filter over rows: the kept rows in order, or the error of the first
/// row on which the literal cannot be read.
pub open spec fn filter_rows(f: FilterView, rows: Seq<Map<Seq<char>, Value>>) -> Result<
    Seq<Map<Seq<char>, Value>>,
    ErrorView,
>
    decreases rows.len(),
{
    if rows.len() == 0 {
        Ok(seq![])
    } else {
        match filter_rows(f, rows.drop_last()) {
            Err(e) => Err(e),
            Ok(kept) => {
                let r = rows.last();
                if fails_on(f, r) {
                    Err(read_error(f, r[f.field]))
                } else if keeps(f, r) {
                    Ok(kept.push(r))
                } else {
                    Ok(kept)
                }
            },
        }
    }
}

pub open spec fn table_result(r: Result<Dataframe, RustyPipesError>) -> Result<
    Seq<Map<Seq<char>, Value>>,
    ErrorView,
> {
    match r {
        Ok(t) => Ok(rows_view(t@)),
        Err(e) => Err(e@),
    }
}

/// Keeps the rows of a table on which a predicate holds.
pub struct Filter {
    field_name: String,
    operator: Operator,
    target: String,
    integer_target: Option<i64>,
    decimal_target: Option<u64>,
}

impl View for Filter {
    type V = FilterView;

    closed spec fn view(&self) -> FilterView {
        FilterView {
            field: self.field_name@,
            op: self.operator,
            target: self.target@,
            integer: self.integer_target,
            decimal: self.decimal_target,
        }
    }
}

/// The filter compiled from a predicate, when it compiles.
pub open spec fn compiled_filter<F: Fn(&String) -> Option<u64>>(
    pred: Seq<char>,
    ctx: Map<Seq<char>, Seq<char>>,
    read: F,
) -> Result<FilterView, ErrorView> {
    match compiled_predicate(pred, ctx) {
        Ok(p) => Ok(
            FilterView {
                field: p.0,
                op: p.1,
                target: p.2,
                integer: integer_reading(p.2),
                decimal: reading(read, p.2),
            },
        ),
        Err(e) => Err(e),
    }
}

impl Filter {
    /// Compiles a predicate `field operator literal`: exactly three
    /// whitespace-separated tokens, a known operator, and a literal that is
    /// either text or a `:name` parameter of the context. `read_decimal`
    /// gives the decimal reading of the literal.
    pub fn new<F: Fn(&String) -> Option<u64>>(
        predicate: &str,
        context: &Context,
        read_decimal: &F,
    ) -> (r: Result<Filter, RustyPipesError>)
        requires
            is_reader(*read_decimal),
        ensures
            match compiled_filter(predicate@, context@, *read_decimal) {
                Ok(v) => r matches Ok(f) && f@ == v,
                Err(e) => r matches Err(x) && x@ == e,
            },
    {
        let toks = split_whitespace(predicate);
        assert(toks@.map_values(|t: String| t@).len() == toks@.len());
        if toks.len() != 3 {
            return Err(parse_err(predicate));
        }
        assert(toks@.map_values(|t: String| t@)[1] == toks@[1]@);
        assert(toks@.map_values(|t: String| t@)[0] == toks@[0]@);
        assert(toks@.map_values(|t: String| t@)[2] == toks@[2]@);
        let operator = match Operator::parse(toks[1].as_str()) {
            Ok(op) => op,
            Err(e) => return Err(e),
        };
        let target = match resolve_target(toks[2].as_str(), context) {
            Ok(t) => t,
            Err(e) => return Err(e),
        };
        let integer_target = parse_integer(target.as_str());
        let decimal_target = read_with(read_decimal, &target);
        Ok(Filter { field_name: toks[0].clone(), operator, target, integer_target, decimal_target })
    }

    /// The predicate on a present value.
    fn evaluate(&self, v: &ColumnValue) -> (r: Option<bool>)
        ensures
            r == outcome(self@, v@),
    {
        match self.operator {
            Operator::Contains => Some(contains_text(v, self.target.as_str())),
            Operator::NotContains => Some(
                match v {
                    ColumnValue::String(_) => !contains_text(v, self.target.as_str()),
                    _ => false,
                },
            ),
            _ => match v {
                ColumnValue::Integer(i) => match self.integer_target {
                    Some(t) => {
                        let c: i8 = if *i < t {
                            -1
                        } else if *i > t {
                            1
                        } else {
                            0
                        };
                        Some(self.holds(c))
                    },
                    None => None,
                },
                ColumnValue::Decimal(b) => match self.decimal_target {
                    Some(t) => {
                        if is_nan(*b) || is_nan(t) {
                            Some(self.operator == Operator::Ne)
                        } else {
                            let kb = decimal_key_of(*b);
                            let kt = decimal_key_of(t);
                            let c: i8 = if kb < kt {
                                -1
                            } else if kb > kt {
                                1
                            } else {
                                0
                            };
                            Some(self.holds(c))
                        }
                    },
                    None => None,
                },
                ColumnValue::String(s) => {
                    let c = compare_text(s.as_str(), self.target.as_str());
                    Some(self.holds(c))
                },
            },
        }
    }

    fn holds(&self, c: i8) -> (r: bool)
        ensures
            r == order_holds(self.operator, c as int),
    {
        match self.operator {
            Operator::Gt => c > 0,
            Operator::Ge => c >= 0,
            Operator::Lt => c < 0,
            Operator::Le => c <= 0,
            Operator::Eq => c == 0,
            Operator::Ne => c != 0,
            _ => false,
        }
    }

    /// Keeps, in order, the rows that lack the field or on which the
    /// predicate holds.
    pub fn transform(&self, df: &Dataframe) -> (r: Result<Dataframe, RustyPipesError>)
        ensures
            table_result(r) == filter_rows(self@, rows_view(df@)),
    {
        let mut out: Vec<Row> = Vec::new();
        let mut i: usize = 0;
        assert(rows_view(df@.take(0)) =~= seq![]);
        assert(rows_view(out@) =~= seq![]);
        while i < df.len()
            invariant
                i <= df@.len(),
                filter_rows(self@, rows_view(df@.take(i as int))) == Ok::<
                    Seq<Map<Seq<char>, Value>>,
                    ErrorView,
                >(rows_view(out@)),
            decreases df@.len() - i,
        {
            let row = &df[i];
            let ghost prefix = rows_view(df@.take(i as int));
            let ghost before = rows_view(out@);
            proof {
                assert(rows_view(df@.take(i + 1)).drop_last() =~= prefix);
                assert(rows_view(df@.take(i + 1)).last() == row@);
            }
            match row.get(&self.field_name) {
                None => {
                    out.push(row.duplicate());
                    assert(rows_view(out@) =~= before.push(row@));
                },
                Some(v) => match self.evaluate(v) {
                    None => {
                        let e = match v {
                            ColumnValue::Integer(_) => transformation_error(
                                "Unable to read as an integer: ",
                                self.target.as_str(),
                            ),
                            _ => transformation_error(
                                "Unable to read as a decimal: ",
                                self.target.as_str(),
                            ),
                        };
                        proof {
                            assert(rows_view(df@).take(i + 1) =~= rows_view(df@.take(i + 1)));
                            lemma_filter_rows_err_extends(self@, rows_view(df@), i + 1);
                        }
                        return Err(e);
                    },
                    Some(true) => {
                        out.push(row.duplicate());
                        assert(rows_view(out@) =~= before.push(row@));
                    },
                    Some(false) => {},
                },
            }
            i = i + 1;
        }
        assert(df@.take(i as int) =~= df@);
        Ok(out)
    }
}

/// The rows of `rows` that `f` keeps, in order.
pub open spec fn kept_rows(f: FilterView, rows: Seq<Map<Seq<char>, Value>>) -> Seq<
    Map<Seq<char>, Value>,
> {
    rows.filter(|r: Map<Seq<char>, Value>| keeps(f, r))
}

/// A filter succeeds exactly when no row holds the field with a value of a
/// type that the literal cannot be read as; it then returns, in their order
/// and with their multiplicity, exactly the rows that lack the field or on
/// which the predicate holds.
pub proof fn lemma_filter_law(f: FilterView, rows: Seq<Map<Seq<char>, Value>>)
    ensures
        (filter_rows(f, rows) is Ok) <==> (forall|i: int|
            0 <= i < rows.len() ==> !fails_on(f, #[trigger] rows[i])),
        filter_rows(f, rows) is Ok ==> filter_rows(f, rows) == Ok::<
            Seq<Map<Seq<char>, Value>>,
            ErrorView,
        >(kept_rows(f, rows)),
    decreases rows.len(),
{
    reveal(Seq::filter);
    if rows.len() == 0 {
        assert(kept_rows(f, rows) =~= seq![]);
    } else {
        let init = rows.drop_last();
        lemma_filter_law(f, init);
        assert forall|i: int| 0 <= i < init.len() implies init[i] == rows[i] by {}
        if filter_rows(f, init) is Ok {
            assert(kept_rows(f, rows) == if keeps(f, rows.last()) {
                kept_rows(f, init).push(rows.last())
            } else {
                kept_rows(f, init)
            });
            if !fails_on(f, rows.last()) {
                assert(filter_rows(f, rows) == Ok::<Seq<Map<Seq<char>, Value>>, ErrorView>(
                    kept_rows(f, rows),
                ));
            }
        } else {
            let j = choose|j: int| 0 <= j < init.len() && fails_on(f, #[trigger] init[j]);
            assert(fails_on(f, rows[j]));
        }
        if forall|i: int| 0 <= i < rows.len() ==> !fails_on(f, #[trigger] rows[i]) {
            assert(!fails_on(f, rows[rows.len() - 1]));
        }
    }
}

/// Filtering by `field != literal` and by `field == literal` splits the rows
/// that hold the field: each of them is kept by exactly one of the two
/// filters, while every row without the field is kept by both.
pub proof fn lemma_ne_eq_partition(
    ne: FilterView,
    eq: FilterView,
    rows: Seq<Map<Seq<char>, Value>>,
)
    requires
        ne.op == Operator::Ne,
        eq.op == Operator::Eq,
        ne.field == eq.field,
        ne.target == eq.target,
        ne.integer == eq.integer,
        ne.decimal == eq.decimal,
        filter_rows(ne, rows) is Ok,
    ensures
        filter_rows(ne, rows) == Ok::<Seq<Map<Seq<char>, Value>>, ErrorView>(kept_rows(ne, rows)),
        filter_rows(eq, rows) == Ok::<Seq<Map<Seq<char>, Value>>, ErrorView>(kept_rows(eq, rows)),
        forall|i: int|
            0 <= i < rows.len() && (#[trigger] rows[i]).contains_key(ne.field) ==> (keeps(
                ne,
                rows[i],
            ) != keeps(eq, rows[i])),
        forall|i: int|
            0 <= i < rows.len() && !(#[trigger] rows[i]).contains_key(ne.field) ==> keeps(
                ne,
                rows[i],
            ) && keeps(eq, rows[i]),
{
    lemma_filter_law(ne, rows);
    lemma_filter_law(eq, rows);
    assert forall|i: int| 0 <= i < rows.len() implies !fails_on(eq, #[trigger] rows[i]) by {
        assert(!fails_on(ne, rows[i]));
    }
}

} // verus!
