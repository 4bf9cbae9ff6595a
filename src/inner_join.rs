//! The inner join: pairs each row of a left table with the rows of a right
//! table that share its identifier.
use vstd::prelude::*;
use crate::error::{transformation_error, ErrorView, RustyPipesError};
use crate::table::{rows_view, ColumnValue, Dataframe, Row, Value};
use crate::text::{first_index_of, integer_text, integer_to_text, split_at_first, trim, trimmed};

verus! {

/// The identifier that a value gives: the text of a string, the decimal text
/// of an integer; a decimal gives none.
pub open spec fn identifier(v: Value) -> Option<Seq<char>> {
    match v {
        Value::Integer(i) => Some(integer_text(i as int)),
        Value::Text(s) => Some(s),
        Value::Decimal(_) => None,
    }
}

/// The identifier of a row under column `key`.
pub open spec fn row_identifier(row: Map<Seq<char>, Value>, key: Seq<char>) -> Option<Seq<char>> {
    if row.contains_key(key) {
        identifier(row[key])
    } else {
        None
    }
}

/// Positions, in order, of the rows whose identifier under `key` is `id`.
pub open spec fn matching_indices(rows: Seq<Map<Seq<char>, Value>>, key: Seq<char>, id: Seq<char>) -> Seq<
    usize,
>
    decreases rows.len(),
{
    if rows.len() == 0 {
        seq![]
    } else {
        let rest = matching_indices(rows.drop_last(), key, id);
        if row_identifier(rows.last(), key) == Some(id) {
            rest.push((rows.len() - 1) as usize)
        } else {
            rest
        }
    }
}

/// The rows that one left row adds: its union with each matching
/// right row, in the right rows' order; the right row's values win.
pub open spec fn joined_with(
    lrow: Map<Seq<char>, Value>,
    right: Seq<Map<Seq<char>, Value>>,
    lk: Seq<char>,
    rk: Seq<char>,
) -> Seq<Map<Seq<char>, Value>> {
    match row_identifier(lrow, lk) {
        None => seq![],
        Some(id) => matching_indices(right, rk, id).map_values(
            |p: usize| lrow.union_prefer_right(right[p as int]),
        ),
    }
}

/// The inner join of two tables: left rows in order, each followed by its
/// matches.
pub open spec fn join_rows(
    left: Seq<Map<Seq<char>, Value>>,
    right: Seq<Map<Seq<char>, Value>>,
    lk: Seq<char>,
    rk: Seq<char>,
) -> Seq<Map<Seq<char>, Value>>
    decreases left.len(),
{
    if left.len() == 0 {
        seq![]
    } else {
        join_rows(left.drop_last(), right, lk, rk) + joined_with(left.last(), right, lk, rk)
    }
}

/// The identifier of a value, if it can serve as one.
pub fn extract_identifier(from: &ColumnValue) -> (r: Option<String>)
    ensures
        match identifier(from@) {
            Some(id) => r matches Some(s) && s@ == id,
            None => r is None,
        },
{
    match from {
        ColumnValue::String(s) => Some(s.clone()),
        ColumnValue::Integer(i) => Some(integer_to_text(*i)),
        _ => None,
    }
}

fn row_identifier_of(row: &Row, key: &String) -> (r: Option<String>)
    ensures
        match row_identifier(row@, key@) {
            Some(id) => r matches Some(s) && s@ == id,
            None => r is None,
        },
{
    match row.get(key) {
        Some(v) => extract_identifier(v),
        None => None,
    }
}

proof fn lemma_matching_step(rows: Seq<Map<Seq<char>, Value>>, key: Seq<char>, id: Seq<char>, j: int)
    requires
        0 <= j < rows.len(),
    ensures
        matching_indices(rows.take(j + 1), key, id) == if row_identifier(rows[j], key) == Some(
            id,
        ) {
            matching_indices(rows.take(j), key, id).push(j as usize)
        } else {
            matching_indices(rows.take(j), key, id)
        },
{
    assert(rows.take(j + 1).drop_last() =~= rows.take(j));
}

proof fn lemma_matching_bounds(rows: Seq<Map<Seq<char>, Value>>, key: Seq<char>, id: Seq<char>)
    requires
        rows.len() <= usize::MAX,
    ensures
        forall|t: int|
            0 <= t < matching_indices(rows, key, id).len() ==> {
                let p = #[trigger] matching_indices(rows, key, id)[t] as int;
                0 <= p < rows.len() && row_identifier(rows[p], key) == Some(id)
            },
    decreases rows.len(),
{
    if rows.len() > 0 {
        let init = rows.drop_last();
        lemma_matching_bounds(init, key, id);
        let rest = matching_indices(init, key, id);
        let m = matching_indices(rows, key, id);
        assert forall|t: int| 0 <= t < m.len() implies {
            let p = #[trigger] m[t] as int;
            0 <= p < rows.len() && row_identifier(rows[p], key) == Some(id)
        } by {
            if t < rest.len() {
                assert(m[t] == rest[t]);
                assert(init[rest[t] as int] == rows[rest[t] as int]);
            } else {
                assert(m[t] == (rows.len() - 1) as usize);
            }
        }
    }
}

/// The right rows grouped by identifier: `members[g]` lists, in order, the
/// positions of the rows whose identifier is `ids[g]`.
struct RowIndex {
    ids: Vec<String>,
    members: Vec<Vec<usize>>,
}

impl RowIndex {
    spec fn indexes(&self, rows: Seq<Map<Seq<char>, Value>>, key: Seq<char>) -> bool {
        &&& self.ids@.len() == self.members@.len()
        &&& forall|g: int|
            0 <= g < self.ids@.len() ==> #[trigger] self.members@[g]@ == matching_indices(
                rows,
                key,
                self.ids@[g]@,
            )
        &&& forall|g1: int, g2: int|
            0 <= g1 < g2 < self.ids@.len() ==> #[trigger] self.ids@[g1]@ != #[trigger] self.ids@[g2]@
        &&& forall|id: Seq<char>|
            (forall|g: int| 0 <= g < self.ids@.len() ==> #[trigger] self.ids@[g]@ != id)
                ==> #[trigger] matching_indices(rows, key, id).len() == 0
    }

    fn find(&self, id: &String) -> (r: Option<usize>)
        ensures
            match r {
                Some(g) => g < self.ids@.len() && self.ids@[g as int]@ == id@,
                None => forall|g: int| 0 <= g < self.ids@.len() ==> #[trigger] self.ids@[g]@ != id@,
            },
    {
        let mut g: usize = 0;
        while g < self.ids.len()
            invariant
                g <= self.ids@.len(),
                forall|h: int| 0 <= h < g ==> #[trigger] self.ids@[h]@ != id@,
            decreases self.ids@.len() - g,
        {
            if self.ids[g] == *id {
                return Some(g);
            }
            g = g + 1;
        }
        None
    }
}

/// Groups the rows of `df` by their identifier under `key`; rows without
/// one are left out.
fn group_rows(key: &String, df: &Dataframe) -> (r: RowIndex)
    ensures
        r.indexes(rows_view(df@), key@),
{
    let mut index = RowIndex { ids: Vec::new(), members: Vec::new() };
    let ghost rows = rows_view(df@);
    let mut j: usize = 0;
    assert(rows.take(0) =~= seq![]);
    while j < df.len()
        invariant
            j <= df@.len(),
            rows == rows_view(df@),
            index.indexes(rows.take(j as int), key@),
        decreases df@.len() - j,
    {
        let ghost old_index = index;
        assert(rows[j as int] == df@[j as int]@);
        proof {
            assert forall|id: Seq<char>| true implies #[trigger] matching_indices(
                rows.take(j + 1),
                key@,
                id,
            ) == if row_identifier(rows[j as int], key@) == Some(id) {
                matching_indices(rows.take(j as int), key@, id).push(j)
            } else {
                matching_indices(rows.take(j as int), key@, id)
            } by {
                lemma_matching_step(rows, key@, id, j as int);
            }
        }
        match row_identifier_of(&df[j], key) {
            None => {},
            Some(id) => match index.find(&id) {
                Some(g) => {
                    let mut m = index.members[g].clone();
                    m.push(j);
                    index.members.set(g, m);
                    assert forall|h: int| 0 <= h < index.ids@.len() implies #[trigger] index.members@[h]@
                        == matching_indices(rows.take(j + 1), key@, index.ids@[h]@) by {
                        if h != g {
                            assert(index.ids@[h]@ != index.ids@[g as int]@);
                        }
                    }
                },
                None => {
                    let ghost idv = id@;
                    index.ids.push(id);
                    index.members.push(vec![j]);
                    assert(matching_indices(rows.take(j as int), key@, idv) =~= seq![]);
                    assert(index.members@[index.ids@.len() - 1]@ =~= seq![j]);
                    assert forall|h: int| 0 <= h < index.ids@.len() implies #[trigger] index.members@[h]@
                        == matching_indices(rows.take(j + 1), key@, index.ids@[h]@) by {
                        if h < index.ids@.len() - 1 {
                            assert(old_index.ids@[h]@ != idv);
                            assert(index.members@[h] == old_index.members@[h]);
                        }
                    }
                    assert forall|id2: Seq<char>|
                        (forall|g: int| 0 <= g < index.ids@.len() ==> #[trigger] index.ids@[g]@ != id2)
                            implies #[trigger] matching_indices(rows.take(j + 1), key@, id2).len() == 0 by {
                        assert(index.ids@[index.ids@.len() - 1]@ == idv);
                        assert forall|g: int| 0 <= g < old_index.ids@.len() implies #[trigger] old_index.ids@[g]@ != id2 by {
                            assert(index.ids@[g] == old_index.ids@[g]);
                        }
                    }
                },
            },
        }
        j = j + 1;
    }
    assert(rows.take(j as int) =~= rows);
    index
}

/// A compiled join as a mathematical value.
pub struct JoinView {
    pub left: Seq<char>,
    pub right: Seq<char>,
}

/// The columns named by a clause `left = right`, split at its first `=`,
/// each side trimmed of whitespace.
pub open spec fn join_clause(s: Seq<char>) -> Result<JoinView, ErrorView> {
    match first_index_of(s, '=') {
        Some(i) => Ok(
            JoinView { left: trimmed(s.take(i as int)), right: trimmed(s.skip(i + 1 as int)) },
        ),
        None => Err(ErrorView::Transformation("Unable to parse join clause "@ + s)),
    }
}

/// Joins two tables on an identifier column of each.
pub struct InnerJoin {
    left_key: String,
    right_key: String,
}

impl View for InnerJoin {
    type V = JoinView;

    closed spec fn view(&self) -> JoinView {
        JoinView { left: self.left_key@, right: self.right_key@ }
    }
}

impl InnerJoin {
    /// Compiles a clause `left_column = right_column`.
    pub fn new(join_on: &str) -> (r: Result<InnerJoin, RustyPipesError>)
        ensures
            match join_clause(join_on@) {
                Ok(v) => r matches Ok(j) && j@ == v,
                Err(e) => r matches Err(x) && x@ == e,
            },
    {
        match split_at_first(join_on, '=') {
            Some((l, r)) => Ok(InnerJoin { left_key: trim(l.as_str()), right_key: trim(r.as_str()) }),
            None => Err(transformation_error("Unable to parse join clause ", join_on)),
        }
    }

    /// The inner join of `left` and `right`: for each left row with an
    /// identifier, in order, its union with each right row of the same
    /// identifier, in order, the right row's values winning on shared names.
    pub fn transform(&self, left: &Dataframe, right: &Dataframe) -> (r: Dataframe)
        ensures
            rows_view(r@) == join_rows(rows_view(left@), rows_view(right@), self@.left, self@.right),
    {
        let index = group_rows(&self.right_key, right);
        let ghost lrows = rows_view(left@);
        let ghost rrows = rows_view(right@);
        let mut out: Vec<Row> = Vec::new();
        let mut i: usize = 0;
        assert(lrows.take(0) =~= seq![]);
        assert(rows_view(out@) =~= seq![]);
        while i < left.len()
            invariant
                i <= left@.len(),
                lrows == rows_view(left@),
                rrows == rows_view(right@),
                index.indexes(rrows, self@.right),
                rows_view(out@) == join_rows(lrows.take(i as int), rrows, self@.left, self@.right),
            decreases left@.len() - i,
        {
            let lrow = &left[i];
            assert(lrows[i as int] == lrow@);
            assert(lrows.take(i + 1).drop_last() =~= lrows.take(i as int));
            let ghost before = rows_view(out@);
            let ghost added = joined_with(lrow@, rrows, self@.left, self@.right);
            match row_identifier_of(lrow, &self.left_key) {
                None => {
                    assert(added =~= seq![]);
                },
                Some(id) => match index.find(&id) {
                    None => {
                        assert(matching_indices(rrows, self@.right, id@).len() == 0);
                        assert(added =~= seq![]);
                    },
                    Some(g) => {
                        let members = &index.members[g];
                        assert(members@ == matching_indices(rrows, self@.right, id@));
                        proof {
                            assert(rrows.len() == right.len());
                            lemma_matching_bounds(rrows, self@.right, id@);
                        }
                        let mut t: usize = 0;
                        while t < members.len()
                            invariant
                                t <= members@.len(),
                                members@ == matching_indices(rrows, self@.right, id@),
                                rrows == rows_view(right@),
                                forall|u: int|
                                    0 <= u < members@.len() ==> (#[trigger] members@[u] as int)
                                        < right@.len(),
                                added == members@.map_values(
                                    |p: usize| lrow@.union_prefer_right(rrows[p as int]),
                                ),
                                rows_view(out@) == before + added.take(t as int),
                            decreases members@.len() - t,
                        {
                            let p = members[t];
                            assert(members@[t as int] == p);
                            let merged = lrow.merged(&right[p]);
                            let ghost mid = rows_view(out@);
                            out.push(merged);
                            assert(rows_view(out@) =~= mid.push(merged@));
                            assert(added.take(t + 1) =~= added.take(t as int).push(added[t as int]));
                            t = t + 1;
                        }
                        assert(added.take(t as int) =~= added);
                    },
                },
            }
            assert(rows_view(out@) =~= before + added);
            i = i + 1;
        }
        assert(lrows.take(i as int) =~= lrows);
        out
    }
}

/// The number of right rows whose identifier under `rk` is the identifier
/// of `lrow` under `lk`; zero when `lrow` has none.
pub open spec fn match_count(
    lrow: Map<Seq<char>, Value>,
    right: Seq<Map<Seq<char>, Value>>,
    lk: Seq<char>,
    rk: Seq<char>,
) -> nat {
    match row_identifier(lrow, lk) {
        None => 0,
        Some(id) => right.filter(|r: Map<Seq<char>, Value>| row_identifier(r, rk) == Some(id)).len(),
    }
}

/// The sum of `match_count` over the left rows.
pub open spec fn total_matches(
    left: Seq<Map<Seq<char>, Value>>,
    right: Seq<Map<Seq<char>, Value>>,
    lk: Seq<char>,
    rk: Seq<char>,
) -> nat
    decreases left.len(),
{
    if left.len() == 0 {
        0
    } else {
        total_matches(left.drop_last(), right, lk, rk) + match_count(left.last(), right, lk, rk)
    }
}

proof fn lemma_matching_count(rows: Seq<Map<Seq<char>, Value>>, key: Seq<char>, id: Seq<char>)
    ensures
        matching_indices(rows, key, id).len() == rows.filter(
            |r: Map<Seq<char>, Value>| row_identifier(r, key) == Some(id),
        ).len(),
    decreases rows.len(),
{
    reveal(Seq::filter);
    if rows.len() > 0 {
        lemma_matching_count(rows.drop_last(), key, id);
    }
}

/// The join has one row per pair of a left row and a right row that share an
/// identifier: each left row adds as many rows as there are right rows with
/// its identifier, and none when there are none.
pub proof fn lemma_join_cardinality(
    left: Seq<Map<Seq<char>, Value>>,
    right: Seq<Map<Seq<char>, Value>>,
    lk: Seq<char>,
    rk: Seq<char>,
)
    ensures
        join_rows(left, right, lk, rk).len() == total_matches(left, right, lk, rk),
        forall|i: int|
            0 <= i < left.len() ==> (#[trigger] joined_with(left[i], right, lk, rk)).len()
                == match_count(left[i], right, lk, rk),
    decreases left.len(),
{
    assert forall|i: int| 0 <= i < left.len() implies (#[trigger] joined_with(
        left[i],
        right,
        lk,
        rk,
    )).len() == match_count(left[i], right, lk, rk) by {
        if let Some(id) = row_identifier(left[i], lk) {
            lemma_matching_count(right, rk, id);
        }
    }
    if left.len() > 0 {
        lemma_join_cardinality(left.drop_last(), right, lk, rk);
        assert(joined_with(left[left.len() - 1], right, lk, rk).len() == match_count(
            left[left.len() - 1],
            right,
            lk,
            rk,
        ));
    }
}

/// Every joined row is the union of a left row and a right row that share an
/// identifier, and on a column that both rows hold it has the right row's
/// value.
pub proof fn lemma_join_right_wins(
    left: Seq<Map<Seq<char>, Value>>,
    right: Seq<Map<Seq<char>, Value>>,
    lk: Seq<char>,
    rk: Seq<char>,
    n: int,
)
    requires
        0 <= n < join_rows(left, right, lk, rk).len(),
        right.len() <= usize::MAX,
    ensures
        exists|i: int, p: int|
            0 <= i < left.len() && 0 <= p < right.len() && row_identifier(left[i], lk) is Some
                && row_identifier(left[i], lk) == row_identifier(right[p], rk) && (
            #[trigger] join_rows(left, right, lk, rk)[n]) == (#[trigger] left[i]).union_prefer_right(
                #[trigger] right[p],
            ) && forall|name: Seq<char>|
                right[p].contains_key(name) ==> (#[trigger] join_rows(left, right, lk, rk)[n][name])
                    == right[p][name],
    decreases left.len(),
{
    let init = left.drop_last();
    let head = join_rows(init, right, lk, rk);
    let out = join_rows(left, right, lk, rk);
    if n < head.len() {
        lemma_join_right_wins(init, right, lk, rk, n);
        let (i, p) = choose|i: int, p: int|
            0 <= i < init.len() && 0 <= p < right.len() && row_identifier(init[i], lk) is Some
                && row_identifier(init[i], lk) == row_identifier(right[p], rk) && (
            #[trigger] join_rows(init, right, lk, rk)[n]) == (#[trigger] init[i]).union_prefer_right(
                #[trigger] right[p],
            ) && forall|name: Seq<char>|
                right[p].contains_key(name) ==> (#[trigger] join_rows(init, right, lk, rk)[n][name])
                    == right[p][name];
        assert(out[n] == head[n]);
        assert(init[i] == left[i]);
        assert forall|name: Seq<char>| right[p].contains_key(name) implies (#[trigger] join_rows(
            left,
            right,
            lk,
            rk,
        )[n][name]) == right[p][name] by {
            assert(join_rows(init, right, lk, rk)[n][name] == right[p][name]);
        }
    } else {
        let l = left.last();
        let id = row_identifier(l, lk)->0;
        let t = n - head.len();
        lemma_matching_bounds(right, rk, id);
        let p = matching_indices(right, rk, id)[t] as int;
        assert(out[n] == joined_with(l, right, lk, rk)[t]);
        assert(out[n] == l.union_prefer_right(right[p]));
        assert(left[left.len() - 1] == l);
        assert forall|name: Seq<char>| right[p].contains_key(name) implies (#[trigger] join_rows(
            left,
            right,
            lk,
            rk,
        )[n][name]) == right[p][name] by {}
    }
}

/// A decimal never serves as an identifier: a left row whose join column
/// holds a decimal adds no rows, and a right row whose join column holds a
/// decimal is matched by no left row.
pub proof fn lemma_join_skips_decimals(
    left: Seq<Map<Seq<char>, Value>>,
    right: Seq<Map<Seq<char>, Value>>,
    lk: Seq<char>,
    rk: Seq<char>,
)
    requires
        right.len() <= usize::MAX,
    ensures
        forall|i: int|
            0 <= i < left.len() && left[i].contains_key(lk) && left[i][lk] is Decimal
                ==> #[trigger] joined_with(left[i], right, lk, rk) == Seq::<
                Map<Seq<char>, Value>,
            >::empty(),
        forall|id: Seq<char>, t: int|
            0 <= t < matching_indices(right, rk, id).len() ==> !(right[#[trigger] matching_indices(
                right,
                rk,
                id,
            )[t] as int][rk] is Decimal),
{
    assert forall|i: int|
        0 <= i < left.len() && left[i].contains_key(lk) && left[i][lk] is Decimal
            implies #[trigger] joined_with(left[i], right, lk, rk) == Seq::<
            Map<Seq<char>, Value>,
        >::empty() by {
        assert(joined_with(left[i], right, lk, rk) =~= Seq::<Map<Seq<char>, Value>>::empty());
    }
    assert forall|id: Seq<char>, t: int|
        0 <= t < matching_indices(right, rk, id).len() implies !(right[#[trigger] matching_indices(
            right,
            rk,
            id,
        )[t] as int][rk] is Decimal) by {
        lemma_matching_bounds(right, rk, id);
    }
}

} // verus!
