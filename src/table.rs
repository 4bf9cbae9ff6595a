//! Cell values, rows and tables.
use vstd::prelude::*;

verus! {

/// A cell. A decimal is held as the bit pattern of an IEEE-754 binary64
/// number (what `f64::to_bits` gives).
#[derive(Debug, Clone, PartialEq)]
pub enum ColumnValue {
    Integer(i64),
    Decimal(u64),
    String(String),
}

/// What a cell holds, as a mathematical value.
pub enum Value {
    Integer(i64),
    Decimal(u64),
    Text(Seq<char>),
}

impl View for ColumnValue {
    type V = Value;

    open spec fn view(&self) -> Value {
        match self {
            ColumnValue::Integer(i) => Value::Integer(*i),
            ColumnValue::Decimal(b) => Value::Decimal(*b),
            ColumnValue::String(s) => Value::Text(s@),
        }
    }
}

impl ColumnValue {
    /// A copy of this value.
    pub fn duplicate(&self) -> (r: ColumnValue)
        ensures
            r@ == self@,
    {
        match self {
            ColumnValue::Integer(i) => ColumnValue::Integer(*i),
            ColumnValue::Decimal(b) => ColumnValue::Decimal(*b),
            ColumnValue::String(s) => ColumnValue::String(s.clone()),
        }
    }
}

/// The map that a list of (name, value) pairs describes; a later pair wins
/// over an earlier one with the same name.
pub open spec fn assoc<V>(s: Seq<(Seq<char>, V)>) -> Map<Seq<char>, V>
    decreases s.len(),
{
    if s.len() == 0 {
        Map::empty()
    } else {
        assoc(s.drop_last()).insert(s.last().0, s.last().1)
    }
}

pub proof fn lemma_assoc_push<V>(s: Seq<(Seq<char>, V)>, p: (Seq<char>, V))
    ensures
        assoc(s.push(p)) == assoc(s).insert(p.0, p.1),
{
    assert(s.push(p).drop_last() =~= s);
}

/// A name that no pair carries is not in the map.
pub proof fn lemma_assoc_absent<V>(s: Seq<(Seq<char>, V)>, k: Seq<char>)
    requires
        forall|j: int| 0 <= j < s.len() ==> (#[trigger] s[j]).0 != k,
    ensures
        !assoc(s).contains_key(k),
    decreases s.len(),
{
    if s.len() > 0 {
        assert forall|j: int| 0 <= j < s.drop_last().len() implies (
        #[trigger] s.drop_last()[j]).0 != k by {
            assert(s.drop_last()[j] == s[j]);
        }
        lemma_assoc_absent(s.drop_last(), k);
    }
}

/// The last pair with a name gives its value.
pub proof fn lemma_assoc_last<V>(s: Seq<(Seq<char>, V)>, k: Seq<char>, i: int)
    requires
        0 <= i < s.len(),
        s[i].0 == k,
        forall|j: int| i < j < s.len() ==> (#[trigger] s[j]).0 != k,
    ensures
        assoc(s).contains_key(k),
        assoc(s)[k] == s[i].1,
    decreases s.len(),
{
    if i < s.len() - 1 {
        assert forall|j: int| i < j < s.drop_last().len() implies (
        #[trigger] s.drop_last()[j]).0 != k by {
            assert(s.drop_last()[j] == s[j]);
        }
        assert(s.drop_last()[i] == s[i]);
        lemma_assoc_last(s.drop_last(), k, i);
    }
}

/// Replacing the value of the last pair with a name is an insert.
pub proof fn lemma_assoc_update<V>(s: Seq<(Seq<char>, V)>, k: Seq<char>, i: int, v: V)
    requires
        0 <= i < s.len(),
        s[i].0 == k,
        forall|j: int| i < j < s.len() ==> (#[trigger] s[j]).0 != k,
    ensures
        assoc(s.update(i, (k, v))) == assoc(s).insert(k, v),
    decreases s.len(),
{
    let t = s.update(i, (k, v));
    if i == s.len() - 1 {
        assert(t.drop_last() =~= s.drop_last());
        assert(assoc(t) =~= assoc(s).insert(k, v));
    } else {
        assert forall|j: int| i < j < s.drop_last().len() implies (
        #[trigger] s.drop_last()[j]).0 != k by {
            assert(s.drop_last()[j] == s[j]);
        }
        lemma_assoc_update(s.drop_last(), k, i, v);
        assert(t.drop_last() =~= s.drop_last().update(i, (k, v)));
        assert(t.last() == s.last());
        assert(assoc(t) =~= assoc(s).insert(k, v));
    }
}

/// The map of two lists one after the other.
pub proof fn lemma_assoc_append<V>(a: Seq<(Seq<char>, V)>, b: Seq<(Seq<char>, V)>)
    ensures
        assoc(a + b) == assoc(a).union_prefer_right(assoc(b)),
    decreases b.len(),
{
    if b.len() == 0 {
        assert(a + b =~= a);
        assert(assoc(a).union_prefer_right(assoc(b)) =~= assoc(a));
    } else {
        lemma_assoc_append(a, b.drop_last());
        assert((a + b).drop_last() =~= a + b.drop_last());
        assert((a + b).last() == b.last());
        assert(assoc(a + b) =~= assoc(a).union_prefer_right(assoc(b)));
    }
}

pub open spec fn pair_view(e: (String, ColumnValue)) -> (Seq<char>, Value) {
    (e.0@, e.1@)
}

/// A row: a mapping from column name to value.
#[derive(Debug, Clone)]
pub struct Row {
    entries: Vec<(String, ColumnValue)>,
}

impl View for Row {
    type V = Map<Seq<char>, Value>;

    closed spec fn view(&self) -> Map<Seq<char>, Value> {
        assoc(self.entries@.map_values(|e: (String, ColumnValue)| pair_view(e)))
    }
}

impl Row {
    /// A row with no columns.
    pub fn new() -> (r: Row)
        ensures
            r@ == Map::<Seq<char>, Value>::empty(),
    {
        let r = Row { entries: Vec::new() };
        assert(r.entries@.map_values(|e: (String, ColumnValue)| pair_view(e)) =~= seq![]);
        r
    }

    /// The row that the pairs describe; a later pair wins over an earlier one
    /// with the same name.
    pub fn from_pairs(pairs: Vec<(String, ColumnValue)>) -> (r: Row)
        ensures
            r@ == assoc(pairs@.map_values(|e: (String, ColumnValue)| pair_view(e))),
    {
        Row { entries: pairs }
    }

    /// The (name, value) pairs of the row; a later pair wins over an earlier
    /// one with the same name.
    pub fn entries(&self) -> (r: &Vec<(String, ColumnValue)>)
        ensures
            assoc(r@.map_values(|e: (String, ColumnValue)| pair_view(e))) == self@,
    {
        &self.entries
    }

    /// The value of the column `name`, if the row has it.
    pub fn get(&self, name: &String) -> (r: Option<&ColumnValue>)
        ensures
            match r {
                Some(v) => self@.contains_key(name@) && self@[name@] == v@,
                None => !self@.contains_key(name@),
            },
    {
        let ghost s = self.entries@.map_values(|e: (String, ColumnValue)| pair_view(e));
        let mut i: usize = self.entries.len();
        while i > 0
            invariant
                i <= self.entries@.len(),
                s == self.entries@.map_values(|e: (String, ColumnValue)| pair_view(e)),
                forall|j: int| i <= j < s.len() ==> (#[trigger] s[j]).0 != name@,
            decreases i,
        {
            i = i - 1;
            if self.entries[i].0 == *name {
                proof {
                    lemma_assoc_last(s, name@, i as int);
                }
                return Some(&self.entries[i].1);
            }
        }
        proof {
            lemma_assoc_absent(s, name@);
        }
        None
    }

    /// Sets the column `name` to `value`.
    pub fn insert(&mut self, name: String, value: ColumnValue)
        ensures
            final(self)@ == old(self)@.insert(name@, value@),
    {
        let ghost s = self.entries@.map_values(|e: (String, ColumnValue)| pair_view(e));
        let mut i: usize = self.entries.len();
        while i > 0
            invariant
                i <= self.entries@.len(),
                *self == *old(self),
                s == self.entries@.map_values(|e: (String, ColumnValue)| pair_view(e)),
                forall|j: int| i <= j < s.len() ==> (#[trigger] s[j]).0 != name@,
            decreases i,
        {
            i = i - 1;
            if self.entries[i].0 == name {
                proof {
                    lemma_assoc_update(s, name@, i as int, value@);
                }
                let ghost nv = value@;
                self.entries.set(i, (name, value));
                assert(self.entries@.map_values(|e: (String, ColumnValue)| pair_view(e)) =~= s.update(
                    i as int,
                    (s[i as int].0, nv),
                ));
                return ;
            }
        }
        let ghost p = (name@, value@);
        self.entries.push((name, value));
        proof {
            lemma_assoc_push(s, p);
            assert(self.entries@.map_values(|e: (String, ColumnValue)| pair_view(e)) =~= s.push(p));
        }
    }

    /// A copy of this row.
    pub fn duplicate(&self) -> (r: Row)
        ensures
            r@ == self@,
    {
        let mut out: Vec<(String, ColumnValue)> = Vec::new();
        let mut i: usize = 0;
        while i < self.entries.len()
            invariant
                i <= self.entries@.len(),
                out@.map_values(|e: (String, ColumnValue)| pair_view(e)) == self.entries@.take(
                    i as int,
                ).map_values(|e: (String, ColumnValue)| pair_view(e)),
            decreases self.entries@.len() - i,
        {
            let e = &self.entries[i];
            let n = e.0.clone();
            let v = e.1.duplicate();
            assert(pair_view((n, v)) == pair_view(self.entries@[i as int]));
            let ghost before = out@;
            out.push((n, v));
            assert(self.entries@.take(i + 1) =~= self.entries@.take(i as int).push(self.entries@[i as int]));
            assert(out@ =~= before.push((n, v)));
            assert(out@.map_values(|e: (String, ColumnValue)| pair_view(e)) =~= before.map_values(
                |e: (String, ColumnValue)| pair_view(e),
            ).push(pair_view((n, v))));
            assert(self.entries@.take(i + 1).map_values(|e: (String, ColumnValue)| pair_view(e))
                =~= self.entries@.take(i as int).map_values(|e: (String, ColumnValue)| pair_view(e)).push(
                pair_view(self.entries@[i as int]),
            ));
            i = i + 1;
            assert(out@.map_values(|e: (String, ColumnValue)| pair_view(e)) =~= self.entries@.take(
                i as int,
            ).map_values(|e: (String, ColumnValue)| pair_view(e)));
        }
        assert(self.entries@.take(i as int) =~= self.entries@);
        Row { entries: out }
    }

    /// This row's columns together with `right`'s; on a name that both hold,
    /// `right`'s value wins.
    pub fn merged(&self, right: &Row) -> (r: Row)
        ensures
            r@ == self@.union_prefer_right(right@),
    {
        let mut out = self.duplicate();
        let ghost a = out.entries@.map_values(|e: (String, ColumnValue)| pair_view(e));
        let mut i: usize = 0;
        assert(a + right.entries@.take(0).map_values(|e: (String, ColumnValue)| pair_view(e)) =~= a);
        while i < right.entries.len()
            invariant
                i <= right.entries@.len(),
                out.entries@.len() == a.len() + i,
                assoc(a) == self@,
                out.entries@.map_values(|e: (String, ColumnValue)| pair_view(e)) == a + right.entries@.take(
                    i as int,
                ).map_values(|e: (String, ColumnValue)| pair_view(e)),
            decreases right.entries@.len() - i,
        {
            let e = &right.entries[i];
            let n = e.0.clone();
            let v = e.1.duplicate();
            assert(pair_view((n, v)) == pair_view(right.entries@[i as int]));
            let ghost before = out.entries@;
            out.entries.push((n, v));
            assert(right.entries@.take(i + 1) =~= right.entries@.take(i as int).push(right.entries@[i as int]));
            assert(out.entries@ =~= before.push((n, v)));
            assert(out.entries@.map_values(|e: (String, ColumnValue)| pair_view(e)) =~= before.map_values(
                |e: (String, ColumnValue)| pair_view(e),
            ).push(pair_view((n, v))));
            assert(right.entries@.take(i + 1).map_values(|e: (String, ColumnValue)| pair_view(e))
                =~= right.entries@.take(i as int).map_values(|e: (String, ColumnValue)| pair_view(e)).push(
                pair_view(right.entries@[i as int]),
            ));
            i = i + 1;
            assert(out.entries@.map_values(|e: (String, ColumnValue)| pair_view(e)) =~= a
                + right.entries@.take(i as int).map_values(|e: (String, ColumnValue)| pair_view(e)));
        }
        proof {
            assert(right.entries@.take(i as int) =~= right.entries@);
            lemma_assoc_append(a, right.entries@.map_values(|e: (String, ColumnValue)| pair_view(e)));
        }
        out
    }
}

/// A table: rows in order.
pub type Dataframe = Vec<Row>;

/// The rows of a table as maps.
pub open spec fn rows_view(t: Seq<Row>) -> Seq<Map<Seq<char>, Value>> {
    t.map_values(|r: Row| r@)
}

} // verus!
