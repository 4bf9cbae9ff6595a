//! The parameters that a run supplies to the operations it compiles.
use vstd::prelude::*;
use crate::table::assoc;

verus! {

pub open spec fn text_pair_view(p: (String, String)) -> (Seq<char>, Seq<char>) {
    (p.0@, p.1@)
}

/// A read-only lookup from parameter name to text.
pub struct Context {
    parameters: Vec<(String, String)>,
}

impl View for Context {
    type V = Map<Seq<char>, Seq<char>>;

    closed spec fn view(&self) -> Map<Seq<char>, Seq<char>> {
        assoc(self.parameters@.map_values(|p: (String, String)| text_pair_view(p)))
    }
}

impl Context {
    /// A context holding the given parameters; a later pair wins over an
    /// earlier one with the same name.
    pub fn new(parameters: Vec<(String, String)>) -> (r: Context)
        ensures
            r@ == assoc(parameters@.map_values(|p: (String, String)| text_pair_view(p))),
    {
        Context { parameters }
    }

    /// The value of the parameter `key`, if there is one.
    pub fn parameter_value(&self, key: &str) -> (r: Option<&str>)
        ensures
            match r {
                Some(v) => self@.contains_key(key@) && self@[key@] == v@,
                None => !self@.contains_key(key@),
            },
    {
        let wanted = String::from_str(key);
        let ghost s = self.parameters@.map_values(|p: (String, String)| text_pair_view(p));
        let mut i: usize = self.parameters.len();
        while i > 0
            invariant
                i <= self.parameters@.len(),
                wanted@ == key@,
                s == self.parameters@.map_values(|p: (String, String)| text_pair_view(p)),
                forall|j: int| i <= j < s.len() ==> (#[trigger] s[j]).0 != key@,
            decreases i,
        {
            i = i - 1;
            if self.parameters[i].0 == wanted {
                proof {
                    crate::table::lemma_assoc_last(s, key@, i as int);
                }
                return Some(self.parameters[i].1.as_str());
            }
        }
        proof {
            crate::table::lemma_assoc_absent(s, key@);
        }
        None
    }
}

impl Default for Context {
    fn default() -> (r: Context)
        ensures
            r@ == Map::<Seq<char>, Seq<char>>::empty(),
    {
        let r = Context { parameters: Vec::new() };
        assert(r.parameters@.map_values(|p: (String, String)| text_pair_view(p)) =~= seq![]);
        r
    }
}

} // verus!
