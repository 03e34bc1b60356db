//! The binding table of a run: one flat map from names to values.
use crate::value::{Val, Value};
use vstd::prelude::*;

verus! {

/// The map that a list of bindings stands for; a later entry for a name
/// overrides an earlier one.
pub open spec fn bindings_map(s: Seq<(String, Value)>) -> Map<Seq<char>, Val>
    decreases s.len(),
{
    if s.len() == 0 {
        Map::empty()
    } else {
        bindings_map(s.drop_last()).insert(s.last().0@, s.last().1@)
    }
}

/// No name occurs twice among the bindings.
pub open spec fn names_unique(s: Seq<(String, Value)>) -> bool {
    forall|i: int, j: int| 0 <= i < j < s.len() ==> s[i].0@ != s[j].0@
}

proof fn lemma_bindings_contains(s: Seq<(String, Value)>, k: Seq<char>)
    ensures
        bindings_map(s).contains_key(k) <==> exists|i: int| 0 <= i < s.len() && s[i].0@ == k,
    decreases s.len(),
{
    if s.len() > 0 {
        lemma_bindings_contains(s.drop_last(), k);
        if bindings_map(s.drop_last()).contains_key(k) {
            let i = choose|i: int| 0 <= i < s.len() - 1 && s.drop_last()[i].0@ == k;
            assert(s[i].0@ == k);
        }
        if exists|i: int| 0 <= i < s.len() && s[i].0@ == k {
            let i = choose|i: int| 0 <= i < s.len() && s[i].0@ == k;
            if i < s.len() - 1 {
                assert(s.drop_last()[i].0@ == k);
            }
        }
    }
}

proof fn lemma_bindings_at(s: Seq<(String, Value)>, i: int)
    requires
        names_unique(s),
        0 <= i < s.len(),
    ensures
        bindings_map(s).contains_key(s[i].0@),
        bindings_map(s)[s[i].0@] == s[i].1@,
    decreases s.len(),
{
    if i < s.len() - 1 {
        lemma_bindings_at(s.drop_last(), i);
        assert(s.drop_last()[i] == s[i]);
    }
}

proof fn lemma_bindings_update(s: Seq<(String, Value)>, i: int, n: String, v: Value)
    requires
        names_unique(s),
        0 <= i < s.len(),
        s[i].0@ == n@,
    ensures
        bindings_map(s.update(i, (n, v))) =~= bindings_map(s).insert(n@, v@),
        names_unique(s.update(i, (n, v))),
    decreases s.len(),
{
    let t = s.update(i, (n, v));
    if i == s.len() - 1 {
        assert(t.drop_last() =~= s.drop_last());
        lemma_bindings_contains(s.drop_last(), n@);
        if bindings_map(s.drop_last()).contains_key(n@) {
            let j = choose|j: int| 0 <= j < s.len() - 1 && s.drop_last()[j].0@ == n@;
            assert(s[j].0@ == n@);
        }
    } else {
        lemma_bindings_update(s.drop_last(), i, n, v);
        assert(t.drop_last() =~= s.drop_last().update(i, (n, v)));
        assert(s.last().0@ != n@);
    }
}

/// The bindings of a run, as a list of pairs with distinct names.
pub struct Environment {
    entries: Vec<(String, Value)>,
}

impl View for Environment {
    type V = Map<Seq<char>, Val>;

    closed spec fn view(&self) -> Map<Seq<char>, Val> {
        bindings_map(self.entries@)
    }
}

impl Environment {
    pub closed spec fn wf(&self) -> bool {
        names_unique(self.entries@)
    }

    pub fn new() -> (r: Environment)
        ensures
            r.wf(),
            r@ == Map::<Seq<char>, Val>::empty(),
    {
        Environment { entries: Vec::new() }
    }

    fn find(&self, name: &String) -> (r: Option<usize>)
        requires
            self.wf(),
        ensures
            match r {
                Some(i) => i < self.entries.len() && self.entries@[i as int].0@ == name@,
                None => !self@.contains_key(name@),
            },
    {
        let mut i: usize = 0;
        while i < self.entries.len()
            invariant
                i <= self.entries.len(),
                forall|j: int| 0 <= j < i ==> self.entries@[j].0@ != name@,
            decreases self.entries.len() - i,
        {
            if self.entries[i].0 == *name {
                return Some(i);
            }
            i = i + 1;
        }
        proof {
            lemma_bindings_contains(self.entries@, name@);
        }
        None
    }

    /// The value bound to `name`, if any.
    pub fn get(&self, name: &String) -> (r: Option<Value>)
        requires
            self.wf(),
        ensures
            match r {
                Some(v) => self@.contains_key(name@) && v@ == self@[name@],
                None => !self@.contains_key(name@),
            },
    {
        match self.find(name) {
            Some(i) => {
                proof {
                    lemma_bindings_at(self.entries@, i as int);
                }
                Some(self.entries[i].1.duplicate())
            },
            None => None,
        }
    }

    /// Binds `name` to `value`, replacing any earlier binding of it.
    pub fn define(&mut self, name: String, value: Value)
        requires
            old(self).wf(),
        ensures
            final(self).wf(),
            final(self)@ == old(self)@.insert(name@, value@),
    {
        match self.find(&name) {
            Some(i) => {
                proof {
                    lemma_bindings_update(self.entries@, i as int, name, value);
                }
                self.entries.set(i, (name, value));
            },
            None => {
                proof {
                    lemma_bindings_contains(self.entries@, name@);
                }
                self.entries.push((name, value));
                proof {
                    assert(self.entries@.drop_last() =~= old(self).entries@);
                }
            },
        }
    }
}

} // verus!
