//! The table of named values that statements read and assign.

use crate::value::{Value, E_BITS, PI_BITS};
use vstd::prelude::*;

verus! {

/// The bindings that every environment starts with: `pi` and the Greek
/// letter of the same name for pi, `e` for Euler's number.
pub open spec fn defaults() -> Map<Seq<char>, Value> {
    Map::<Seq<char>, Value>::empty().insert("pi"@, Value { bits: PI_BITS }).insert(
        "\u{3c0}"@,
        Value { bits: PI_BITS },
    ).insert("e"@, Value { bits: E_BITS })
}

struct Entry {
    name: String,
    value: Value,
}

/// A mapping from names to values. A name is bound at most once; binding it
/// again replaces its value. Nothing is ever removed.
pub struct Environment {
    entries: Vec<Entry>,
}

impl View for Environment {
    type V = Map<Seq<char>, Value>;

    closed spec fn view(&self) -> Map<Seq<char>, Value> {
        Map::new(|k: Seq<char>| self.binds(k), |k: Seq<char>| self.entries[self.slot(k)].value)
    }
}

impl Environment {
    spec fn binds(&self, k: Seq<char>) -> bool {
        exists|i: int| 0 <= i < self.entries.len() && #[trigger] self.entries[i].name@ == k
    }

    spec fn slot(&self, k: Seq<char>) -> int {
        choose|i: int| 0 <= i < self.entries.len() && #[trigger] self.entries[i].name@ == k
    }

    #[verifier::type_invariant]
    spec fn well_formed(self) -> bool {
        forall|i: int, j: int|
            0 <= i < self.entries.len() && 0 <= j < self.entries.len() && #[trigger] self.entries[i].name@
                == #[trigger] self.entries[j].name@ ==> i == j
    }

    /// The environment that holds the predefined constants and nothing else.
    pub fn new_with_defaults() -> (env: Environment)
        ensures
            env@ == defaults(),
    {
        let mut env = Environment { entries: Vec::new() };
        assert(env@ =~= Map::<Seq<char>, Value>::empty());
        env.insert(String::from_str("pi"), Value { bits: PI_BITS });
        env.insert(String::from_str("\u{3c0}"), Value { bits: PI_BITS });
        env.insert(String::from_str("e"), Value { bits: E_BITS });
        env
    }

    /// Where `name` is bound, if it is.
    fn find(&self, name: &String) -> (r: Option<usize>)
        ensures
            match r {
                Some(i) => i < self.entries.len() && self.entries[i as int].name@ == name@,
                None => !self.binds(name@),
            },
    {
        let mut i: usize = 0;
        while i < self.entries.len()
            invariant
                i <= self.entries.len(),
                forall|j: int| 0 <= j < i ==> #[trigger] self.entries[j].name@ != name@,
            decreases self.entries.len() - i,
        {
            if self.entries[i].name == *name {
                return Some(i);
            }
            i = i + 1;
        }
        None
    }

    /// The value bound to `name`, if there is one.
    pub fn get(&self, name: &String) -> (r: Option<Value>)
        ensures
            r == (if self@.contains_key(name@) {
                Some(self@[name@])
            } else {
                None
            }),
    {
        proof {
            use_type_invariant(self);
        }
        match self.find(name) {
            Some(i) => Some(self.entries[i].value),
            None => None,
        }
    }

    /// Binds `name` to `value`, in place of any value it was bound to.
    pub fn insert(&mut self, name: String, value: Value)
        ensures
            final(self)@ == old(self)@.insert(name@, value),
    {
        proof {
            use_type_invariant(&*self);
        }
        let ghost before = *self;
        let ghost key = name@;
        let found = self.find(&name);
        let mut entries: Vec<Entry> = Vec::new();
        core::mem::swap(&mut self.entries, &mut entries);
        match found {
            Some(i) => {
                entries.set(i, Entry { name, value });
            },
            None => {
                entries.push(Entry { name, value });
            },
        }
        core::mem::swap(&mut self.entries, &mut entries);
        let ghost at = match found {
            Some(i) => i as int,
            None => before.entries.len() as int,
        };
        assert(self.entries[at].name@ == key);
        assert forall|k: Seq<char>| before.binds(k) implies self.binds(k) by {
            let j = before.slot(k);
            assert(self.entries[j].name@ == k);
        }
        assert forall|k: Seq<char>| self.binds(k) && k != key implies before.binds(k) by {
            let j = self.slot(k);
            assert(before.entries[j].name@ == k);
        }
        assert(self.binds(key));
        assert(self@ =~= before@.insert(key, value));
    }
}

} // verus!
