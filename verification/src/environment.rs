//! A table of environment variables held in memory.
//!
//! Loading works on an `Environment`, not on the variables of the running
//! process. A caller that wants those changed takes a snapshot of them, loads
//! into it, and carries out the writes that the load reports.

use vstd::prelude::*;
use vstd::std_specs::cmp::PartialEqSpecImpl;

verus! {

/// Variable names with their values. To contracts it is a map from names to
/// values: its view.
#[derive(Debug)]
pub struct Environment {
    vars: Vec<(String, String)>,
}

/// Whether one of `vars` is named `name`.
spec fn has_name(vars: Seq<(String, String)>, name: Seq<char>) -> bool {
    exists|i: int| 0 <= i < vars.len() && (#[trigger] vars[i]).0@ == name
}

/// The place in `vars` of the variable named `name`.
spec fn slot(vars: Seq<(String, String)>, name: Seq<char>) -> int {
    choose|i: int| 0 <= i < vars.len() && (#[trigger] vars[i]).0@ == name
}

/// No two of `vars` have the same name.
spec fn distinct(vars: Seq<(String, String)>) -> bool {
    forall|i: int, j: int|
        0 <= i < j < vars.len() ==> (#[trigger] vars[i]).0@ != (#[trigger] vars[j]).0@
}

/// The map that `vars` stands for.
spec fn as_map(vars: Seq<(String, String)>) -> Map<Seq<char>, Seq<char>> {
    Map::new(|name: Seq<char>| has_name(vars, name), |name: Seq<char>| vars[slot(vars, name)].1@)
}

/// Among distinct names, a name is found at its own place only.
proof fn lemma_slot(vars: Seq<(String, String)>, i: int)
    requires
        distinct(vars),
        0 <= i < vars.len(),
    ensures
        has_name(vars, vars[i].0@),
        slot(vars, vars[i].0@) == i,
        as_map(vars).contains_key(vars[i].0@),
        as_map(vars)[vars[i].0@] == vars[i].1@,
{
    assert(vars[slot(vars, vars[i].0@)].0@ == vars[i].0@);
}

/// Giving a new value to the variable at place `i` is an insertion under its
/// name.
proof fn lemma_replace(vars: Seq<(String, String)>, i: int, var: (String, String))
    requires
        distinct(vars),
        0 <= i < vars.len(),
        vars[i].0@ == var.0@,
    ensures
        distinct(vars.update(i, var)),
        as_map(vars.update(i, var)) == as_map(vars).insert(var.0@, var.1@),
{
    let after = vars.update(i, var);
    assert forall|name: Seq<char>| has_name(after, name) == has_name(vars, name) by {
        if has_name(after, name) {
            assert(vars[slot(after, name)].0@ == name);
        }
        if has_name(vars, name) {
            assert(after[slot(vars, name)].0@ == name);
        }
    }
}

/// Appending a variable under a name that is not there yet is an insertion
/// under that name.
proof fn lemma_append(vars: Seq<(String, String)>, var: (String, String))
    requires
        distinct(vars),
        !has_name(vars, var.0@),
    ensures
        distinct(vars.push(var)),
        as_map(vars.push(var)) == as_map(vars).insert(var.0@, var.1@),
{
    let after = vars.push(var);
    assert forall|name: Seq<char>| has_name(after, name) == (has_name(vars, name) || name
        == var.0@) by {
        if has_name(after, name) && name != var.0@ {
            assert(vars[slot(after, name)].0@ == name);
        }
        if has_name(vars, name) {
            assert(after[slot(vars, name)].0@ == name);
        }
        if name == var.0@ {
            assert(after[vars.len() as int].0@ == name);
        }
    }
}

/// The overwrite policy: a name that is not set may always be written, one
/// that is set only where `overwrite` holds.
pub open spec fn may_write(vars: Map<Seq<char>, Seq<char>>, name: Seq<char>, overwrite: bool) -> bool {
    overwrite || !vars.contains_key(name)
}

/// What the variables hold once `name` has been given `value` under the
/// overwrite policy.
pub open spec fn after_put(
    vars: Map<Seq<char>, Seq<char>>,
    name: Seq<char>,
    value: Seq<char>,
    overwrite: bool,
) -> Map<Seq<char>, Seq<char>> {
    if may_write(vars, name, overwrite) {
        vars.insert(name, value)
    } else {
        vars
    }
}

impl View for Environment {
    type V = Map<Seq<char>, Seq<char>>;

    closed spec fn view(&self) -> Map<Seq<char>, Seq<char>> {
        as_map(self.vars@)
    }
}

impl Clone for Environment {
    fn clone(&self) -> (r: Environment)
        ensures
            r@ == self@,
    {
        proof {
            use_type_invariant(self);
        }
        let mut vars: Vec<(String, String)> = Vec::new();
        let mut i: usize = 0;
        while i < self.vars.len()
            invariant
                i <= self.vars@.len(),
                vars@ == self.vars@.subrange(0, i as int),
            decreases self.vars@.len() - i,
        {
            vars.push((self.vars[i].0.clone(), self.vars[i].1.clone()));
            i += 1;
        }
        assert(vars@ == self.vars@);
        Environment { vars }
    }
}

impl PartialEq for Environment {
    /// Whether the two hold the same variables with the same values.
    fn eq(&self, other: &Environment) -> (r: bool) {
        proof {
            self@.lemma_submap_eq_iff(other@);
        }
        self.included_in(other) && other.included_in(self)
    }
}

impl PartialEqSpecImpl for Environment {
    open spec fn obeys_eq_spec() -> bool {
        true
    }

    open spec fn eq_spec(&self, other: &Environment) -> bool {
        self@ == other@
    }
}

impl Environment {
    #[verifier::type_invariant]
    spec fn well_formed(self) -> bool {
        distinct(self.vars@)
    }

    /// An environment without variables.
    pub fn new() -> (r: Environment)
        ensures
            r@ == Map::<Seq<char>, Seq<char>>::empty(),
    {
        Environment { vars: Vec::new() }
    }

    /// The place of the variable named `name`.
    fn position(&self, name: &String) -> (r: Option<usize>)
        ensures
            match r {
                Some(i) => i < self.vars@.len() && self.vars@[i as int].0@ == name@,
                None => !has_name(self.vars@, name@),
            },
    {
        let mut i: usize = 0;
        while i < self.vars.len()
            invariant
                i <= self.vars@.len(),
                forall|k: int| 0 <= k < i ==> (#[trigger] self.vars@[k]).0@ != name@,
            decreases self.vars@.len() - i,
        {
            if self.vars[i].0 == *name {
                return Some(i);
            }
            i += 1;
        }
        None
    }

    /// The value of the variable named `name`, if there is one.
    pub fn get(&self, name: &str) -> (r: Option<&String>)
        ensures
            match r {
                Some(value) => self@.contains_key(name@) && value@ == self@[name@],
                None => !self@.contains_key(name@),
            },
    {
        proof {
            use_type_invariant(self);
        }
        let wanted = name.to_owned();
        match self.position(&wanted) {
            Some(i) => {
                proof {
                    lemma_slot(self.vars@, i as int);
                }
                Some(&self.vars[i].1)
            },
            None => None,
        }
    }

    /// Whether there is a variable named `name`.
    pub fn contains(&self, name: &str) -> (r: bool)
        ensures
            r == self@.contains_key(name@),
    {
        self.get(name).is_some()
    }

    /// Whether each variable of `self` is one of `other`, with the same value.
    fn included_in(&self, other: &Environment) -> (r: bool)
        ensures
            r == self@.submap_of(other@),
    {
        proof {
            use_type_invariant(self);
        }
        let mut i: usize = 0;
        while i < self.vars.len()
            invariant
                i <= self.vars@.len(),
                distinct(self.vars@),
                forall|k: int|
                    0 <= k < i ==> {
                        &&& other@.contains_key((#[trigger] self.vars@[k]).0@)
                        &&& other@[self.vars@[k].0@] == self.vars@[k].1@
                    },
            decreases self.vars@.len() - i,
        {
            proof {
                lemma_slot(self.vars@, i as int);
            }
            match other.get(self.vars[i].0.as_str()) {
                Some(value) => {
                    if *value != self.vars[i].1 {
                        return false;
                    }
                },
                None => {
                    return false;
                },
            }
            i += 1;
        }
        assert forall|name: Seq<char>| self@.contains_key(name) implies other@.contains_key(name)
            && self@[name] == other@[name] by {
            lemma_slot(self.vars@, slot(self.vars@, name));
        }
        true
    }

    /// Gives the variable named `name` the value `value`, whether or not it
    /// had one.
    pub fn set(&mut self, name: String, value: String)
        ensures
            final(self)@ == old(self)@.insert(name@, value@),
    {
        proof {
            use_type_invariant(&*self);
        }
        let found = self.position(&name);
        let mut vars: Vec<(String, String)> = Vec::new();
        std::mem::swap(&mut vars, &mut self.vars);
        match found {
            Some(i) => {
                proof {
                    lemma_replace(vars@, i as int, (name, value));
                }
                vars.set(i, (name, value));
            },
            None => {
                proof {
                    lemma_append(vars@, (name, value));
                }
                vars.push((name, value));
            },
        }
        self.vars = vars;
    }

    /// Gives the variable named `name` the value `value` under the overwrite
    /// policy, and says whether it was written.
    pub fn put(&mut self, name: String, value: String, overwrite: bool) -> (written: bool)
        ensures
            final(self)@ == after_put(old(self)@, name@, value@, overwrite),
            written == may_write(old(self)@, name@, overwrite),
    {
        if overwrite || !self.contains(name.as_str()) {
            self.set(name, value);
            true
        } else {
            false
        }
    }
}

} // verus!
