//! Free variables of a term.
use vstd::prelude::*;
use crate::term::{Lambda, Term};

verus! {

/// The identifiers used in `t` but not bound by an enclosing abstraction.
pub open spec fn free_vars(t: Lambda) -> Set<Seq<char>>
    decreases t,
{
    match t {
        Lambda::Var(n) => set![n],
        Lambda::Abs(n, b) => free_vars(*b).remove(n),
        Lambda::App(f, x) => free_vars(*f).union(free_vars(*x)),
    }
}

/// The names held by a list of strings.
pub open spec fn names_of(v: Seq<String>) -> Set<Seq<char>> {
    Set::new(|s: Seq<char>| exists|i: int| 0 <= i < v.len() && v[i]@ == s)
}

/// No name occurs twice in the list.
pub open spec fn distinct_names(v: Seq<String>) -> bool {
    forall|i: int, j: int| 0 <= i < j < v.len() ==> v[i]@ != v[j]@
}

/// Whether `name` occurs in `v`.
fn contains_name(v: &Vec<String>, name: &String) -> (r: bool)
    ensures
        r == names_of(v@).contains(name@),
{
    let mut i: usize = 0;
    while i < v.len()
        invariant
            i <= v.len(),
            forall|k: int| 0 <= k < i ==> v@[k]@ != name@,
        decreases v.len() - i,
    {
        if v[i] == *name {
            return true;
        }
        i += 1;
    }
    false
}

/// Appends to `acc` each name of `more` that `acc` does not hold yet, leaving
/// out `skip` when one is given.
fn merge_names(acc: &mut Vec<String>, more: Vec<String>, skip: Option<&String>)
    requires
        distinct_names(old(acc)@),
    ensures
        distinct_names(final(acc)@),
        names_of(final(acc)@) == names_of(old(acc)@).union(
            match skip {
                Some(s) => names_of(more@).remove(s@),
                None => names_of(more@),
            },
        ),
{
    let ghost skipped = match skip {
        Some(s) => names_of(more@).remove(s@),
        None => names_of(more@),
    };
    let ghost start = acc@;
    let mut i: usize = 0;
    while i < more.len()
        invariant
            i <= more.len(),
            distinct_names(acc@),
            skipped == match skip {
                Some(s) => names_of(more@).remove(s@),
                None => names_of(more@),
            },
            names_of(acc@) == names_of(start).union(
                Set::new(|s: Seq<char>| exists|k: int| 0 <= k < i && more@[k]@ == s && skipped.contains(s)),
            ),
        decreases more.len() - i,
    {
        let name = &more[i];
        let keep = match skip {
            Some(s) => *name != *s,
            None => true,
        };
        let ghost before = acc@;
        if keep && !contains_name(acc, name) {
            acc.push(name.clone());
            assert(names_of(acc@) == names_of(before).insert(name@)) by {
                assert forall|s: Seq<char>| names_of(acc@).contains(s) implies names_of(before).insert(name@).contains(s) by {
                    let j = choose|j: int| 0 <= j < acc@.len() && acc@[j]@ == s;
                    if j < before.len() {
                        assert(before[j]@ == s);
                    }
                }
                assert forall|s: Seq<char>| names_of(before).insert(name@).contains(s) implies names_of(acc@).contains(s) by {
                    if s == name@ {
                        assert(acc@[before.len() as int]@ == s);
                    } else {
                        let j = choose|j: int| 0 <= j < before.len() && before[j]@ == s;
                        assert(acc@[j]@ == s);
                    }
                }
                assert(names_of(acc@) =~= names_of(before).insert(name@));
            }
        }
        assert(skipped.contains(more@[i as int]@) == keep);
        assert(Set::new(|s: Seq<char>| exists|k: int| 0 <= k < i + 1 && more@[k]@ == s && skipped.contains(s))
            =~= Set::new(|s: Seq<char>| exists|k: int| 0 <= k < i && more@[k]@ == s && skipped.contains(s)).union(
                if keep { set![more@[i as int]@] } else { Set::empty() }));
        i += 1;
    }
    assert(Set::new(|s: Seq<char>| exists|k: int| 0 <= k < more.len() && more@[k]@ == s && skipped.contains(s))
        =~= skipped);
}

/// A term whose free variables can be listed.
pub trait Variables {
    /// Returns the free variables of the term, each once.
    fn free_variables(&self) -> Vec<String>;
}

impl Variables for Term {
    fn free_variables(&self) -> (r: Vec<String>)
        ensures
            distinct_names(r@),
            names_of(r@) == free_vars(self@),
        decreases self,
    {
        match self {
            Term::Variable(s) => {
                let mut r: Vec<String> = Vec::new();
                r.push(s.clone());
                assert(names_of(r@) =~= set![s@]) by {
                    assert(r@[0]@ == s@);
                }
                r
            },
            Term::Abstraction(n, b) => {
                let mut r: Vec<String> = Vec::new();
                merge_names(&mut r, b.free_variables(), Some(n));
                assert(names_of(Seq::<String>::empty()) =~= Set::empty());
                assert(names_of(r@) =~= free_vars(self@));
                r
            },
            Term::Application(t1, t2) => {
                let mut r = t1.free_variables();
                merge_names(&mut r, t2.free_variables(), None);
                r
            },
        }
    }
}

impl Term {
    /// Whether `name` occurs free in the term.
    pub fn is_free_in(&self, name: &String) -> (r: bool)
        ensures
            r == free_vars(self@).contains(name@),
        decreases self,
    {
        match self {
            Term::Variable(s) => *s == *name,
            Term::Abstraction(n, b) => *n != *name && b.is_free_in(name),
            Term::Application(t1, t2) => t1.is_free_in(name) || t2.is_free_in(name),
        }
    }
}

} // verus!
