//! Capture-avoiding substitution.
use vstd::prelude::*;
use vstd::string::*;
use crate::term::{Lambda, Term};
use crate::vars::free_vars;

verus! {

/// How substitution treats an abstraction whose bound name is the variable
/// being replaced.
#[derive(PartialEq, Eq, Structural, Clone, Copy, Debug)]
pub enum ShadowPolicy {
    /// The binder is renamed and substitution goes on into the body, whose
    /// occurrences of the name are treated as free.
    Rename,
    /// The abstraction shadows the variable and is left unchanged.
    Skip,
}

/// The number of nodes of a term.
pub open spec fn size(t: Lambda) -> nat
    decreases t,
{
    match t {
        Lambda::Var(_) => 1,
        Lambda::Abs(_, b) => 1 + size(*b),
        Lambda::App(f, x) => 1 + size(*f) + size(*x),
    }
}

/// A name with one more renaming marker.
pub open spec fn prime(s: Seq<char>) -> Seq<char> {
    s.push('\'')
}

/// Rewrites the occurrences of `name` in `t` to `marked`; an abstraction
/// that binds `name` again gets one more marker, and so do its occurrences.
pub open spec fn rename(t: Lambda, name: Seq<char>, marked: Seq<char>) -> Lambda
    decreases t,
{
    match t {
        Lambda::Var(s) => if s == name {
            Lambda::Var(marked)
        } else {
            Lambda::Var(s)
        },
        Lambda::Abs(m, b) => if m == name {
            Lambda::Abs(prime(marked), Box::new(rename(*b, name, prime(marked))))
        } else {
            Lambda::Abs(m, Box::new(rename(*b, name, marked)))
        },
        Lambda::App(f, x) => Lambda::App(
            Box::new(rename(*f, name, marked)),
            Box::new(rename(*x, name, marked)),
        ),
    }
}

pub proof fn lemma_rename_size(t: Lambda, name: Seq<char>, marked: Seq<char>)
    ensures
        size(rename(t, name, marked)) == size(t),
    decreases t,
{
    match t {
        Lambda::Var(_) => {},
        Lambda::Abs(m, b) => {
            if m == name {
                lemma_rename_size(*b, name, prime(marked));
            } else {
                lemma_rename_size(*b, name, marked);
            }
        },
        Lambda::App(f, x) => {
            lemma_rename_size(*f, name, marked);
            lemma_rename_size(*x, name, marked);
        },
    }
}

/// Replaces the free occurrences of `x` in `t` by `n`. An abstraction whose
/// bound name occurs free in `n` is renamed first, so that `n` is not
/// captured; one whose bound name is `x` is handled as `policy` says.
pub open spec fn subst(t: Lambda, x: Seq<char>, n: Lambda, policy: ShadowPolicy) -> Lambda
    decreases size(t),
{
    match t {
        Lambda::Var(s) => if s == x {
            n
        } else {
            t
        },
        Lambda::Abs(m, b) => {
            proof {
                lemma_rename_size(*b, m, m);
                lemma_rename_size(*b, m, prime(m));
            }
            if m == x {
                match policy {
                    ShadowPolicy::Skip => t,
                    ShadowPolicy::Rename => Lambda::Abs(
                        prime(m),
                        Box::new(subst(rename(*b, m, m), x, n, policy)),
                    ),
                }
            } else if free_vars(n).contains(m) {
                Lambda::Abs(prime(m), Box::new(subst(rename(*b, m, prime(m)), x, n, policy)))
            } else {
                Lambda::Abs(m, Box::new(subst(*b, x, n, policy)))
            }
        },
        Lambda::App(f, a) => Lambda::App(
            Box::new(subst(*f, x, n, policy)),
            Box::new(subst(*a, x, n, policy)),
        ),
    }
}

/// Appends one renaming marker to `s`.
fn primed(s: &String) -> (r: String)
    ensures
        r@ == prime(s@),
{
    let r = s.clone().concat("'");
    proof {
        reveal_strlit("'");
        assert(r@ =~= prime(s@));
    }
    r
}

/// Alpha-renaming of one name: occurrences of `name` become `marked`, and
/// each abstraction that binds `name` again gets one marker more.
pub struct Rewrite {
    pub name: String,
    pub marked: String,
}

impl Rewrite {
    /// The term with `self.name` renamed throughout.
    pub fn rewrite(&self, term: &Term) -> (r: Term)
        ensures
            r@ == rename(term@, self.name@, self.marked@),
        decreases term,
    {
        match term {
            Term::Variable(s) => if *s == self.name {
                Term::Variable(self.marked.clone())
            } else {
                Term::Variable(s.clone())
            },
            Term::Abstraction(m, b) => if *m == self.name {
                let inner = Rewrite { name: self.name.clone(), marked: primed(&self.marked) };
                let body = inner.rewrite(b);
                Term::Abstraction(inner.marked, Box::new(body))
            } else {
                Term::Abstraction(m.clone(), Box::new(self.rewrite(b)))
            },
            Term::Application(f, x) => Term::Application(
                Box::new(self.rewrite(f)),
                Box::new(self.rewrite(x)),
            ),
        }
    }
}

/// Renames the bound variable `name` throughout `term`, starting from no marker:
/// each abstraction binding `name` gets one marker more than the one around it.
pub fn rewrite(name: &str, term: &Term) -> (r: Term)
    ensures
        r@ == rename(term@, name@, name@),
{
    let n = String::from_str(name);
    Rewrite { name: n.clone(), marked: n }.rewrite(term)
}

pub(crate) fn subst_exec(t: &Term, x: &String, n: &Term, policy: ShadowPolicy) -> (r: Term)
    ensures
        r@ == subst(t@, x@, n@, policy),
    decreases size(t@),
{
    match t {
        Term::Variable(s) => if *s == *x {
            n.clone()
        } else {
            t.clone()
        },
        Term::Abstraction(m, b) => {
            proof {
                lemma_rename_size(b@, m@, m@);
                lemma_rename_size(b@, m@, prime(m@));
            }
            if *m == *x {
                match policy {
                    ShadowPolicy::Skip => t.clone(),
                    ShadowPolicy::Rename => {
                        let renamed = Rewrite { name: m.clone(), marked: m.clone() }.rewrite(b);
                        Term::Abstraction(primed(m), Box::new(subst_exec(&renamed, x, n, policy)))
                    },
                }
            } else if n.is_free_in(m) {
                let fresh = primed(m);
                let renamed = Rewrite { name: m.clone(), marked: fresh.clone() }.rewrite(b);
                Term::Abstraction(fresh, Box::new(subst_exec(&renamed, x, n, policy)))
            } else {
                Term::Abstraction(m.clone(), Box::new(subst_exec(b, x, n, policy)))
            }
        },
        Term::Application(f, a) => Term::Application(
            Box::new(subst_exec(f, x, n, policy)),
            Box::new(subst_exec(a, x, n, policy)),
        ),
    }
}

/// A term in which a variable can be replaced by another term.
pub trait Substitutable: Sized {
    /// Replaces the free occurrences of `var` by `substitution`, renaming
    /// an abstraction whose bound name is `var`.
    fn substitute(&self, var: &str, substitution: &Term) -> Self;

    /// Replaces the free occurrences of `var` by `substitution`, treating an
    /// abstraction whose bound name is `var` as `policy` says.
    fn substitute_with(&self, var: &str, substitution: &Term, policy: ShadowPolicy) -> Self;
}

impl Substitutable for Term {
    fn substitute(&self, var: &str, substitution: &Term) -> (r: Term)
        ensures
            r@ == subst(self@, var@, substitution@, ShadowPolicy::Rename),
    {
        subst_exec(self, &String::from_str(var), substitution, ShadowPolicy::Rename)
    }

    fn substitute_with(&self, var: &str, substitution: &Term, policy: ShadowPolicy) -> (r: Term)
        ensures
            r@ == subst(self@, var@, substitution@, policy),
    {
        subst_exec(self, &String::from_str(var), substitution, policy)
    }
}

/// Substituting into a variable: `x[x := n]` is `n`, and `y[x := n]` is `y`
/// for any other name `y`.
pub proof fn lemma_substitute_variable(x: Seq<char>, y: Seq<char>, n: Lambda, policy: ShadowPolicy)
    ensures
        subst(Lambda::Var(x), x, n, policy) == n,
        y != x ==> subst(Lambda::Var(y), x, n, policy) == Lambda::Var(y),
{
}

/// A name that does not end with a renaming marker.
pub open spec fn unmarked(s: Seq<char>) -> bool {
    s.len() == 0 || s.last() != '\''
}

/// `s` is `k` followed by one renaming marker or more.
pub open spec fn marked_from(s: Seq<char>, k: Seq<char>) -> bool {
    k.len() < s.len() && s.subrange(0, k.len() as int) == k && forall|i: int|
        k.len() <= i < s.len() ==> s[i] == '\''
}

/// Every name of `t`, bound or free.
pub open spec fn names(t: Lambda) -> Set<Seq<char>>
    decreases t,
{
    match t {
        Lambda::Var(s) => set![s],
        Lambda::Abs(k, b) => names(*b).insert(k),
        Lambda::App(f, x) => names(*f).union(names(*x)),
    }
}

/// The names that renaming mints are fresh: inside an abstraction over an
/// unmarked name `k`, no name is `k` with markers.
pub open spec fn fresh_markers(t: Lambda) -> bool
    decreases t,
{
    match t {
        Lambda::Var(_) => true,
        Lambda::Abs(k, b) => fresh_markers(*b) && (unmarked(k) ==> forall|s: Seq<char>|
            #[trigger] names(*b).contains(s) ==> !marked_from(s, k)),
        Lambda::App(f, x) => fresh_markers(*f) && fresh_markers(*x),
    }
}

proof fn lemma_prime_marked(p: Seq<char>)
    ensures
        marked_from(prime(p), p),
{
    assert(prime(p).subrange(0, p.len() as int) =~= p);
}

proof fn lemma_marked_chain(s: Seq<char>, p: Seq<char>, m: Seq<char>)
    requires
        marked_from(s, p),
        p == m || marked_from(p, m),
    ensures
        marked_from(s, m),
{
    if p != m {
        assert(s.subrange(0, m.len() as int) =~= p.subrange(0, m.len() as int)) by {
            assert forall|i: int| 0 <= i < m.len() implies s.subrange(0, m.len() as int)[i] == p.subrange(0, m.len() as int)[i] by {
                assert(s[i] == s.subrange(0, p.len() as int)[i]);
            }
        }
        assert forall|i: int| m.len() <= i < s.len() implies s[i] == '\'' by {
            if i < p.len() {
                assert(s[i] == s.subrange(0, p.len() as int)[i]);
            }
        }
    }
}

proof fn lemma_marked_is_marked(s: Seq<char>, k: Seq<char>)
    requires
        marked_from(s, k),
    ensures
        !unmarked(s),
{
}

/// Two unmarked names with a common marked form are the same name.
proof fn lemma_marked_unique(s: Seq<char>, k: Seq<char>, m: Seq<char>)
    requires
        marked_from(s, k),
        marked_from(s, m),
        unmarked(k),
        unmarked(m),
    ensures
        k == m,
{
    if k.len() < m.len() {
        assert(m[m.len() - 1] == s.subrange(0, m.len() as int)[m.len() - 1]);
        assert(s[m.len() - 1] == '\'');
    } else if m.len() < k.len() {
        assert(k[k.len() - 1] == s.subrange(0, k.len() as int)[k.len() - 1]);
        assert(s[k.len() - 1] == '\'');
    } else {
        assert(k =~= m);
    }
}

proof fn lemma_fv_in_names(t: Lambda)
    ensures
        free_vars(t).subset_of(names(t)),
    decreases t,
{
    match t {
        Lambda::Var(_) => {},
        Lambda::Abs(_, b) => lemma_fv_in_names(*b),
        Lambda::App(f, x) => {
            lemma_fv_in_names(*f);
            lemma_fv_in_names(*x);
        },
    }
}

proof fn lemma_unmarked_fresh(t: Lambda)
    requires
        forall|s: Seq<char>| names(t).contains(s) ==> unmarked(s),
    ensures
        fresh_markers(t),
    decreases t,
{
    match t {
        Lambda::Var(_) => {},
        Lambda::Abs(k, b) => {
            lemma_unmarked_fresh(*b);
            assert forall|s: Seq<char>| #[trigger] names(*b).contains(s) implies !marked_from(s, k) by {
                if marked_from(s, k) {
                    lemma_marked_is_marked(s, k);
                    assert(names(t).contains(s));
                }
            }
        },
        Lambda::App(f, x) => {
            lemma_unmarked_fresh(*f);
            lemma_unmarked_fresh(*x);
        },
    }
}

proof fn lemma_rename_names(c: Lambda, m: Seq<char>, marked: Seq<char>)
    ensures
        forall|s: Seq<char>| #[trigger] names(rename(c, m, marked)).contains(s) ==> (names(c).contains(s) && s != m)
            || s == marked || marked_from(s, marked),
    decreases c,
{
    match c {
        Lambda::Var(v) => {
            assert(rename(c, m, marked) == (if v == m {
                Lambda::Var(marked)
            } else {
                Lambda::Var(v)
            }));
        },
        Lambda::Abs(k, e) => {
            if k == m {
                let p = prime(marked);
                lemma_rename_names(*e, m, p);
                lemma_prime_marked(marked);
                assert forall|s: Seq<char>| #[trigger] names(rename(c, m, marked)).contains(s) implies (names(c).contains(s) && s != m)
                    || s == marked || marked_from(s, marked) by {
                    assert(rename(c, m, marked) == Lambda::Abs(p, Box::new(rename(*e, m, p))));
                    if s != p {
                        assert(names(rename(*e, m, p)).contains(s));
                        if marked_from(s, p) {
                            lemma_marked_chain(s, p, marked);
                        }
                    }
                }
            } else {
                lemma_rename_names(*e, m, marked);
                assert forall|s: Seq<char>| #[trigger] names(rename(c, m, marked)).contains(s) implies (names(c).contains(s) && s != m)
                    || s == marked || marked_from(s, marked) by {
                    if s != k {
                        assert(names(rename(*e, m, marked)).contains(s));
                    }
                }
            }
        },
        Lambda::App(f, x) => {
            lemma_rename_names(*f, m, marked);
            lemma_rename_names(*x, m, marked);
            assert forall|s: Seq<char>| #[trigger] names(rename(c, m, marked)).contains(s) implies (names(c).contains(s) && s != m)
                || s == marked || marked_from(s, marked) by {
                if names(rename(*f, m, marked)).contains(s) {
                } else {
                    assert(names(rename(*x, m, marked)).contains(s));
                }
            }
        },
    }
}

/// Renaming `m` to a fresh marked form changes only that name among the free ones.
proof fn lemma_rename_free_vars(c: Lambda, m: Seq<char>, marked: Seq<char>)
    requires
        unmarked(m),
        marked == m || marked_from(marked, m),
        forall|s: Seq<char>| #[trigger] names(c).contains(s) ==> !marked_from(s, m),
    ensures
        free_vars(rename(c, m, marked)) == (if free_vars(c).contains(m) {
            free_vars(c).remove(m).insert(marked)
        } else {
            free_vars(c)
        }),
    decreases c,
{
    match c {
        Lambda::Var(s) => {
            if s == m {
                assert(free_vars(rename(c, m, marked)) =~= free_vars(c).remove(m).insert(marked));
            }
        },
        Lambda::Abs(k, e) => {
            assert forall|s: Seq<char>| #[trigger] names(*e).contains(s) implies !marked_from(s, m) by {
                assert(names(c).contains(s));
            }
            if k == m {
                let p = prime(marked);
                lemma_prime_marked(marked);
                lemma_marked_chain(p, marked, m);
                lemma_rename_free_vars(*e, m, p);
                lemma_fv_in_names(*e);
                assert(!names(*e).contains(p));
                assert(free_vars(rename(c, m, marked)) =~= free_vars(c));
            } else {
                lemma_rename_free_vars(*e, m, marked);
                assert(names(c).contains(k));
                assert(marked != k);
                if free_vars(c).contains(m) {
                    assert(free_vars(rename(c, m, marked)) =~= free_vars(c).remove(m).insert(marked));
                } else {
                    assert(free_vars(rename(c, m, marked)) =~= free_vars(c));
                }
            }
        },
        Lambda::App(f, x) => {
            assert forall|s: Seq<char>| #[trigger] names(*f).contains(s) implies !marked_from(s, m) by {
                assert(names(c).contains(s));
            }
            assert forall|s: Seq<char>| #[trigger] names(*x).contains(s) implies !marked_from(s, m) by {
                assert(names(c).contains(s));
            }
            lemma_rename_free_vars(*f, m, marked);
            lemma_rename_free_vars(*x, m, marked);
            if free_vars(c).contains(m) {
                assert(free_vars(rename(c, m, marked)) =~= free_vars(c).remove(m).insert(marked));
            } else {
                assert(free_vars(rename(c, m, marked)) =~= free_vars(c));
            }
        },
    }
}

proof fn lemma_rename_fresh(c: Lambda, m: Seq<char>, marked: Seq<char>)
    requires
        fresh_markers(c),
        unmarked(m),
        marked == m || marked_from(marked, m),
    ensures
        fresh_markers(rename(c, m, marked)),
    decreases c,
{
    match c {
        Lambda::Var(_) => {},
        Lambda::Abs(k, e) => {
            if k == m {
                let p = prime(marked);
                lemma_prime_marked(marked);
                lemma_marked_chain(p, marked, m);
                lemma_rename_fresh(*e, m, p);
            } else {
                lemma_rename_fresh(*e, m, marked);
                lemma_rename_names(*e, m, marked);
                if unmarked(k) {
                    assert forall|s: Seq<char>| #[trigger] names(rename(*e, m, marked)).contains(s) implies !marked_from(s, k) by {
                        if marked_from(s, k) {
                            if !(names(*e).contains(s) && s != m) {
                                if s == m {
                                    lemma_marked_is_marked(s, k);
                                } else {
                                    if s != marked {
                                        lemma_marked_chain(s, marked, m);
                                    }
                                    if marked != m || s != marked {
                                        lemma_marked_unique(s, k, m);
                                    }
                                }
                            }
                        }
                    }
                }
            }
        },
        Lambda::App(f, x) => {
            lemma_rename_fresh(*f, m, marked);
            lemma_rename_fresh(*x, m, marked);
        },
    }
}

/// How substitution moves free variables: those of `t` other than `x` stay,
/// those of `n` come in when `x` was free, and no others appear.
proof fn lemma_subst_free_vars(t: Lambda, x: Seq<char>, n: Lambda, policy: ShadowPolicy)
    requires
        fresh_markers(t),
        unmarked(x),
        forall|s: Seq<char>| #[trigger] free_vars(n).contains(s) ==> unmarked(s),
    ensures
        free_vars(subst(t, x, n, policy)).subset_of(free_vars(t).remove(x).union(free_vars(n))),
        free_vars(t).remove(x).subset_of(free_vars(subst(t, x, n, policy))),
        free_vars(t).contains(x) ==> free_vars(n).subset_of(free_vars(subst(t, x, n, policy))),
    decreases size(t),
{
    match t {
        Lambda::Var(_) => {},
        Lambda::App(f, a) => {
            lemma_subst_free_vars(*f, x, n, policy);
            lemma_subst_free_vars(*a, x, n, policy);
        },
        Lambda::Abs(m, b) => {
            if m == x {
                if policy == ShadowPolicy::Rename {
                    let b2 = rename(*b, m, m);
                    lemma_rename_size(*b, m, m);
                    lemma_rename_free_vars(*b, m, m);
                    lemma_rename_fresh(*b, m, m);
                    lemma_subst_free_vars(b2, x, n, policy);
                    let p = prime(m);
                    lemma_prime_marked(m);
                    lemma_fv_in_names(*b);
                    assert(!free_vars(*b).contains(p));
                }
            } else if free_vars(n).contains(m) {
                let p = prime(m);
                let b2 = rename(*b, m, p);
                lemma_prime_marked(m);
                lemma_rename_size(*b, m, p);
                lemma_rename_free_vars(*b, m, p);
                lemma_rename_fresh(*b, m, p);
                lemma_subst_free_vars(b2, x, n, policy);
                lemma_fv_in_names(*b);
                assert(!free_vars(*b).contains(p));
                lemma_marked_is_marked(p, m);
                assert(!free_vars(n).contains(p));
            } else {
                lemma_subst_free_vars(*b, x, n, policy);
            }
        },
    }
}

/// Capture avoidance: when `x` is free in `λy.body` and `y` is free in `n`,
/// so that the binder would capture it, the free variables of
/// `(λy.body)[x := n]` are those of `λy.body` other than `x`, together with
/// those of `n`. This holds when neither term already uses a name that ends
/// with the renaming marker `'`, as renaming mints such names.
pub proof fn lemma_capture_avoidance(y: Seq<char>, body: Lambda, x: Seq<char>, n: Lambda, policy: ShadowPolicy)
    requires
        free_vars(Lambda::Abs(y, Box::new(body))).contains(x),
        free_vars(n).contains(y),
        forall|s: Seq<char>| #[trigger] names(Lambda::Abs(y, Box::new(body))).contains(s) ==> unmarked(s),
        forall|s: Seq<char>| #[trigger] names(n).contains(s) ==> unmarked(s),
    ensures
        free_vars(subst(Lambda::Abs(y, Box::new(body)), x, n, policy)) == free_vars(
            Lambda::Abs(y, Box::new(body)),
        ).remove(x).union(free_vars(n)),
{
    let t = Lambda::Abs(y, Box::new(body));
    lemma_unmarked_fresh(t);
    lemma_fv_in_names(t);
    lemma_fv_in_names(n);
    lemma_subst_free_vars(t, x, n, policy);
    assert(free_vars(subst(t, x, n, policy)) =~= free_vars(t).remove(x).union(free_vars(n)));
}

} // verus!
