//! Small-step reduction strategies and the driver that runs them to a
//! normal form.
//!
//! A redex is an application `(λn.body) arg`; contracting it gives `body`
//! with `n` replaced by `arg`.
use vstd::prelude::*;
use crate::term::{Lambda, Term, spec_is_redex, contains_redex};
use crate::substitution::{ShadowPolicy, subst, subst_exec};

verus! {

/// The model of an optional term.
pub open spec fn opt_view(o: Option<Term>) -> Option<Lambda> {
    match o {
        Some(t) => Some(t@),
        None => None,
    }
}

/// Contracting the redex `(λn.body) arg`.
pub open spec fn contract(n: Seq<char>, body: Lambda, arg: Lambda, policy: ShadowPolicy) -> Lambda {
    subst(body, n, arg, policy)
}

/// Call by value: the outermost application is contracted once its argument
/// is a value; before that the argument (when the function is a value) or the
/// function is reduced. Never reduces under an abstraction.
pub open spec fn cbv_next(t: Lambda, policy: ShadowPolicy) -> Option<Lambda>
    decreases t,
{
    match t {
        Lambda::App(f, x) => match *f {
            Lambda::Abs(n, b) => if (*x) is Abs {
                Some(contract(n, *b, *x, policy))
            } else {
                match cbv_next(*x, policy) {
                    Some(x2) => Some(Lambda::App(f, Box::new(x2))),
                    None => None,
                }
            },
            _ => match cbv_next(*f, policy) {
                Some(f2) => Some(Lambda::App(Box::new(f2), x)),
                None => None,
            },
        },
        _ => None,
    }
}

/// Call by name: the outermost redex is contracted with its argument
/// unevaluated; otherwise the function side is reduced while it holds a redex.
pub open spec fn lazy_next(t: Lambda, policy: ShadowPolicy) -> Option<Lambda>
    decreases t,
{
    match t {
        Lambda::App(f, x) => match *f {
            Lambda::Abs(n, b) => Some(contract(n, *b, *x, policy)),
            _ => if spec_is_redex(*f) {
                match lazy_next(*f, policy) {
                    Some(f2) => Some(Lambda::App(Box::new(f2), x)),
                    None => None,
                }
            } else {
                None
            },
        },
        _ => None,
    }
}

/// Normal order: reduces under abstractions; an application of an
/// abstraction is contracted, otherwise the function side is reduced when it
/// holds a redex anywhere, else the argument.
pub open spec fn normal_next(t: Lambda, policy: ShadowPolicy) -> Option<Lambda>
    decreases t,
{
    match t {
        Lambda::Var(_) => None,
        Lambda::Abs(n, b) => match normal_next(*b, policy) {
            Some(b2) => Some(Lambda::Abs(n, Box::new(b2))),
            None => None,
        },
        Lambda::App(f, x) => match *f {
            Lambda::Abs(n, b) => Some(contract(n, *b, *x, policy)),
            _ => if contains_redex(*f) {
                match normal_next(*f, policy) {
                    Some(f2) => Some(Lambda::App(Box::new(f2), x)),
                    None => None,
                }
            } else {
                match normal_next(*x, policy) {
                    Some(x2) => Some(Lambda::App(f, Box::new(x2))),
                    None => None,
                }
            },
        },
    }
}

/// Full beta reduction: reduces under abstractions, and inside an
/// application first the function side, then the argument, when they hold a
/// redex anywhere; an application of an abstraction is contracted last.
pub open spec fn full_next(t: Lambda, policy: ShadowPolicy) -> Option<Lambda>
    decreases t,
{
    match t {
        Lambda::Var(_) => None,
        Lambda::Abs(n, b) => match full_next(*b, policy) {
            Some(b2) => Some(Lambda::Abs(n, Box::new(b2))),
            None => None,
        },
        Lambda::App(f, x) => if contains_redex(*f) {
            match full_next(*f, policy) {
                Some(f2) => Some(Lambda::App(Box::new(f2), x)),
                None => None,
            }
        } else if contains_redex(*x) {
            match full_next(*x, policy) {
                Some(x2) => Some(Lambda::App(f, Box::new(x2))),
                None => None,
            }
        } else {
            match *f {
                Lambda::Abs(n, b) => Some(contract(n, *b, *x, policy)),
                _ => None,
            }
        },
    }
}

/// The term reached from `t` by at most `fuel` steps of `next`, stopping
/// early at a term on which no step applies.
pub open spec fn run(next: spec_fn(Lambda) -> Option<Lambda>, t: Lambda, fuel: nat) -> Lambda
    decreases fuel,
{
    if fuel == 0 {
        t
    } else {
        match next(t) {
            Some(u) => run(next, u, (fuel - 1) as nat),
            None => t,
        }
    }
}

/// The normal form that `next` reaches from `t` within `budget` steps, if any.
pub open spec fn run_within(next: spec_fn(Lambda) -> Option<Lambda>, t: Lambda, budget: nat) -> Option<Lambda>
    decreases budget,
{
    match next(t) {
        None => Some(t),
        Some(u) => if budget == 0 {
            None
        } else {
            run_within(next, u, (budget - 1) as nat)
        },
    }
}

/// A beta reduction strategy, driven with a context.
pub trait Evaluable: Sized {
    /// One step of this strategy: the term it leads to, if any.
    spec fn next(&self) -> spec_fn(Lambda) -> Option<Lambda>;

    /// Performs one small step on the given term.
    fn step(&self, ctx: &mut EmptyContext, term: Term) -> (r: Option<Term>)
        ensures
            opt_view(r) == (self.next())(term@),
            *final(ctx) == *old(ctx),
    ;

    /// Steps until no step applies. As the calculus does not terminate in
    /// general, the steps are counted and stop after `u64::MAX` of them.
    fn evaluate(&self, ctx: &mut EmptyContext, term: Term) -> (r: Term)
        ensures
            r@ == run(self.next(), term@, u64::MAX as nat),
            *final(ctx) == *old(ctx),
    {
        let ghost start = term@;
        let mut cur = term;
        let mut fuel: u64 = u64::MAX;
        loop
            invariant
                start == term@,
                run(self.next(), cur@, fuel as nat) == run(self.next(), start, u64::MAX as nat),
            decreases fuel,
        {
            if fuel == 0 {
                return cur;
            }
            match self.step(ctx, cur.clone()) {
                Some(u) => {
                    cur = u;
                    fuel = fuel - 1;
                },
                None => {
                    return cur;
                },
            }
        }
    }

    /// Steps until no step applies, taking at most `budget` steps: `None`
    /// when the budget runs out first.
    fn evaluate_within(&self, ctx: &mut EmptyContext, term: Term, budget: u64) -> (r: Option<Term>)
        ensures
            opt_view(r) == run_within(self.next(), term@, budget as nat),
            *final(ctx) == *old(ctx),
    {
        let ghost start = term@;
        let mut cur = term;
        let mut left: u64 = budget;
        loop
            invariant
                start == term@,
                run_within(self.next(), cur@, left as nat) == run_within(self.next(), start, budget as nat),
            decreases left,
        {
            match self.step(ctx, cur.clone()) {
                Some(u) => {
                    if left == 0 {
                        return None;
                    }
                    cur = u;
                    left = left - 1;
                },
                None => {
                    return Some(cur);
                },
            }
        }
    }
}

/// The context of a strategy that keeps no state.
pub struct EmptyContext;

/// A reduction strategy used without a context.
pub trait Reduction: Evaluable {
    /// Reduces the given term as far as the strategy goes (see `evaluate`).
    fn reduce(&self, term: Term) -> (r: Term)
        ensures
            r@ == run(self.next(), term@, u64::MAX as nat),
    {
        self.evaluate(&mut EmptyContext, term)
    }

    /// Reduces the given term within `budget` steps (see `evaluate_within`).
    fn reduce_within(&self, term: Term, budget: u64) -> (r: Option<Term>)
        ensures
            opt_view(r) == run_within(self.next(), term@, budget as nat),
    {
        self.evaluate_within(&mut EmptyContext, term, budget)
    }
}

/// Call-by-value strategy.
pub struct CallByValue {
    pub shadowing: ShadowPolicy,
}

impl CallByValue {
    /// The strategy with the textbook rule for shadowing abstractions.
    pub fn new() -> (r: CallByValue)
        ensures
            r.shadowing == ShadowPolicy::Skip,
    {
        CallByValue { shadowing: ShadowPolicy::Skip }
    }
}

impl Evaluable for CallByValue {
    open spec fn next(&self) -> spec_fn(Lambda) -> Option<Lambda> {
        |t: Lambda| cbv_next(t, self.shadowing)
    }

    fn step(&self, ctx: &mut EmptyContext, term: Term) -> (r: Option<Term>) {
        cbv_step(term, self.shadowing)
    }
}

impl Reduction for CallByValue {}

fn cbv_step(term: Term, policy: ShadowPolicy) -> (r: Option<Term>)
    ensures
        opt_view(r) == cbv_next(term@, policy),
    decreases term,
{
    match term {
        Term::Application(f, x) => {
            match &*f {
                Term::Abstraction(n, b) => {
                    if x.is_value() {
                        proof {
                            assert(f@ == Lambda::Abs(n@, Box::new((**b)@)));
                        }
                        proof {
                        assert(f@ == Lambda::Abs(n@, Box::new((**b)@)));
                    }
                    return Some(subst_exec(b, n, &x, policy));
                    }
                },
                _ => {},
            }
            if f.is_value() {
                match cbv_step(*x, policy) {
                    Some(x2) => Some(Term::Application(f, Box::new(x2))),
                    None => None,
                }
            } else {
                match cbv_step(*f, policy) {
                    Some(f2) => Some(Term::Application(Box::new(f2), x)),
                    None => None,
                }
            }
        },
        _ => None,
    }
}

/// Call-by-name strategy.
pub struct Lazy {
    pub shadowing: ShadowPolicy,
}

impl Lazy {
    /// The strategy with the textbook rule for shadowing abstractions.
    pub fn new() -> (r: Lazy)
        ensures
            r.shadowing == ShadowPolicy::Skip,
    {
        Lazy { shadowing: ShadowPolicy::Skip }
    }
}

impl Evaluable for Lazy {
    open spec fn next(&self) -> spec_fn(Lambda) -> Option<Lambda> {
        |t: Lambda| lazy_next(t, self.shadowing)
    }

    fn step(&self, ctx: &mut EmptyContext, term: Term) -> (r: Option<Term>) {
        lazy_step(term, self.shadowing)
    }
}

impl Reduction for Lazy {}

fn lazy_step(term: Term, policy: ShadowPolicy) -> (r: Option<Term>)
    ensures
        opt_view(r) == lazy_next(term@, policy),
    decreases term,
{
    match term {
        Term::Application(f, x) => {
            match &*f {
                Term::Abstraction(n, b) => {
                    proof {
                        assert(f@ == Lambda::Abs(n@, Box::new((**b)@)));
                    }
                    return Some(subst_exec(b, n, &x, policy));
                },
                _ => {},
            }
            if f.is_redex() {
                match lazy_step(*f, policy) {
                    Some(f2) => Some(Term::Application(Box::new(f2), x)),
                    None => None,
                }
            } else {
                None
            }
        },
        _ => None,
    }
}

/// Normal-order strategy.
pub struct Normal {
    pub shadowing: ShadowPolicy,
}

impl Normal {
    /// The strategy with the textbook rule for shadowing abstractions.
    pub fn new() -> (r: Normal)
        ensures
            r.shadowing == ShadowPolicy::Skip,
    {
        Normal { shadowing: ShadowPolicy::Skip }
    }
}

impl Evaluable for Normal {
    open spec fn next(&self) -> spec_fn(Lambda) -> Option<Lambda> {
        |t: Lambda| normal_next(t, self.shadowing)
    }

    fn step(&self, ctx: &mut EmptyContext, term: Term) -> (r: Option<Term>) {
        normal_step(term, self.shadowing)
    }
}

impl Reduction for Normal {}

fn normal_step(term: Term, policy: ShadowPolicy) -> (r: Option<Term>)
    ensures
        opt_view(r) == normal_next(term@, policy),
    decreases term,
{
    match term {
        Term::Variable(_) => None,
        Term::Abstraction(n, b) => match normal_step(*b, policy) {
            Some(b2) => Some(Term::Abstraction(n, Box::new(b2))),
            None => None,
        },
        Term::Application(f, x) => {
            match &*f {
                Term::Abstraction(n, b) => {
                    proof {
                        assert(f@ == Lambda::Abs(n@, Box::new((**b)@)));
                    }
                    return Some(subst_exec(b, n, &x, policy));
                },
                _ => {},
            }
            if f.has_redex() {
                match normal_step(*f, policy) {
                    Some(f2) => Some(Term::Application(Box::new(f2), x)),
                    None => None,
                }
            } else {
                match normal_step(*x, policy) {
                    Some(x2) => Some(Term::Application(f, Box::new(x2))),
                    None => None,
                }
            }
        },
    }
}

/// Full beta reduction strategy.
pub struct Full {
    pub shadowing: ShadowPolicy,
}

impl Full {
    /// The strategy with the textbook rule for shadowing abstractions.
    pub fn new() -> (r: Full)
        ensures
            r.shadowing == ShadowPolicy::Skip,
    {
        Full { shadowing: ShadowPolicy::Skip }
    }
}

impl Evaluable for Full {
    open spec fn next(&self) -> spec_fn(Lambda) -> Option<Lambda> {
        |t: Lambda| full_next(t, self.shadowing)
    }

    fn step(&self, ctx: &mut EmptyContext, term: Term) -> (r: Option<Term>) {
        full_step(term, self.shadowing)
    }
}

impl Reduction for Full {}

fn full_step(term: Term, policy: ShadowPolicy) -> (r: Option<Term>)
    ensures
        opt_view(r) == full_next(term@, policy),
    decreases term,
{
    match term {
        Term::Variable(_) => None,
        Term::Abstraction(n, b) => match full_step(*b, policy) {
            Some(b2) => Some(Term::Abstraction(n, Box::new(b2))),
            None => None,
        },
        Term::Application(f, x) => {
            if f.has_redex() {
                match full_step(*f, policy) {
                    Some(f2) => Some(Term::Application(Box::new(f2), x)),
                    None => None,
                }
            } else if x.has_redex() {
                match full_step(*x, policy) {
                    Some(x2) => Some(Term::Application(f, Box::new(x2))),
                    None => None,
                }
            } else {
                match &*f {
                    Term::Abstraction(n, b) => Some(subst_exec(b, n, &x, policy)),
                    _ => None,
                }
            }
        },
    }
}

/// A term on which a strategy takes no step is its own result: evaluating it
/// gives it back, whatever the budget.
pub proof fn lemma_normal_form_is_fixed_point<S: Evaluable>(strategy: &S, t: Lambda, fuel: nat)
    requires
        (strategy.next())(t) is None,
    ensures
        run(strategy.next(), t, fuel) == t,
        run_within(strategy.next(), t, fuel) == Some(t),
{
}

/// The self-application `λx.x x`.
pub open spec fn self_apply(x: Seq<char>) -> Lambda {
    Lambda::Abs(x, Box::new(Lambda::App(Box::new(Lambda::Var(x)), Box::new(Lambda::Var(x)))))
}

/// The term `(λx.x x) (λx.x x)`, which has no normal form.
pub open spec fn omega(x: Seq<char>) -> Lambda {
    Lambda::App(Box::new(self_apply(x)), Box::new(self_apply(x)))
}

proof fn lemma_loops_forever(next: spec_fn(Lambda) -> Option<Lambda>, t: Lambda, budget: nat)
    requires
        next(t) == Some(t),
    ensures
        run_within(next, t, budget) is None,
        run(next, t, budget) == t,
    decreases budget,
{
    if budget > 0 {
        lemma_loops_forever(next, t, (budget - 1) as nat);
    }
}

/// `(λx.x x) (λx.x x)` steps to itself under every strategy, so no budget
/// is enough to evaluate it.
pub proof fn lemma_omega_diverges(x: Seq<char>, policy: ShadowPolicy, budget: nat)
    ensures
        run_within((CallByValue { shadowing: policy }).next(), omega(x), budget) is None,
        run_within((Lazy { shadowing: policy }).next(), omega(x), budget) is None,
        run_within((Normal { shadowing: policy }).next(), omega(x), budget) is None,
        run_within((Full { shadowing: policy }).next(), omega(x), budget) is None,
{
    let w = omega(x);
    assert(subst(Lambda::Var(x), x, self_apply(x), policy) == self_apply(x));
    assert(subst(Lambda::App(Box::new(Lambda::Var(x)), Box::new(Lambda::Var(x))), x, self_apply(x), policy) == w);
    assert(!spec_is_redex(self_apply(x)));
    assert(!contains_redex(Lambda::Var(x)));
    assert(!contains_redex(Lambda::App(Box::new(Lambda::Var(x)), Box::new(Lambda::Var(x)))));
    assert(!contains_redex(self_apply(x)));
    assert(cbv_next(w, policy) == Some(w));
    assert(lazy_next(w, policy) == Some(w));
    assert(normal_next(w, policy) == Some(w));
    assert(full_next(w, policy) == Some(w));
    lemma_loops_forever((CallByValue { shadowing: policy }).next(), w, budget);
    lemma_loops_forever((Lazy { shadowing: policy }).next(), w, budget);
    lemma_loops_forever((Normal { shadowing: policy }).next(), w, budget);
    lemma_loops_forever((Full { shadowing: policy }).next(), w, budget);
}

proof fn lemma_normal_stops_at_normal_forms(t: Lambda, policy: ShadowPolicy)
    ensures
        normal_next(t, policy) is None <==> !contains_redex(t),
    decreases t,
{
    match t {
        Lambda::Var(_) => {},
        Lambda::Abs(_, b) => lemma_normal_stops_at_normal_forms(*b, policy),
        Lambda::App(f, x) => {
            lemma_normal_stops_at_normal_forms(*f, policy);
            lemma_normal_stops_at_normal_forms(*x, policy);
        },
    }
}

proof fn lemma_full_stops_at_normal_forms(t: Lambda, policy: ShadowPolicy)
    ensures
        full_next(t, policy) is None <==> !contains_redex(t),
    decreases t,
{
    match t {
        Lambda::Var(_) => {},
        Lambda::Abs(_, b) => lemma_full_stops_at_normal_forms(*b, policy),
        Lambda::App(f, x) => {
            lemma_full_stops_at_normal_forms(*f, policy);
            lemma_full_stops_at_normal_forms(*x, policy);
        },
    }
}

/// Normal order and full reduction stop exactly at the terms that hold no
/// redex anywhere, the beta normal forms.
pub proof fn lemma_stops_at_normal_forms(t: Lambda, policy: ShadowPolicy)
    ensures
        ((Normal { shadowing: policy }).next())(t) is None <==> !contains_redex(t),
        ((Full { shadowing: policy }).next())(t) is None <==> !contains_redex(t),
{
    lemma_normal_stops_at_normal_forms(t, policy);
    lemma_full_stops_at_normal_forms(t, policy);
}

} // verus!
