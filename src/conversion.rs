//! From named terms to de Bruijn terms.
use vstd::prelude::*;
use crate::term::{Lambda, Term as Named};
use crate::de_bruijn::Term as DeBruijn;
use crate::vars::{free_vars, names_of, distinct_names, Variables};

verus! {

/// The names of a naming context.
pub open spec fn context_names(ctx: Seq<String>) -> Seq<Seq<char>> {
    ctx.map_values(|s: String| s@)
}

/// How far from the end of `ctx` the last entry equal to `s` stands: 0 for
/// the last entry.
pub open spec fn index_from_end(ctx: Seq<Seq<char>>, s: Seq<char>) -> nat
    decreases ctx.len(),
{
    if ctx.len() == 0 || ctx.last() == s {
        0
    } else {
        1 + index_from_end(ctx.drop_last(), s)
    }
}

/// The greatest number of abstractions nested in `t`.
pub open spec fn binder_depth(t: Lambda) -> nat
    decreases t,
{
    match t {
        Lambda::Var(_) => 0,
        Lambda::Abs(_, b) => 1 + binder_depth(*b),
        Lambda::App(f, x) => if binder_depth(*f) >= binder_depth(*x) {
            binder_depth(*f)
        } else {
            binder_depth(*x)
        },
    }
}

/// The de Bruijn form of `t` where the binders around it are named by `ctx`,
/// the innermost last.
pub open spec fn to_indexed(t: Lambda, ctx: Seq<Seq<char>>) -> DeBruijn
    decreases t,
{
    match t {
        Lambda::Var(s) => DeBruijn::Variable(index_from_end(ctx, s) as u32),
        Lambda::Abs(n, b) => DeBruijn::Abstraction(Box::new(to_indexed(*b, ctx.push(n)))),
        Lambda::App(f, x) => DeBruijn::Application(
            Box::new(to_indexed(*f, ctx)),
            Box::new(to_indexed(*x, ctx)),
        ),
    }
}

/// Converts named terms to de Bruijn terms under a naming context.
pub struct RemoveNames {
    pub naming_context: Vec<String>,
}

fn position_from_end(ctx: &Vec<String>, s: &String) -> (r: u32)
    requires
        context_names(ctx@).contains(s@),
        ctx@.len() <= u32::MAX,
    ensures
        r == index_from_end(context_names(ctx@), s@),
        r < ctx@.len(),
{
    let ghost names = context_names(ctx@);
    assert(names.subrange(0, ctx@.len() as int) =~= names);
    let mut k: usize = 0;
    loop
        invariant
            names == context_names(ctx@),
            ctx@.len() <= u32::MAX,
            k < ctx@.len(),
            names.subrange(0, ctx@.len() - k).contains(s@),
            index_from_end(names, s@) == k + index_from_end(names.subrange(0, ctx@.len() - k), s@),
        decreases ctx@.len() - k,
    {
        let i = ctx.len() - 1 - k;
        let ghost sub = names.subrange(0, ctx@.len() - k);
        assert(sub.last() == ctx@[i as int]@);
        if ctx[i] == *s {
            return k as u32;
        }
        assert(sub.drop_last() =~= names.subrange(0, ctx@.len() - (k + 1)));
        proof {
            let j = choose|j: int| 0 <= j < sub.len() && sub[j] == s@;
            assert(sub.drop_last()[j] == s@);
        }
        k += 1;
    }
}

impl RemoveNames {
    /// The de Bruijn form of `named`, whose free variables must all be
    /// named in the context.
    pub fn call(&mut self, named: &Named) -> (r: DeBruijn)
        requires
            forall|s: Seq<char>| free_vars(named@).contains(s) ==> context_names(old(self).naming_context@).contains(s),
            old(self).naming_context@.len() + binder_depth(named@) <= u32::MAX,
        ensures
            final(self).naming_context@ == old(self).naming_context@,
            r == to_indexed(named@, context_names(old(self).naming_context@)),
        decreases named,
    {
        match named {
            Named::Variable(s) => {
                assert(free_vars(named@).contains(s@));
                DeBruijn::Variable(position_from_end(&self.naming_context, s))
            },
            Named::Abstraction(n, b) => {
                let ghost before = self.naming_context@;
                self.naming_context.push(n.clone());
                assert(context_names(self.naming_context@) =~= context_names(before).push(n@));
                assert forall|s: Seq<char>| free_vars(b@).contains(s) implies context_names(self.naming_context@).contains(s) by {
                    if s != n@ {
                        assert(free_vars(named@).contains(s));
                        let j = choose|j: int| 0 <= j < context_names(before).len() && context_names(before)[j] == s;
                        assert(context_names(self.naming_context@)[j] == s);
                    } else {
                        assert(context_names(self.naming_context@)[before.len() as int] == s);
                    }
                }
                let body = self.call(b);
                self.naming_context.pop();
                assert(self.naming_context@ =~= before);
                DeBruijn::Abstraction(Box::new(body))
            },
            Named::Application(t1, t2) => {
                assert forall|s: Seq<char>| free_vars(t1@).contains(s) || free_vars(t2@).contains(s)
                    implies context_names(self.naming_context@).contains(s) by {
                    assert(free_vars(named@).contains(s));
                }
                let d1 = self.call(t1);
                let d2 = self.call(t2);
                DeBruijn::Application(Box::new(d1), Box::new(d2))
            },
        }
    }
}

/// Whether no more than `limit` abstractions are nested in `t`.
fn depth_within(t: &Named, limit: u32) -> (r: bool)
    ensures
        r == (binder_depth(t@) <= limit),
    decreases t,
{
    match t {
        Named::Variable(_) => true,
        Named::Abstraction(_, b) => limit > 0 && depth_within(b, limit - 1),
        Named::Application(f, x) => depth_within(f, limit) && depth_within(x, limit),
    }
}

/// The de Bruijn form of `named`, its free variables named by a context that
/// lists each of them once. `None` when the indices would not fit in `u32`.
pub fn to_de_bruijn(named: &Named) -> (r: Option<DeBruijn>)
    ensures
        match r {
            Some(d) => exists|ctx: Seq<String>|
                names_of(ctx) == free_vars(named@) && distinct_names(ctx)
                    && d == to_indexed(named@, context_names(ctx)),
            None => exists|ctx: Seq<String>|
                names_of(ctx) == free_vars(named@) && distinct_names(ctx)
                    && ctx.len() + binder_depth(named@) > u32::MAX,
        },
{
    let fvs = named.free_variables();
    if fvs.len() > u32::MAX as usize {
        return None;
    }
    let limit = u32::MAX - fvs.len() as u32;
    if !depth_within(named, limit) {
        return None;
    }
    let ghost ctx = fvs@;
    assert forall|s: Seq<char>| free_vars(named@).contains(s) implies context_names(ctx).contains(s) by {
        assert(names_of(ctx).contains(s));
        let j = choose|j: int| 0 <= j < ctx.len() && ctx[j]@ == s;
        assert(context_names(ctx)[j] == s);
    }
    let mut conv = RemoveNames { naming_context: fvs };
    let d = conv.call(named);
    Some(d)
}

} // verus!
