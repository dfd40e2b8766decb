//! Lambda terms in de Bruijn notation: a variable is the number of binders
//! between it and its own.
use vstd::prelude::*;
use crate::term::Notation;

verus! {

/// A lambda term whose variables are de Bruijn indices.
#[derive(PartialEq, Debug)]
pub enum Term {
    Variable(u32),
    Abstraction(Box<Term>),
    Application(Box<Term>, Box<Term>),
}

impl Clone for Term {
    fn clone(&self) -> (r: Term)
        ensures
            r == *self,
        decreases self,
    {
        match self {
            Term::Variable(i) => Term::Variable(*i),
            Term::Abstraction(b) => Term::Abstraction(Box::new((**b).clone())),
            Term::Application(t1, t2) => Term::Application(
                Box::new((**t1).clone()),
                Box::new((**t2).clone()),
            ),
        }
    }
}

/// A redex reachable without entering an abstraction.
pub open spec fn spec_is_redex(t: Term) -> bool
    decreases t,
{
    match t {
        Term::Application(f, x) => match *f {
            Term::Abstraction(_) => true,
            _ => spec_is_redex(*f) || spec_is_redex(*x),
        },
        _ => false,
    }
}

impl Term {
    pub fn is_redex(&self) -> (r: bool)
        ensures
            r == spec_is_redex(*self),
        decreases self,
    {
        match self {
            Term::Application(t1, t2) => match &**t1 {
                Term::Abstraction(_) => true,
                _ => t1.is_redex() || t2.is_redex(),
            },
            _ => false,
        }
    }

    pub fn is_value(&self) -> (r: bool)
        ensures
            r == (*self is Abstraction),
    {
        match self {
            Term::Abstraction(_) => true,
            _ => false,
        }
    }
}

/// Builds an abstraction with the given body.
pub fn l(body: Term) -> (r: Term)
    ensures
        r == Term::Abstraction(Box::new(body)),
{
    Term::Abstraction(Box::new(body))
}

/// Builds the application `t1 t2`.
pub fn a(t1: Term, t2: Term) -> (r: Term)
    ensures
        r == Term::Application(Box::new(t1), Box::new(t2)),
{
    Term::Application(Box::new(t1), Box::new(t2))
}

/// Builds the variable with index `index`.
pub fn v(index: u32) -> (r: Term)
    ensures
        r == Term::Variable(index),
{
    Term::Variable(index)
}

impl Notation for Term {
    type VariableName = u32;

    fn application(func: Term, arg: Term) -> (r: Term)
        ensures
            r == Term::Application(Box::new(func), Box::new(arg)),
    {
        Term::Application(Box::new(func), Box::new(arg))
    }

    /// The bound name is not kept: indices refer to binders by position.
    fn abstraction(bound_var_name: u32, body: Term) -> (r: Term)
        ensures
            r == Term::Abstraction(Box::new(body)),
    {
        Term::Abstraction(Box::new(body))
    }

    fn variable(name: u32) -> (r: Term)
        ensures
            r == Term::Variable(name),
    {
        Term::Variable(name)
    }
}

} // verus!
