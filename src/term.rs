//! Lambda terms with named variables.
use vstd::prelude::*;
use vstd::string::*;

verus! {

/// The mathematical model of a term: names are character sequences.
pub enum Lambda {
    Var(Seq<char>),
    Abs(Seq<char>, Box<Lambda>),
    App(Box<Lambda>, Box<Lambda>),
}

/// A lambda term whose variables are named by strings.
#[derive(PartialEq, Debug)]
pub enum Term {
    Variable(String),
    Abstraction(String, Box<Term>),
    Application(Box<Term>, Box<Term>),
}

impl Clone for Term {
    fn clone(&self) -> (r: Term)
        ensures
            r@ == self@,
        decreases self,
    {
        match self {
            Term::Variable(s) => Term::Variable(s.clone()),
            Term::Abstraction(n, b) => Term::Abstraction(n.clone(), Box::new((**b).clone())),
            Term::Application(t1, t2) => Term::Application(
                Box::new((**t1).clone()),
                Box::new((**t2).clone()),
            ),
        }
    }
}

impl View for Term {
    type V = Lambda;

    open spec fn view(&self) -> Lambda
        decreases self,
    {
        match self {
            Term::Variable(s) => Lambda::Var(s@),
            Term::Abstraction(n, b) => Lambda::Abs(n@, Box::new((**b).view())),
            Term::Application(t1, t2) => Lambda::App(Box::new((**t1).view()), Box::new((**t2).view())),
        }
    }
}

/// A redex reachable without entering an abstraction: the term is an
/// application whose spine or argument holds an abstraction applied to something.
pub open spec fn spec_is_redex(t: Lambda) -> bool
    decreases t,
{
    match t {
        Lambda::App(f, x) => match *f {
            Lambda::Abs(_, _) => true,
            _ => spec_is_redex(*f) || spec_is_redex(*x),
        },
        _ => false,
    }
}

/// A redex anywhere in the term, under abstractions too.
pub open spec fn contains_redex(t: Lambda) -> bool
    decreases t,
{
    match t {
        Lambda::Var(_) => false,
        Lambda::Abs(_, b) => contains_redex(*b),
        Lambda::App(f, x) => (*f) is Abs || contains_redex(*f) || contains_redex(*x),
    }
}

/// A value is an abstraction.
pub open spec fn spec_is_value(t: Lambda) -> bool {
    t is Abs
}

impl Term {
    /// Whether the term holds a redex outside every abstraction.
    pub fn is_redex(&self) -> (r: bool)
        ensures
            r == spec_is_redex(self@),
        decreases self,
    {
        match self {
            Term::Application(t1, t2) => {
                let r = match &**t1 {
                    Term::Abstraction(_, _) => true,
                    _ => t1.is_redex() || t2.is_redex(),
                };
                proof {
                    assert(t1@ is Abs <==> (**t1 is Abstraction));
                }
                r
            },
            _ => false,
        }
    }

    /// Whether the term holds a redex anywhere.
    pub fn has_redex(&self) -> (r: bool)
        ensures
            r == contains_redex(self@),
        decreases self,
    {
        match self {
            Term::Variable(_) => false,
            Term::Abstraction(_, b) => b.has_redex(),
            Term::Application(t1, t2) => {
                let r = match &**t1 {
                    Term::Abstraction(_, _) => true,
                    _ => t1.has_redex() || t2.has_redex(),
                };
                proof {
                    assert(t1@ is Abs <==> (**t1 is Abstraction));
                }
                r
            },
        }
    }

    /// Whether the term is a value, that is an abstraction.
    pub fn is_value(&self) -> (r: bool)
        ensures
            r == spec_is_value(self@),
    {
        match self {
            Term::Abstraction(_, _) => true,
            _ => false,
        }
    }
}

/// The text of a term: `λn.body` for an abstraction, juxtaposition for an
/// application, with parentheses around each side that is not a variable.
pub open spec fn rendered(t: Lambda) -> Seq<char>
    decreases t,
{
    match t {
        Lambda::Var(s) => s,
        Lambda::Abs(n, b) => seq!['λ'] + n + seq!['.'] + rendered(*b),
        Lambda::App(f, x) => {
            let fs = if (*f) is Var {
                rendered(*f)
            } else {
                seq!['('] + rendered(*f) + seq![')']
            };
            let xs = if (*x) is Var {
                rendered(*x)
            } else {
                seq!['('] + rendered(*x) + seq![')']
            };
            fs + seq![' '] + xs
        },
    }
}

impl Term {
    /// Appends the text of the term to `out`.
    fn render_into(&self, out: &mut String)
        ensures
            final(out)@ == old(out)@ + rendered(self@),
        decreases self,
    {
        proof {
            reveal_strlit("λ");
            reveal_strlit(".");
            reveal_strlit("(");
            reveal_strlit(")");
            reveal_strlit(" ");
        }
        match self {
            Term::Variable(s) => {
                out.append(s.as_str());
            },
            Term::Abstraction(n, b) => {
                let ghost start = out@;
                out.append("λ");
                out.append(n.as_str());
                out.append(".");
                b.render_into(out);
                assert(out@ =~= start + rendered(self@));
            },
            Term::Application(f, x) => {
                let ghost start = out@;
                let fv = f.is_variable();
                if !fv {
                    out.append("(");
                }
                f.render_into(out);
                if !fv {
                    out.append(")");
                }
                out.append(" ");
                let xv = x.is_variable();
                if !xv {
                    out.append("(");
                }
                x.render_into(out);
                if !xv {
                    out.append(")");
                }
                assert(out@ =~= start + rendered(self@));
            },
        }
    }

    /// The text of the term.
    pub fn render(&self) -> (r: String)
        ensures
            r@ == rendered(self@),
    {
        let mut out = String::new();
        self.render_into(&mut out);
        assert(out@ =~= rendered(self@));
        out
    }

    fn is_variable(&self) -> (r: bool)
        ensures
            r == (self@ is Var),
    {
        match self {
            Term::Variable(_) => true,
            _ => false,
        }
    }
}

/// Builds the abstraction `λname.body`.
pub fn l(name: &str, body: Term) -> (r: Term)
    ensures
        r@ == Lambda::Abs(name@, Box::new(body@)),
{
    Term::Abstraction(String::from_str(name), Box::new(body))
}

/// Builds the application `t1 t2`.
pub fn a(t1: Term, t2: Term) -> (r: Term)
    ensures
        r@ == Lambda::App(Box::new(t1@), Box::new(t2@)),
{
    Term::Application(Box::new(t1), Box::new(t2))
}

/// Builds the variable `name`.
pub fn v(name: &str) -> (r: Term)
    ensures
        r@ == Lambda::Var(name@),
{
    Term::Variable(String::from_str(name))
}

/// The constructors that each notation of terms offers.
pub trait Notation: Sized {
    /// How a variable is named.
    type VariableName;

    /// The application of `func` to `arg`.
    fn application(func: Self, arg: Self) -> Self;

    /// The abstraction of `body` over `bound_var_name`.
    fn abstraction(bound_var_name: Self::VariableName, body: Self) -> Self;

    /// The variable `name`.
    fn variable(name: Self::VariableName) -> Self;
}

impl Notation for Term {
    type VariableName = String;

    fn application(func: Term, arg: Term) -> (r: Term)
        ensures
            r@ == Lambda::App(Box::new(func@), Box::new(arg@)),
    {
        Term::Application(Box::new(func), Box::new(arg))
    }

    fn abstraction(bound_var_name: String, body: Term) -> (r: Term)
        ensures
            r@ == Lambda::Abs(bound_var_name@, Box::new(body@)),
    {
        Term::Abstraction(bound_var_name, Box::new(body))
    }

    fn variable(name: String) -> (r: Term)
        ensures
            r@ == Lambda::Var(name@),
    {
        Term::Variable(name)
    }
}

} // verus!
