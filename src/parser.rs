//! Reading terms from text.
//!
//! A program is a list of statements separated by `;`. A statement is a
//! term, or a definition `name = term` after which `name`, used as a
//! variable, stands for that term. Terms are written with `\` (or `λ`) for
//! abstraction, which extends as far right as it can, and juxtaposition for
//! application, which associates to the left.
use vstd::prelude::*;
use vstd::string::*;
use crate::term::{Lambda, Term};

verus! {

/// A lexical token; a name is given by its character range in the text.
#[derive(PartialEq, Eq, Structural, Clone, Copy, Debug)]
pub enum Token {
    Lambda,
    Dot,
    Open,
    Close,
    Equals,
    Semicolon,
    Name(usize, usize),
}

pub open spec fn is_space(c: char) -> bool {
    c == ' ' || c == '\t' || c == '\n' || c == '\r'
}

pub open spec fn is_name_char(c: char) -> bool {
    ('a' <= c && c <= 'z') || ('A' <= c && c <= 'Z') || ('0' <= c && c <= '9') || c == '_'
        || c == '\''
}

/// The end of the run of name characters that starts at `i`.
pub open spec fn name_end(s: Seq<char>, i: int) -> int
    decreases s.len() - i,
{
    if 0 <= i < s.len() && is_name_char(s[i]) {
        name_end(s, i + 1)
    } else {
        i
    }
}

pub proof fn lemma_name_end(s: Seq<char>, i: int)
    requires
        0 <= i <= s.len(),
    ensures
        i <= name_end(s, i) <= s.len(),
        i < s.len() && is_name_char(s[i]) ==> i < name_end(s, i),
        forall|k: int| i <= k < name_end(s, i) ==> is_name_char(s[k]),
        name_end(s, i) < s.len() ==> !is_name_char(s[name_end(s, i)]),
    decreases s.len() - i,
{
    if i < s.len() && is_name_char(s[i]) {
        lemma_name_end(s, i + 1);
    }
}

/// The tokens of `s` from position `i`; `None` when a character belongs to
/// no token.
pub open spec fn lex(s: Seq<char>, i: int) -> Option<Seq<Token>>
    decreases s.len() - i,
{
    if i < 0 || i >= s.len() {
        Some(Seq::empty())
    } else {
        let c = s[i];
        let single = if c == '\\' || c == 'λ' {
            Some(Token::Lambda)
        } else if c == '.' {
            Some(Token::Dot)
        } else if c == '(' {
            Some(Token::Open)
        } else if c == ')' {
            Some(Token::Close)
        } else if c == '=' {
            Some(Token::Equals)
        } else if c == ';' {
            Some(Token::Semicolon)
        } else {
            None
        };
        if is_space(c) {
            lex(s, i + 1)
        } else if single is Some {
            match lex(s, i + 1) {
                Some(rest) => Some(seq![single.unwrap()] + rest),
                None => None,
            }
        } else if is_name_char(c) {
            let j = name_end(s, i);
            proof {
                lemma_name_end(s, i);
            }
            match lex(s, j) {
                Some(rest) => Some(seq![Token::Name(i as usize, j as usize)] + rest),
                None => None,
            }
        } else {
            None
        }
    }
}

fn is_name_char_exec(c: char) -> (r: bool)
    ensures
        r == is_name_char(c),
{
    ('a' <= c && c <= 'z') || ('A' <= c && c <= 'Z') || ('0' <= c && c <= '9') || c == '_'
        || c == '\''
}

/// The tokens of `text`, or `None` when a character belongs to no token.
pub fn tokenize(text: &str) -> (r: Option<Vec<Token>>)
    ensures
        text@.len() <= usize::MAX,
        match r {
            Some(v) => lex(text@, 0) == Some(v@),
            None => lex(text@, 0) is None,
        },
{
    let len = text.unicode_len();
    let mut i: usize = 0;
    let mut out: Vec<Token> = Vec::new();
    let ghost s = text@;
    while i < len
        invariant
            len == s.len(),
            s == text@,
            i <= len,
            lex(s, 0) == match lex(s, i as int) {
                Some(rest) => Some(out@ + rest),
                None => None::<Seq<Token>>,
            },
        decreases len - i,
    {
        let c = text.get_char(i);
        if c == ' ' || c == '\t' || c == '\n' || c == '\r' {
            i += 1;
        } else {
            let single = if c == '\\' || c == 'λ' {
                Some(Token::Lambda)
            } else if c == '.' {
                Some(Token::Dot)
            } else if c == '(' {
                Some(Token::Open)
            } else if c == ')' {
                Some(Token::Close)
            } else if c == '=' {
                Some(Token::Equals)
            } else if c == ';' {
                Some(Token::Semicolon)
            } else {
                None
            };
            match single {
                Some(t) => {
                    proof {
                        match lex(s, i + 1) {
                            Some(rest) => assert(out@.push(t) + rest =~= out@ + (seq![t] + rest)),
                            None => {},
                        }
                    }
                    out.push(t);
                    i += 1;
                },
                None => {
                    if is_name_char_exec(c) {
                        let start = i;
                        proof {
                            lemma_name_end(s, i as int);
                        }
                        while i < len && is_name_char_exec(text.get_char(i))
                            invariant
                                len == s.len(),
                                s == text@,
                                start < len,
                                start <= i <= len,
                                name_end(s, start as int) == name_end(s, i as int),
                                is_name_char(s[start as int]),
                            decreases len - i,
                        {
                            i += 1;
                        }
                        let t = Token::Name(start, i);
                        proof {
                            match lex(s, i as int) {
                                Some(rest) => assert(out@.push(t) + rest =~= out@ + (seq![t] + rest)),
                                None => {},
                            }
                        }
                        out.push(t);
                    } else {
                        return None;
                    }
                },
            }
        }
    }
    proof {
        assert(out@ + Seq::<Token>::empty() =~= out@);
    }
    Some(out)
}

/// Every name token of `toks` spans a nonempty range within a text of
/// length `len`.
pub open spec fn names_in_range(toks: Seq<Token>, len: int) -> bool {
    forall|k: int, a: usize, b: usize| 0 <= k < toks.len() && toks[k] == Token::Name(a, b) ==> a < b <= len
}

proof fn lemma_lex_names(s: Seq<char>, i: int)
    requires
        0 <= i,
        s.len() <= usize::MAX,
        lex(s, i) is Some,
    ensures
        names_in_range(lex(s, i).unwrap(), s.len() as int),
    decreases s.len() - i,
{
    if i < s.len() {
        let c = s[i];
        if is_space(c) {
            lemma_lex_names(s, i + 1);
        } else if c == '\\' || c == 'λ' || c == '.' || c == '(' || c == ')' || c == '=' || c == ';' {
            lemma_lex_names(s, i + 1);
            let rest = lex(s, i + 1).unwrap();
            assert forall|k: int, a: usize, b: usize| 0 <= k < lex(s, i).unwrap().len()
                && lex(s, i).unwrap()[k] == Token::Name(a, b) implies a < b <= s.len() by {
                assert(lex(s, i).unwrap()[k] == rest[k - 1]);
            }
        } else if is_name_char(c) {
            lemma_name_end(s, i);
            let j = name_end(s, i);
            lemma_lex_names(s, j);
            let rest = lex(s, j).unwrap();
            assert forall|k: int, a: usize, b: usize| 0 <= k < lex(s, i).unwrap().len()
                && lex(s, i).unwrap()[k] == Token::Name(a, b) implies a < b <= s.len() by {
                if k > 0 {
                    assert(lex(s, i).unwrap()[k] == rest[k - 1]);
                }
            }
        }
    }
}

/// The characters that a name token spells.
pub open spec fn token_name(s: Seq<char>, t: Token) -> Seq<char> {
    match t {
        Token::Name(a, b) => s.subrange(a as int, b as int),
        _ => Seq::empty(),
    }
}

/// The term that the latest definition of `name` gives, or the variable
/// `name` when there is none.
pub open spec fn expand(defs: Seq<(Seq<char>, Lambda)>, name: Seq<char>) -> Lambda
    decreases defs.len(),
{
    if defs.len() == 0 {
        Lambda::Var(name)
    } else if defs.last().0 == name {
        defs.last().1
    } else {
        expand(defs.drop_last(), name)
    }
}

pub open spec fn starts_atom(t: Token) -> bool {
    t is Name || t is Open || t is Lambda
}

/// An atom at `pos`: a name, a parenthesised term, or an abstraction. Gives
/// the term and the position after it.
pub open spec fn parse_atom(s: Seq<char>, toks: Seq<Token>, pos: int, defs: Seq<(Seq<char>, Lambda)>) -> Option<(Lambda, int)>
    decreases toks.len() - pos, 0int,
{
    if pos < 0 || pos >= toks.len() {
        None
    } else {
        match toks[pos] {
            Token::Name(_, _) => Some((expand(defs, token_name(s, toks[pos])), pos + 1)),
            Token::Open => match parse_term(s, toks, pos + 1, defs) {
                Some((t, p)) => if pos < p < toks.len() && toks[p] is Close {
                    Some((t, p + 1))
                } else {
                    None
                },
                None => None,
            },
            Token::Lambda => if pos + 2 < toks.len() && toks[pos + 1] is Name && toks[pos + 2] is Dot {
                match parse_term(s, toks, pos + 3, defs) {
                    Some((b, p)) => Some((Lambda::Abs(token_name(s, toks[pos + 1]), Box::new(b)), p)),
                    None => None,
                }
            } else {
                None
            },
            _ => None,
        }
    }
}

/// Applies `acc` to the atoms that follow from `pos`, one after the other.
pub open spec fn parse_rest(s: Seq<char>, toks: Seq<Token>, pos: int, acc: Lambda, defs: Seq<(Seq<char>, Lambda)>) -> Option<(Lambda, int)>
    decreases toks.len() - pos, 1int,
{
    if 0 <= pos < toks.len() && starts_atom(toks[pos]) {
        match parse_atom(s, toks, pos, defs) {
            Some((t, p)) => if pos < p <= toks.len() {
                parse_rest(s, toks, p, Lambda::App(Box::new(acc), Box::new(t)), defs)
            } else {
                None
            },
            None => None,
        }
    } else {
        Some((acc, pos))
    }
}

/// A term at `pos`: one atom or more, applied left to right.
pub open spec fn parse_term(s: Seq<char>, toks: Seq<Token>, pos: int, defs: Seq<(Seq<char>, Lambda)>) -> Option<(Lambda, int)>
    decreases toks.len() - pos, 2int,
{
    match parse_atom(s, toks, pos, defs) {
        Some((t, p)) => if pos < p <= toks.len() {
            parse_rest(s, toks, p, t, defs)
        } else {
            None
        },
        None => None,
    }
}

/// A statement ends at the end of the input or at a `;`.
pub open spec fn statement_end(toks: Seq<Token>, p: int) -> bool {
    p == toks.len() || (0 <= p < toks.len() && toks[p] is Semicolon)
}

/// The statements from `pos`: the terms read, after those in `acc`, and the
/// definitions in force at the end, after those in `defs`.
pub open spec fn parse_statements(
    s: Seq<char>,
    toks: Seq<Token>,
    pos: int,
    defs: Seq<(Seq<char>, Lambda)>,
    acc: Seq<Lambda>,
) -> Option<(Seq<Lambda>, Seq<(Seq<char>, Lambda)>)>
    decreases toks.len() - pos,
{
    if pos < 0 || pos >= toks.len() {
        Some((acc, defs))
    } else if toks[pos] is Semicolon {
        parse_statements(s, toks, pos + 1, defs, acc)
    } else if toks[pos] is Name && pos + 1 < toks.len() && toks[pos + 1] is Equals {
        match parse_term(s, toks, pos + 2, defs) {
            Some((t, p)) => if pos < p <= toks.len() && statement_end(toks, p) {
                parse_statements(s, toks, p, defs.push((token_name(s, toks[pos]), t)), acc)
            } else {
                None
            },
            None => None,
        }
    } else {
        match parse_term(s, toks, pos, defs) {
            Some((t, p)) => if pos < p <= toks.len() && statement_end(toks, p) {
                parse_statements(s, toks, p, defs, acc.push(t))
            } else {
                None
            },
            None => None,
        }
    }
}

/// The model of a list of definitions.
pub open spec fn defs_view(v: Seq<(String, Term)>) -> Seq<(Seq<char>, Lambda)> {
    v.map_values(|d: (String, Term)| (d.0@, d.1@))
}

/// The model of a list of terms.
pub open spec fn terms_view(v: Seq<Term>) -> Seq<Lambda> {
    v.map_values(|t: Term| t@)
}

/// The model of a parse result at a position.
pub open spec fn at_view(r: Option<(Term, usize)>) -> Option<(Lambda, int)> {
    match r {
        Some((t, p)) => Some((t@, p as int)),
        None => None,
    }
}

fn name_of(text: &str, t: Token) -> (r: String)
    requires
        t is Name ==> t->0 < t->1 <= text@.len(),
    ensures
        r@ == token_name(text@, t),
{
    match t {
        Token::Name(a, b) => String::from_str(text.substring_char(a, b)),
        _ => String::new(),
    }
}

fn expand_exec(defs: &Vec<(String, Term)>, name: &String) -> (r: Term)
    ensures
        r@ == expand(defs_view(defs@), name@),
{
    let ghost all = defs_view(defs@);
    let mut k: usize = defs.len();
    assert(all.subrange(0, k as int) =~= all);
    while k > 0
        invariant
            k <= defs.len(),
            all == defs_view(defs@),
            expand(all, name@) == expand(all.subrange(0, k as int), name@),
        decreases k,
    {
        let ghost sub = all.subrange(0, k as int);
        assert(sub.last() == (defs@[k - 1].0@, defs@[k - 1].1@));
        if defs[k - 1].0 == *name {
            return defs[k - 1].1.clone();
        }
        assert(sub.drop_last() =~= all.subrange(0, k - 1));
        k -= 1;
    }
    Term::Variable(name.clone())
}

fn parse_atom_exec(text: &str, toks: &Vec<Token>, pos: usize, defs: &Vec<(String, Term)>) -> (r: Option<(Term, usize)>)
    requires
        names_in_range(toks@, text@.len() as int),
    ensures
        at_view(r) == parse_atom(text@, toks@, pos as int, defs_view(defs@)),
    decreases toks@.len() - pos, 0int,
{
    if pos >= toks.len() {
        return None;
    }
    match toks[pos] {
        Token::Name(_, _) => {
            let name = name_of(text, toks[pos]);
            Some((expand_exec(defs, &name), pos + 1))
        },
        Token::Open => match parse_term_exec(text, toks, pos + 1, defs) {
            Some((t, p)) => if pos < p && p < toks.len() && toks[p] == Token::Close {
                Some((t, p + 1))
            } else {
                None
            },
            None => None,
        },
        Token::Lambda => {
            if toks.len() - pos > 2 && matches!(toks[pos + 1], Token::Name(_, _)) && toks[pos + 2] == Token::Dot {
                match parse_term_exec(text, toks, pos + 3, defs) {
                    Some((b, p)) => {
                        let name = name_of(text, toks[pos + 1]);
                        Some((Term::Abstraction(name, Box::new(b)), p))
                    },
                    None => None,
                }
            } else {
                None
            }
        },
        _ => None,
    }
}

fn parse_rest_exec(text: &str, toks: &Vec<Token>, pos: usize, acc: Term, defs: &Vec<(String, Term)>) -> (r: Option<(Term, usize)>)
    requires
        names_in_range(toks@, text@.len() as int),
    ensures
        at_view(r) == parse_rest(text@, toks@, pos as int, acc@, defs_view(defs@)),
    decreases toks@.len() - pos, 1int,
{
    if pos < toks.len() && (matches!(toks[pos], Token::Name(_, _)) || toks[pos] == Token::Open || toks[pos] == Token::Lambda) {
        match parse_atom_exec(text, toks, pos, defs) {
            Some((t, p)) => if pos < p && p <= toks.len() {
                parse_rest_exec(text, toks, p, Term::Application(Box::new(acc), Box::new(t)), defs)
            } else {
                None
            },
            None => None,
        }
    } else {
        Some((acc, pos))
    }
}

fn parse_term_exec(text: &str, toks: &Vec<Token>, pos: usize, defs: &Vec<(String, Term)>) -> (r: Option<(Term, usize)>)
    requires
        names_in_range(toks@, text@.len() as int),
    ensures
        at_view(r) == parse_term(text@, toks@, pos as int, defs_view(defs@)),
    decreases toks@.len() - pos, 2int,
{
    match parse_atom_exec(text, toks, pos, defs) {
        Some((t, p)) => if pos < p && p <= toks.len() {
            parse_rest_exec(text, toks, p, t, defs)
        } else {
            None
        },
        None => None,
    }
}

/// Why a text could not be read.
#[derive(PartialEq, Eq, Structural, Clone, Copy, Debug)]
pub enum ParseError {
    /// A character that belongs to no token.
    InvalidCharacter,
    /// Tokens that do not form statements.
    UnexpectedToken,
    /// A text that holds no term where one was asked for.
    NoTerms,
}

/// What reading `text` with the definitions `defs` in force gives: the terms
/// and the definitions in force after it, or the error.
pub open spec fn read_program(text: Seq<char>, defs: Seq<(Seq<char>, Lambda)>) -> Result<
    (Seq<Lambda>, Seq<(Seq<char>, Lambda)>),
    ParseError,
> {
    match lex(text, 0) {
        None => Err(ParseError::InvalidCharacter),
        Some(toks) => match parse_statements(text, toks, 0, defs, Seq::empty()) {
            None => Err(ParseError::UnexpectedToken),
            Some(r) => Ok(r),
        },
    }
}

/// Reads programs, keeping the definitions made from one to the next.
pub struct Parser {
    /// The definitions in force, the latest last.
    pub macros: Vec<(String, Term)>,
}

impl Parser {
    /// A parser with no definitions.
    pub fn new() -> (r: Parser)
        ensures
            r.macros@.len() == 0,
    {
        Parser { macros: Vec::new() }
    }

    /// Reads the terms of `text`. Its definitions stay in force for later
    /// calls; on an error the definitions are left as they were.
    pub fn parse(&mut self, text: &str) -> (r: Result<Vec<Term>, ParseError>)
        ensures
            match read_program(text@, defs_view(old(self).macros@)) {
                Ok((ts, defs)) => r is Ok && terms_view(r->Ok_0@) == ts && defs_view(final(self).macros@) == defs,
                Err(e) => r == Err::<Vec<Term>, ParseError>(e) && final(self).macros@ == old(self).macros@,
            },
    {
        let toks = match tokenize(text) {
            Some(t) => t,
            None => {
                return Err(ParseError::InvalidCharacter);
            },
        };
        proof {
            lemma_lex_names(text@, 0);
        }
        let ghost s = text@;
        let ghost m0 = self.macros@;
        let ghost d0 = defs_view(m0);
        let mut defs: Vec<(String, Term)> = Vec::new();
        std::mem::swap(&mut defs, &mut self.macros);
        let n0 = defs.len();
        let mut terms: Vec<Term> = Vec::new();
        let mut pos: usize = 0;
        assert(terms_view(terms@) =~= Seq::empty());
        loop
            invariant
                s == text@,
                m0 == old(self).macros@,
                d0 == defs_view(m0),
                names_in_range(toks@, text@.len() as int),
                lex(s, 0) == Some(toks@),
                pos <= toks.len(),
                n0 == m0.len(),
                n0 <= defs@.len(),
                defs@.subrange(0, n0 as int) == m0,
                parse_statements(s, toks@, 0, d0, Seq::empty()) == parse_statements(
                    s,
                    toks@,
                    pos as int,
                    defs_view(defs@),
                    terms_view(terms@),
                ),
            decreases toks.len() - pos,
        {
            if pos >= toks.len() {
                self.macros = defs;
                return Ok(terms);
            }
            if toks[pos] == Token::Semicolon {
                pos += 1;
            } else if matches!(toks[pos], Token::Name(_, _)) && toks.len() - pos > 1 && toks[pos + 1] == Token::Equals {
                match parse_term_exec(text, &toks, pos + 2, &defs) {
                    Some((t, p)) => {
                        if pos < p && p <= toks.len() && (p == toks.len() || toks[p] == Token::Semicolon) {
                            let name = name_of(text, toks[pos]);
                            let ghost before = defs@;
                            defs.push((name, t));
                            assert(defs_view(defs@) =~= defs_view(before).push((name@, t@)));
                            assert(defs@.subrange(0, n0 as int) =~= before.subrange(0, n0 as int));
                            pos = p;
                        } else {
                            defs.truncate(n0);
                            self.macros = defs;
                            return Err(ParseError::UnexpectedToken);
                        }
                    },
                    None => {
                        defs.truncate(n0);
                        self.macros = defs;
                        return Err(ParseError::UnexpectedToken);
                    },
                }
            } else {
                match parse_term_exec(text, &toks, pos, &defs) {
                    Some((t, p)) => {
                        if pos < p && p <= toks.len() && (p == toks.len() || toks[p] == Token::Semicolon) {
                            let ghost before = terms@;
                            terms.push(t);
                            assert(terms_view(terms@) =~= terms_view(before).push(t@));
                            pos = p;
                        } else {
                            defs.truncate(n0);
                            self.macros = defs;
                            return Err(ParseError::UnexpectedToken);
                        }
                    },
                    None => {
                        defs.truncate(n0);
                        self.macros = defs;
                        return Err(ParseError::UnexpectedToken);
                    },
                }
            }
        }
    }
}

/// Reads the terms of `text`, with no definitions in force at the start.
pub fn parse(text: &str) -> (r: Result<Vec<Term>, ParseError>)
    ensures
        match read_program(text@, Seq::empty()) {
            Ok((ts, _)) => r is Ok && terms_view(r->Ok_0@) == ts,
            Err(e) => r == Err::<Vec<Term>, ParseError>(e),
        },
{
    let mut parser = Parser::new();
    assert(defs_view(parser.macros@) =~= Seq::empty());
    parser.parse(text)
}

/// Reads the first term of `text`, with no definitions in force at the start.
pub fn parse_one(text: &str) -> (r: Result<Term, ParseError>)
    ensures
        match read_program(text@, Seq::empty()) {
            Ok((ts, _)) => if ts.len() == 0 {
                r == Err::<Term, ParseError>(ParseError::NoTerms)
            } else {
                r is Ok && r->Ok_0@ == ts[0]
            },
            Err(e) => r == Err::<Term, ParseError>(e),
        },
{
    match parse(text) {
        Ok(mut terms) => {
            if terms.len() == 0 {
                Err(ParseError::NoTerms)
            } else {
                let ghost v = terms@;
                assert(terms_view(v)[0] == v[0]@);
                Ok(terms.remove(0))
            }
        },
        Err(e) => Err(e),
    }
}

} // verus!
