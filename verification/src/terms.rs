//! RDF terms, triple patterns and encoded triples.

use vstd::prelude::*;
use crate::text::str_equal;

verus! {

/// A term of a triple pattern: a variable, a dictionary-encoded constant,
/// or a quoted triple.
#[derive(Debug)]
pub enum Term {
    Variable(String),
    Constant(u32),
    QuotedTriple(Box<(Term, Term, Term)>),
}

/// Subject, predicate and object of a pattern.
pub type TriplePattern = (Term, Term, Term);

/// A triple of dictionary ids.
#[derive(Debug, Clone, Copy, PartialEq, Eq, Hash, Structural)]
pub struct Triple {
    pub subject: u32,
    pub predicate: u32,
    pub object: u32,
}

/// The mathematical value of a term.
pub enum TermM {
    Variable(Seq<char>),
    Constant(u32),
    QuotedTriple(Box<(TermM, TermM, TermM)>),
}

/// The mathematical value of a pattern.
pub type PatternM = (TermM, TermM, TermM);

/// The value of a term: its strings as character sequences.
pub open spec fn term_model(t: Term) -> TermM
    decreases t,
{
    match t {
        Term::Variable(v) => TermM::Variable(v@),
        Term::Constant(c) => TermM::Constant(c),
        Term::QuotedTriple(q) => TermM::QuotedTriple(
            Box::new((term_model(q.0), term_model(q.1), term_model(q.2))),
        ),
    }
}

impl View for Term {
    type V = TermM;

    open spec fn view(&self) -> TermM {
        term_model(*self)
    }
}

impl DeepView for Term {
    type V = TermM;

    open spec fn deep_view(&self) -> TermM {
        term_model(*self)
    }
}

/// Whether a term is a constant.
pub open spec fn is_constant(t: TermM) -> bool {
    t is Constant
}

/// Whether a term is the variable with the given name.
pub open spec fn is_variable_named(t: TermM, name: Seq<char>) -> bool {
    match t {
        TermM::Variable(v) => v == name,
        _ => false,
    }
}

/// Number of constant positions of a pattern.
pub open spec fn bound_count(p: PatternM) -> nat {
    (if is_constant(p.0) { 1nat } else { 0nat }) + (if is_constant(p.1) { 1nat } else { 0nat }) + (
    if is_constant(p.2) { 1nat } else { 0nat })
}

/// Whether some position of the pattern is the named variable.
pub open spec fn pattern_has_variable(p: PatternM, name: Seq<char>) -> bool {
    is_variable_named(p.0, name) || is_variable_named(p.1, name) || is_variable_named(p.2, name)
}

/// Counts the number of bound terms (constants) in a triple pattern.
pub fn count_bound_terms(pattern: &TriplePattern) -> (n: usize)
    ensures
        n == bound_count(pattern@),
        n <= 3,
{
    let mut count: usize = 0;
    if matches!(&pattern.0, Term::Constant(_)) {
        count += 1;
    }
    if matches!(&pattern.1, Term::Constant(_)) {
        count += 1;
    }
    if matches!(&pattern.2, Term::Constant(_)) {
        count += 1;
    }
    count
}

/// Whether `t` is the variable `var`.
pub fn term_is_variable(t: &Term, var: &str) -> (r: bool)
    ensures
        r == is_variable_named(t@, var@),
{
    match t {
        Term::Variable(v) => str_equal(v.as_str(), var),
        _ => false,
    }
}

/// Checks if a pattern contains a specific variable.
pub fn pattern_contains_variable(pattern: &TriplePattern, var: &str) -> (r: bool)
    ensures
        r == pattern_has_variable(pattern@, var@),
{
    term_is_variable(&pattern.0, var) || term_is_variable(&pattern.1, var) || term_is_variable(
        &pattern.2,
        var,
    )
}

/// Term equality, strings compared by their characters.
pub fn term_eq(a: &Term, b: &Term) -> (r: bool)
    ensures
        r == (a@ == b@),
    decreases a,
{
    match (a, b) {
        (Term::Variable(x), Term::Variable(y)) => str_equal(x.as_str(), y.as_str()),
        (Term::Constant(x), Term::Constant(y)) => *x == *y,
        (Term::QuotedTriple(x), Term::QuotedTriple(y)) => {
            term_eq(&x.0, &y.0) && term_eq(&x.1, &y.1) && term_eq(&x.2, &y.2)
        },
        _ => false,
    }
}

/// Pattern equality, strings compared by their characters.
pub fn pattern_eq(a: &TriplePattern, b: &TriplePattern) -> (r: bool)
    ensures
        r == (a@ == b@),
{
    term_eq(&a.0, &b.0) && term_eq(&a.1, &b.1) && term_eq(&a.2, &b.2)
}

/// A copy of a term.
pub fn copy_term(t: &Term) -> (r: Term)
    ensures
        r@ == t@,
    decreases t,
{
    match t {
        Term::Variable(v) => Term::Variable(v.clone()),
        Term::Constant(c) => Term::Constant(*c),
        Term::QuotedTriple(q) => Term::QuotedTriple(
            Box::new((copy_term(&q.0), copy_term(&q.1), copy_term(&q.2))),
        ),
    }
}

/// A copy of a pattern.
pub fn copy_pattern(p: &TriplePattern) -> (r: TriplePattern)
    ensures
        r@ == p@,
{
    (copy_term(&p.0), copy_term(&p.1), copy_term(&p.2))
}

/// A copy of a list of strings.
pub fn copy_strings(v: &Vec<String>) -> (r: Vec<String>)
    ensures
        r.deep_view() == v.deep_view(),
{
    let mut r: Vec<String> = Vec::new();
    let mut i: usize = 0;
    while i < v.len()
        invariant
            i <= v@.len(),
            r@.len() == i,
            r.deep_view() == v.deep_view().subrange(0, i as int),
        decreases v@.len() - i,
    {
        let ghost prev = r@;
        let ghost prevd = r.deep_view();
        r.push(v[i].clone());
        proof {
            assert(r@ == prev.push(r@[i as int]));
            assert forall|j: int| 0 <= j < i + 1 implies #[trigger] r.deep_view()[j] == v.deep_view()[j] by {
                assert(r.deep_view()[j] == r@[j].deep_view());
                assert(v.deep_view()[j] == v@[j].deep_view());
                if j < i {
                    assert(r@[j] == prev[j]);
                    assert(prevd[j] == prev[j].deep_view());
                }
            }
            assert(r.deep_view() =~= v.deep_view().subrange(0, i + 1));
        }
        i = i + 1;
    }
    assert(r.deep_view() =~= v.deep_view());
    r
}

/// A copy of a list of patterns.
pub fn copy_patterns(v: &Vec<TriplePattern>) -> (r: Vec<TriplePattern>)
    ensures
        r.deep_view() == v.deep_view(),
{
    let mut r: Vec<TriplePattern> = Vec::new();
    let mut i: usize = 0;
    while i < v.len()
        invariant
            i <= v@.len(),
            r@.len() == i,
            r.deep_view() == v.deep_view().subrange(0, i as int),
        decreases v@.len() - i,
    {
        let ghost prev = r@;
        let ghost prevd = r.deep_view();
        r.push(copy_pattern(&v[i]));
        proof {
            assert(r@ == prev.push(r@[i as int]));
            assert forall|j: int| 0 <= j < i + 1 implies #[trigger] r.deep_view()[j] == v.deep_view()[j] by {
                assert(r.deep_view()[j] == r@[j].deep_view());
                assert(v.deep_view()[j] == v@[j].deep_view());
                if j < i {
                    assert(r@[j] == prev[j]);
                    assert(prevd[j] == prev[j].deep_view());
                }
            }
            assert(r.deep_view() =~= v.deep_view().subrange(0, i + 1));
        }
        i = i + 1;
    }
    assert(r.deep_view() =~= v.deep_view());
    r
}

} // verus!
