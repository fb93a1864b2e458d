//! Parsed query components: filters, VALUES, RUN clauses and subqueries.

use vstd::prelude::*;
use crate::terms::copy_strings;

verus! {

/// An arithmetic expression inside a filter.
#[derive(Debug)]
pub enum ArithmeticExpression {
    Operand(String),
    Add(Box<ArithmeticExpression>, Box<ArithmeticExpression>),
    Subtract(Box<ArithmeticExpression>, Box<ArithmeticExpression>),
    Multiply(Box<ArithmeticExpression>, Box<ArithmeticExpression>),
    Divide(Box<ArithmeticExpression>, Box<ArithmeticExpression>),
}

/// A FILTER expression.
#[derive(Debug)]
pub enum FilterExpression {
    /// Variable, operator, value.
    Comparison(String, String, String),
    And(Box<FilterExpression>, Box<FilterExpression>),
    Or(Box<FilterExpression>, Box<FilterExpression>),
    Not(Box<FilterExpression>),
    ArithmeticExpr(ArithmeticExpression),
    FunctionCall(String, Vec<String>),
}

/// A selection condition of a plan.
#[derive(Debug)]
pub struct Condition {
    pub expression: FilterExpression,
}

impl Condition {
    /// The condition that a filter expression states.
    pub fn from_filter(expression: FilterExpression) -> (c: Condition)
        ensures
            c.expression == expression,
    {
        Condition { expression }
    }
}

/// One cell of a VALUES row.
#[derive(Debug)]
pub enum Value {
    Term(String),
    Undef,
}

/// A VALUES clause: variables and rows.
#[derive(Debug)]
pub struct ValuesClause {
    pub variables: Vec<String>,
    pub values: Vec<Vec<Value>>,
}

/// A RUN clause: run the models found at `on` on the `run` variables, binding `to`.
#[derive(Debug)]
pub struct MLClause {
    pub run: Vec<String>,
    pub on: String,
    pub to: String,
}

/// A nested SELECT.
#[derive(Debug)]
pub struct SubQuery {
    /// (kind, variable, aggregation output).
    pub variables: Vec<(String, String, Option<String>)>,
    pub patterns: Vec<(String, String, String)>,
    pub filters: Vec<FilterExpression>,
    /// (function, arguments, output variable).
    pub binds: Vec<(String, Vec<String>, String)>,
    pub ml_run_clause: Option<MLClause>,
}

/// The value of an arithmetic expression.
pub enum ArithM {
    Operand(Seq<char>),
    Add(Box<ArithM>, Box<ArithM>),
    Subtract(Box<ArithM>, Box<ArithM>),
    Multiply(Box<ArithM>, Box<ArithM>),
    Divide(Box<ArithM>, Box<ArithM>),
}

/// The value of a filter expression.
pub enum FilterM {
    Comparison(Seq<char>, Seq<char>, Seq<char>),
    And(Box<FilterM>, Box<FilterM>),
    Or(Box<FilterM>, Box<FilterM>),
    Not(Box<FilterM>),
    ArithmeticExpr(ArithM),
    FunctionCall(Seq<char>, Seq<Seq<char>>),
}

/// The value of an arithmetic expression: strings as character sequences.
pub open spec fn arith_model(e: ArithmeticExpression) -> ArithM
    decreases e,
{
    match e {
        ArithmeticExpression::Operand(s) => ArithM::Operand(s@),
        ArithmeticExpression::Add(l, r) => ArithM::Add(Box::new(arith_model(*l)), Box::new(arith_model(*r))),
        ArithmeticExpression::Subtract(l, r) => ArithM::Subtract(
            Box::new(arith_model(*l)),
            Box::new(arith_model(*r)),
        ),
        ArithmeticExpression::Multiply(l, r) => ArithM::Multiply(
            Box::new(arith_model(*l)),
            Box::new(arith_model(*r)),
        ),
        ArithmeticExpression::Divide(l, r) => ArithM::Divide(
            Box::new(arith_model(*l)),
            Box::new(arith_model(*r)),
        ),
    }
}

/// The value of a filter expression: strings as character sequences.
pub open spec fn filter_model(f: FilterExpression) -> FilterM
    decreases f,
{
    match f {
        FilterExpression::Comparison(a, b, c) => FilterM::Comparison(a@, b@, c@),
        FilterExpression::And(l, r) => FilterM::And(Box::new(filter_model(*l)), Box::new(filter_model(*r))),
        FilterExpression::Or(l, r) => FilterM::Or(Box::new(filter_model(*l)), Box::new(filter_model(*r))),
        FilterExpression::Not(i) => FilterM::Not(Box::new(filter_model(*i))),
        FilterExpression::ArithmeticExpr(e) => FilterM::ArithmeticExpr(arith_model(e)),
        FilterExpression::FunctionCall(n, a) => FilterM::FunctionCall(n@, a.deep_view()),
    }
}

impl View for ArithmeticExpression {
    type V = ArithM;

    open spec fn view(&self) -> ArithM {
        arith_model(*self)
    }
}

impl View for FilterExpression {
    type V = FilterM;

    open spec fn view(&self) -> FilterM {
        filter_model(*self)
    }
}

impl DeepView for FilterExpression {
    type V = FilterM;

    open spec fn deep_view(&self) -> FilterM {
        filter_model(*self)
    }
}

/// The value of a VALUES cell: a term, or nothing for UNDEF.
pub open spec fn value_model(v: Value) -> Option<Seq<char>> {
    match v {
        Value::Term(t) => Some(t@),
        Value::Undef => None,
    }
}

impl DeepView for Value {
    type V = Option<Seq<char>>;

    open spec fn deep_view(&self) -> Option<Seq<char>> {
        value_model(*self)
    }
}

impl View for Condition {
    type V = FilterM;

    open spec fn view(&self) -> FilterM {
        filter_model(self.expression)
    }
}

/// A copy of an arithmetic expression.
pub fn copy_arith(e: &ArithmeticExpression) -> (r: ArithmeticExpression)
    ensures
        r@ == e@,
    decreases e,
{
    match e {
        ArithmeticExpression::Operand(s) => ArithmeticExpression::Operand(s.clone()),
        ArithmeticExpression::Add(l, r) => ArithmeticExpression::Add(
            Box::new(copy_arith(l)),
            Box::new(copy_arith(r)),
        ),
        ArithmeticExpression::Subtract(l, r) => ArithmeticExpression::Subtract(
            Box::new(copy_arith(l)),
            Box::new(copy_arith(r)),
        ),
        ArithmeticExpression::Multiply(l, r) => ArithmeticExpression::Multiply(
            Box::new(copy_arith(l)),
            Box::new(copy_arith(r)),
        ),
        ArithmeticExpression::Divide(l, r) => ArithmeticExpression::Divide(
            Box::new(copy_arith(l)),
            Box::new(copy_arith(r)),
        ),
    }
}

/// A copy of a filter expression (owned strings throughout).
pub fn make_filter_static(filter: &FilterExpression) -> (res: FilterExpression)
    ensures
        res@ == filter@,
    decreases filter,
{
    match filter {
        FilterExpression::Comparison(a, b, c) => {
            let x = a.clone();
            let y = b.clone();
            let z = c.clone();
            FilterExpression::Comparison(x, y, z)
        },
        FilterExpression::And(left, right) => FilterExpression::And(
            Box::new(make_filter_static(left)),
            Box::new(make_filter_static(right)),
        ),
        FilterExpression::Or(left, right) => FilterExpression::Or(
            Box::new(make_filter_static(left)),
            Box::new(make_filter_static(right)),
        ),
        FilterExpression::Not(inner) => FilterExpression::Not(Box::new(make_filter_static(inner))),
        FilterExpression::ArithmeticExpr(expr) => FilterExpression::ArithmeticExpr(copy_arith(expr)),
        FilterExpression::FunctionCall(name, args) => FilterExpression::FunctionCall(
            name.clone(),
            copy_strings(args),
        ),
    }
}

/// Converts a FilterExpression to a Condition.
pub fn convert_filter_to_condition(filter: &FilterExpression) -> (c: Condition)
    ensures
        c@ == filter@,
{
    Condition::from_filter(make_filter_static(filter))
}

/// A copy of a condition.
pub fn copy_condition(c: &Condition) -> (r: Condition)
    ensures
        r@ == c@,
{
    Condition { expression: make_filter_static(&c.expression) }
}

} // verus!
