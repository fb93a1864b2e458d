//! Text renderings of plans, used as memo keys.

use vstd::prelude::*;
use crate::text::{push_str, push_decimal, push_debug_str, decimal, debug_quoted};
use crate::terms::{Term, TermM, TriplePattern, PatternM, Triple};
use crate::query::{ArithmeticExpression, ArithM, FilterExpression, FilterM};
use crate::operators::{LogicalOperator, LogicalM, GetterM, ModelGetter, PhysicalOperator, PhysicalM, PhysGetterM,
    ModelGetterPhysical, IdRow, NameRow, IdRowM, NameRowM};

verus! {

/// Items separated by `sep`.
pub open spec fn joined(items: Seq<Seq<char>>, sep: Seq<char>) -> Seq<char>
    decreases items.len(),
{
    if items.len() == 0 {
        Seq::empty()
    } else if items.len() == 1 {
        items[0]
    } else {
        joined(items.drop_last(), sep) + sep + items.last()
    }
}

/// A bracketed list of rendered items, as `{:?}` prints a vector.
pub open spec fn list_text(items: Seq<Seq<char>>) -> Seq<char> {
    "["@ + joined(items, ", "@) + "]"@
}

/// Appends `[a, b, ...]` for rendered items.
pub fn push_list(out: &mut String, items: &Vec<String>)
    ensures
        final(out)@ == old(out)@ + list_text(items.deep_view()),
{
    let ghost start = out@;
    let ghost its = items.deep_view();
    push_str(out, "[");
    let mut i: usize = 0;
    while i < items.len()
        invariant
            i <= items@.len(),
            its == items.deep_view(),
            out@ == start + "["@ + joined(its.take(i as int), ", "@),
        decreases items@.len() - i,
    {
        let ghost before = out@;
        if i > 0 {
            push_str(out, ", ");
        }
        push_str(out, items[i].as_str());
        proof {
            assert(its.take(i + 1).drop_last() =~= its.take(i as int));
            assert(its.take(i + 1).last() == its[i as int]);
            if i == 0 {
                assert(its.take(1).len() == 1);
                assert(joined(its.take(0), ", "@) =~= Seq::<char>::empty());
                assert(out@ =~= start + "["@ + joined(its.take(1), ", "@));
            } else {
                assert(out@ =~= start + "["@ + joined(its.take(i + 1), ", "@));
            }
        }
        i = i + 1;
    }
    assert(its.take(items@.len() as int) =~= its);
    push_str(out, "]");
    assert(out@ =~= start + list_text(its));
}

/// `{:?}` of a term.
pub open spec fn term_text(t: TermM) -> Seq<char>
    decreases t,
{
    match t {
        TermM::Variable(v) => "Variable("@ + debug_quoted(v) + ")"@,
        TermM::Constant(c) => "Constant("@ + decimal(c as nat) + ")"@,
        TermM::QuotedTriple(q) => "QuotedTriple(("@ + term_text(q.0) + ", "@ + term_text(q.1) + ", "@
            + term_text(q.2) + "))"@,
    }
}

/// `{:?}` of a pattern.
pub open spec fn pattern_text(p: PatternM) -> Seq<char> {
    "("@ + term_text(p.0) + ", "@ + term_text(p.1) + ", "@ + term_text(p.2) + ")"@
}

/// Appends `{:?}` of a term.
pub fn push_term(out: &mut String, t: &Term)
    ensures
        final(out)@ == old(out)@ + term_text(t@),
    decreases t,
{
    let ghost start = out@;
    match t {
        Term::Variable(v) => {
            push_str(out, "Variable(");
            push_debug_str(out, v.as_str());
            push_str(out, ")");
            assert(out@ =~= start + term_text(t@));
        },
        Term::Constant(c) => {
            push_str(out, "Constant(");
            push_decimal(out, *c as u64);
            push_str(out, ")");
            assert(out@ =~= start + term_text(t@));
        },
        Term::QuotedTriple(q) => {
            push_str(out, "QuotedTriple((");
            push_term(out, &q.0);
            push_str(out, ", ");
            push_term(out, &q.1);
            push_str(out, ", ");
            push_term(out, &q.2);
            push_str(out, "))");
            assert(out@ =~= start + term_text(t@));
        },
    }
}

/// Appends `{:?}` of a pattern.
pub fn push_pattern(out: &mut String, p: &TriplePattern)
    ensures
        final(out)@ == old(out)@ + pattern_text(p@),
{
    let ghost start = out@;
    push_str(out, "(");
    push_term(out, &p.0);
    push_str(out, ", ");
    push_term(out, &p.1);
    push_str(out, ", ");
    push_term(out, &p.2);
    push_str(out, ")");
    assert(out@ =~= start + pattern_text(p@));
}

/// `{:?}` of a list of strings.
pub open spec fn strings_text(vs: Seq<Seq<char>>) -> Seq<char> {
    list_text(vs.map_values(|v: Seq<char>| debug_quoted(v)))
}

/// Appends `{:?}` of a list of strings.
pub fn push_strings(out: &mut String, vs: &Vec<String>)
    ensures
        final(out)@ == old(out)@ + strings_text(vs.deep_view()),
{
    let ghost m = vs.deep_view();
    let mut items: Vec<String> = Vec::new();
    let mut i: usize = 0;
    while i < vs.len()
        invariant
            i <= vs@.len(),
            m == vs.deep_view(),
            items.deep_view() == m.take(i as int).map_values(|v: Seq<char>| debug_quoted(v)),
        decreases vs@.len() - i,
    {
        let mut s = String::new();
        push_debug_str(&mut s, vs[i].as_str());
        let ghost before = items.deep_view();
        items.push(s);
        proof {
            assert(items.deep_view() =~= before.push(debug_quoted(m[i as int])));
            assert(m.take(i + 1).map_values(|v: Seq<char>| debug_quoted(v)) =~= m.take(i as int).map_values(
                |v: Seq<char>| debug_quoted(v),
            ).push(debug_quoted(m[i as int])));
        }
        i = i + 1;
    }
    assert(m.take(vs@.len() as int) =~= m);
    push_list(out, &items);
}

/// `{:?}` of a list of patterns.
pub open spec fn patterns_text(ps: Seq<PatternM>) -> Seq<char> {
    list_text(ps.map_values(|p: PatternM| pattern_text(p)))
}

/// Appends `{:?}` of a list of patterns.
pub fn push_patterns(out: &mut String, ps: &Vec<TriplePattern>)
    ensures
        final(out)@ == old(out)@ + patterns_text(ps.deep_view()),
{
    let ghost m = ps.deep_view();
    let mut items: Vec<String> = Vec::new();
    let mut i: usize = 0;
    while i < ps.len()
        invariant
            i <= ps@.len(),
            m == ps.deep_view(),
            items.deep_view() == m.take(i as int).map_values(|p: PatternM| pattern_text(p)),
        decreases ps@.len() - i,
    {
        let mut s = String::new();
        push_pattern(&mut s, &ps[i]);
        let ghost before = items.deep_view();
        items.push(s);
        proof {
            assert(m[i as int] == ps@[i as int]@);
            assert(items.deep_view() =~= before.push(pattern_text(m[i as int])));
            assert(m.take(i + 1).map_values(|p: PatternM| pattern_text(p)) =~= m.take(i as int).map_values(
                |p: PatternM| pattern_text(p),
            ).push(pattern_text(m[i as int])));
        }
        i = i + 1;
    }
    assert(m.take(ps@.len() as int) =~= m);
    push_list(out, &items);
}

/// `{:?}` of a triple.
pub open spec fn triple_text(t: Triple) -> Seq<char> {
    "Triple { subject: "@ + decimal(t.subject as nat) + ", predicate: "@ + decimal(t.predicate as nat)
        + ", object: "@ + decimal(t.object as nat) + " }"@
}

/// `{:?}` of a list of triples.
pub open spec fn triples_text(ts: Seq<Triple>) -> Seq<char> {
    list_text(ts.map_values(|t: Triple| triple_text(t)))
}

/// Appends `{:?}` of a list of triples.
pub fn push_triples(out: &mut String, ts: &Vec<Triple>)
    ensures
        final(out)@ == old(out)@ + triples_text(ts@),
{
    let ghost m = ts@;
    let mut items: Vec<String> = Vec::new();
    let mut i: usize = 0;
    while i < ts.len()
        invariant
            i <= ts@.len(),
            m == ts@,
            items.deep_view() == m.take(i as int).map_values(|t: Triple| triple_text(t)),
        decreases ts@.len() - i,
    {
        let t = ts[i];
        let mut s = String::new();
        push_str(&mut s, "Triple { subject: ");
        push_decimal(&mut s, t.subject as u64);
        push_str(&mut s, ", predicate: ");
        push_decimal(&mut s, t.predicate as u64);
        push_str(&mut s, ", object: ");
        push_decimal(&mut s, t.object as u64);
        push_str(&mut s, " }");
        assert(s@ =~= triple_text(t));
        let ghost before = items.deep_view();
        items.push(s);
        proof {
            assert(items.deep_view() =~= before.push(triple_text(m[i as int])));
            assert(m.take(i + 1).map_values(|t: Triple| triple_text(t)) =~= m.take(i as int).map_values(
                |t: Triple| triple_text(t),
            ).push(triple_text(m[i as int])));
        }
        i = i + 1;
    }
    assert(m.take(ts@.len() as int) =~= m);
    push_list(out, &items);
}

/// `{:?}` of an optional string.
pub open spec fn option_text(o: Option<Seq<char>>) -> Seq<char> {
    match o {
        Some(s) => "Some("@ + debug_quoted(s) + ")"@,
        None => "None"@,
    }
}

/// `{:?}` of a table of optional strings.
pub open spec fn rows_text(rows: Seq<Seq<Option<Seq<char>>>>) -> Seq<char> {
    list_text(rows.map_values(|r: Seq<Option<Seq<char>>>| list_text(r.map_values(|o: Option<Seq<char>>| option_text(o)))))
}

/// Appends `{:?}` of one row of optional strings.
fn push_row(out: &mut String, row: &Vec<Option<String>>)
    ensures
        final(out)@ == old(out)@ + list_text(row.deep_view().map_values(|o: Option<Seq<char>>| option_text(o))),
{
    let ghost m = row.deep_view();
    let mut items: Vec<String> = Vec::new();
    let mut i: usize = 0;
    while i < row.len()
        invariant
            i <= row@.len(),
            m == row.deep_view(),
            items.deep_view() == m.take(i as int).map_values(|o: Option<Seq<char>>| option_text(o)),
        decreases row@.len() - i,
    {
        let mut s = String::new();
        match &row[i] {
            Some(v) => {
                push_str(&mut s, "Some(");
                push_debug_str(&mut s, v.as_str());
                push_str(&mut s, ")");
            },
            None => {
                push_str(&mut s, "None");
            },
        }
        assert(m[i as int] == row@[i as int].deep_view());
        assert(s@ =~= option_text(m[i as int]));
        let ghost before = items.deep_view();
        items.push(s);
        proof {
            assert(items.deep_view() =~= before.push(option_text(m[i as int])));
            assert(m.take(i + 1).map_values(|o: Option<Seq<char>>| option_text(o)) =~= m.take(i as int).map_values(
                |o: Option<Seq<char>>| option_text(o),
            ).push(option_text(m[i as int])));
        }
        i = i + 1;
    }
    assert(m.take(row@.len() as int) =~= m);
    push_list(out, &items);
}

/// Appends `{:?}` of a table of optional strings.
pub fn push_rows(out: &mut String, rows: &Vec<Vec<Option<String>>>)
    ensures
        final(out)@ == old(out)@ + rows_text(rows.deep_view()),
{
    let ghost m = rows.deep_view();
    let mut items: Vec<String> = Vec::new();
    let mut i: usize = 0;
    while i < rows.len()
        invariant
            i <= rows@.len(),
            m == rows.deep_view(),
            items.deep_view() == m.take(i as int).map_values(
                |r: Seq<Option<Seq<char>>>| list_text(r.map_values(|o: Option<Seq<char>>| option_text(o))),
            ),
        decreases rows@.len() - i,
    {
        let mut s = String::new();
        push_row(&mut s, &rows[i]);
        assert(m[i as int] == rows@[i as int].deep_view());
        let ghost before = items.deep_view();
        items.push(s);
        proof {
            let f = |r: Seq<Option<Seq<char>>>| list_text(r.map_values(|o: Option<Seq<char>>| option_text(o)));
            assert(items.deep_view() =~= before.push(f(m[i as int])));
            assert(m.take(i + 1).map_values(f) =~= m.take(i as int).map_values(f).push(f(m[i as int])));
        }
        i = i + 1;
    }
    assert(m.take(rows@.len() as int) =~= m);
    push_list(out, &items);
}

/// `{:?}` of an arithmetic expression as the filter key writes it.
pub open spec fn arith_text(e: ArithM) -> Seq<char>
    decreases e,
{
    match e {
        ArithM::Operand(s) => s,
        ArithM::Add(l, r) => "("@ + arith_text(*l) + " + "@ + arith_text(*r) + ")"@,
        ArithM::Subtract(l, r) => "("@ + arith_text(*l) + " - "@ + arith_text(*r) + ")"@,
        ArithM::Multiply(l, r) => "("@ + arith_text(*l) + " * "@ + arith_text(*r) + ")"@,
        ArithM::Divide(l, r) => "("@ + arith_text(*l) + " / "@ + arith_text(*r) + ")"@,
    }
}

/// Serializes an arithmetic expression.
pub fn serialize_arith_expr(expr: &ArithmeticExpression) -> (r: String)
    ensures
        r@ == arith_text(expr@),
    decreases expr,
{
    let mut out = String::new();
    let (l, r, op) = match expr {
        ArithmeticExpression::Operand(s) => {
            return s.clone();
        },
        ArithmeticExpression::Add(l, r) => (l, r, " + "),
        ArithmeticExpression::Subtract(l, r) => (l, r, " - "),
        ArithmeticExpression::Multiply(l, r) => (l, r, " * "),
        ArithmeticExpression::Divide(l, r) => (l, r, " / "),
    };
    push_str(&mut out, "(");
    let ls = serialize_arith_expr(l);
    push_str(&mut out, ls.as_str());
    push_str(&mut out, op);
    let rs = serialize_arith_expr(r);
    push_str(&mut out, rs.as_str());
    push_str(&mut out, ")");
    assert(out@ =~= arith_text(expr@));
    out
}

/// The text of a filter expression in a memo key.
pub open spec fn filter_text(f: FilterM) -> Seq<char>
    decreases f,
{
    match f {
        FilterM::Comparison(var, op, value) => var + op + "'"@ + value + "'"@,
        FilterM::And(l, r) => "("@ + filter_text(*l) + " AND "@ + filter_text(*r) + ")"@,
        FilterM::Or(l, r) => "("@ + filter_text(*l) + " OR "@ + filter_text(*r) + ")"@,
        FilterM::Not(i) => "NOT("@ + filter_text(*i) + ")"@,
        FilterM::ArithmeticExpr(e) => "ARITH("@ + arith_text(e) + ")"@,
        FilterM::FunctionCall(name, args) => name + "("@ + joined(args, ", "@) + ")"@,
    }
}

/// Appends the items joined by ", ".
fn push_joined(out: &mut String, items: &Vec<String>)
    ensures
        final(out)@ == old(out)@ + joined(items.deep_view(), ", "@),
{
    let ghost start = out@;
    let ghost its = items.deep_view();
    let mut i: usize = 0;
    while i < items.len()
        invariant
            i <= items@.len(),
            its == items.deep_view(),
            out@ == start + joined(its.take(i as int), ", "@),
        decreases items@.len() - i,
    {
        if i > 0 {
            push_str(out, ", ");
        }
        push_str(out, items[i].as_str());
        proof {
            assert(its.take(i + 1).drop_last() =~= its.take(i as int));
            assert(its.take(i + 1).last() == its[i as int]);
            if i == 0 {
                assert(its.take(1).len() == 1);
                assert(joined(its.take(0), ", "@) =~= Seq::<char>::empty());
                assert(out@ =~= start + joined(its.take(1), ", "@));
            } else {
                assert(out@ =~= start + joined(its.take(i + 1), ", "@));
            }
        }
        i = i + 1;
    }
    assert(its.take(items@.len() as int) =~= its);
}

/// Serializes a filter expression to a string.
pub fn serialize_filter_expression(expr: &FilterExpression) -> (r: String)
    ensures
        r@ == filter_text(expr@),
    decreases expr,
{
    let mut out = String::new();
    match expr {
        FilterExpression::Comparison(var, op, value) => {
            push_str(&mut out, var.as_str());
            push_str(&mut out, op.as_str());
            push_str(&mut out, "'");
            push_str(&mut out, value.as_str());
            push_str(&mut out, "'");
        },
        FilterExpression::And(left, right) => {
            push_str(&mut out, "(");
            let l = serialize_filter_expression(left);
            push_str(&mut out, l.as_str());
            push_str(&mut out, " AND ");
            let r = serialize_filter_expression(right);
            push_str(&mut out, r.as_str());
            push_str(&mut out, ")");
        },
        FilterExpression::Or(left, right) => {
            push_str(&mut out, "(");
            let l = serialize_filter_expression(left);
            push_str(&mut out, l.as_str());
            push_str(&mut out, " OR ");
            let r = serialize_filter_expression(right);
            push_str(&mut out, r.as_str());
            push_str(&mut out, ")");
        },
        FilterExpression::Not(inner) => {
            push_str(&mut out, "NOT(");
            let i = serialize_filter_expression(inner);
            push_str(&mut out, i.as_str());
            push_str(&mut out, ")");
        },
        FilterExpression::ArithmeticExpr(e) => {
            push_str(&mut out, "ARITH(");
            let a = serialize_arith_expr(e);
            push_str(&mut out, a.as_str());
            push_str(&mut out, ")");
        },
        FilterExpression::FunctionCall(name, args) => {
            push_str(&mut out, name.as_str());
            push_str(&mut out, "(");
            push_joined(&mut out, args);
            push_str(&mut out, ")");
        },
    }
    assert(out@ =~= filter_text(expr@));
    out
}

/// The memo key of a logical plan.
pub open spec fn logical_text(op: LogicalM) -> Seq<char>
    decreases op,
{
    match op {
        LogicalM::Scan { pattern } => "Scan("@ + term_text(pattern.0) + ","@ + term_text(pattern.1) + ","@
            + term_text(pattern.2) + ")"@,
        LogicalM::Selection { predicate, condition } => "Selection(["@ + logical_text(*predicate) + "], "@
            + filter_text(condition) + ")"@,
        LogicalM::Projection { predicate, variables } => "Projection("@ + strings_text(variables) + ",["@
            + logical_text(*predicate) + "])"@,
        LogicalM::Join { left, right } => "Join(["@ + logical_text(*left) + "],["@ + logical_text(*right)
            + "])"@,
        LogicalM::Buffer { content, origin } => "Buffer("@ + debug_quoted(origin) + ","@ + triples_text(content)
            + ")"@,
        LogicalM::Subquery { inner, projected_vars } => "Subquery("@ + strings_text(projected_vars) + ",["@
            + logical_text(*inner) + "])"@,
        LogicalM::Bind { input, function_name, arguments, output_variable } => "Bind("@ + logical_text(*input)
            + ", "@ + function_name + "("@ + strings_text(arguments) + "), "@ + output_variable + ")"@,
        LogicalM::Values { variables, values } => "Values("@ + strings_text(variables) + ", "@ + rows_text(values)
            + ")"@,
        LogicalM::MLPredict { input, model_name, input_variables, output_variable } => "MLPredict("@
            + logical_text(*input) + ", model="@ + match model_name {
            GetterM::MLPredict(name) => name,
            GetterM::RunMLClause(retrieval) => logical_text(*retrieval),
        } + ", inputs="@ + strings_text(input_variables) + ", output="@ + output_variable + ")"@,
    }
}

/// Appends the memo key of a logical plan.
#[verifier::rlimit(30)]
pub fn push_logical_plan(out: &mut String, plan: &LogicalOperator)
    ensures
        final(out)@ == old(out)@ + logical_text(plan@),
    decreases plan,
{
    let ghost start = out@;
    match plan {
        LogicalOperator::Scan { pattern } => {
            push_str(out, "Scan(");
            push_term(out, &pattern.0);
            push_str(out, ",");
            push_term(out, &pattern.1);
            push_str(out, ",");
            push_term(out, &pattern.2);
            push_str(out, ")");
            assert(out@ =~= start + logical_text(plan@));
        },
        LogicalOperator::Selection { predicate, condition } => {
            push_str(out, "Selection([");
            push_logical_plan(out, predicate);
            push_str(out, "], ");
            let f = serialize_filter_expression(&condition.expression);
            push_str(out, f.as_str());
            push_str(out, ")");
            assert(out@ =~= start + logical_text(plan@));
        },
        LogicalOperator::Projection { predicate, variables } => {
            push_str(out, "Projection(");
            push_strings(out, variables);
            push_str(out, ",[");
            push_logical_plan(out, predicate);
            push_str(out, "])");
            assert(out@ =~= start + logical_text(plan@));
        },
        LogicalOperator::Join { left, right } => {
            push_str(out, "Join([");
            push_logical_plan(out, left);
            push_str(out, "],[");
            push_logical_plan(out, right);
            push_str(out, "])");
            assert(out@ =~= start + logical_text(plan@));
        },
        LogicalOperator::Buffer { content, origin } => {
            push_str(out, "Buffer(");
            push_debug_str(out, origin.as_str());
            push_str(out, ",");
            push_triples(out, content);
            push_str(out, ")");
            assert(out@ =~= start + logical_text(plan@));
        },
        LogicalOperator::Subquery { inner, projected_vars } => {
            push_str(out, "Subquery(");
            push_strings(out, projected_vars);
            push_str(out, ",[");
            push_logical_plan(out, inner);
            push_str(out, "])");
            assert(out@ =~= start + logical_text(plan@));
        },
        LogicalOperator::Bind { input, function_name, arguments, output_variable } => {
            push_str(out, "Bind(");
            push_logical_plan(out, input);
            push_str(out, ", ");
            push_str(out, function_name.as_str());
            push_str(out, "(");
            push_strings(out, arguments);
            push_str(out, "), ");
            push_str(out, output_variable.as_str());
            push_str(out, ")");
            assert(out@ =~= start + logical_text(plan@));
        },
        LogicalOperator::Values { variables, values } => {
            push_str(out, "Values(");
            push_strings(out, variables);
            push_str(out, ", ");
            push_rows(out, values);
            push_str(out, ")");
            assert(out@ =~= start + logical_text(plan@));
        },
        LogicalOperator::MLPredict { input, model_name, input_variables, output_variable } => {
            push_str(out, "MLPredict(");
            push_logical_plan(out, input);
            push_str(out, ", model=");
            match model_name {
                ModelGetter::MLPredict(name) => push_str(out, name.as_str()),
                ModelGetter::RunMLClause(retrieval) => push_logical_plan(out, retrieval),
            }
            push_str(out, ", inputs=");
            push_strings(out, input_variables);
            push_str(out, ", output=");
            push_str(out, output_variable.as_str());
            push_str(out, ")");
            assert(out@ =~= start + logical_text(plan@));
        },
    }
}

/// Serializes a logical plan to a string for memoization.
pub fn serialize_logical_plan(plan: &LogicalOperator) -> (r: String)
    ensures
        r@ == logical_text(plan@),
{
    let mut out = String::new();
    push_logical_plan(&mut out, plan);
    out
}

/// `{:?}` of one id row, as a map from variable to id.
pub open spec fn id_row_text(row: IdRowM) -> Seq<char> {
    "{"@ + joined(row.map_values(|e: (Seq<char>, u32)| debug_quoted(e.0) + ": "@ + decimal(e.1 as nat)), ", "@)
        + "}"@
}

/// `{:?}` of one decoded row, as a map from variable to value.
pub open spec fn name_row_text(row: NameRowM) -> Seq<char> {
    "{"@ + joined(row.map_values(|e: (Seq<char>, Seq<char>)| debug_quoted(e.0) + ": "@ + debug_quoted(e.1)), ", "@)
        + "}"@
}

/// How a physical ML operator's models read in a memo key.
pub open spec fn getter_text(g: PhysGetterM) -> Seq<char> {
    match g {
        PhysGetterM::MLPredictPhysical(name) => name,
        PhysGetterM::RunMLClausePhysical(ids, names) => "RunMLClausePhysical("@ + list_text(
            ids.map_values(|r: IdRowM| id_row_text(r)),
        ) + ", "@ + list_text(names.map_values(|r: NameRowM| name_row_text(r))) + ")"@,
    }
}

/// A join's text: its name and its quoted sides.
pub open spec fn join_text(name: Seq<char>, left: Seq<char>, right: Seq<char>) -> Seq<char> {
    name + "(["@ + debug_quoted(left) + "], ["@ + debug_quoted(right) + "])"@
}

/// The text of a physical plan.
pub open spec fn physical_text(op: PhysicalM) -> Seq<char>
    decreases op,
{
    match op {
        PhysicalM::TableScan { pattern } => "TableScan("@ + pattern_text(pattern) + ")"@,
        PhysicalM::IndexScan { pattern } => "IndexScan("@ + pattern_text(pattern) + ")"@,
        PhysicalM::Filter { input, condition } => "Filter(["@ + physical_text(*input) + "], "@ + filter_text(
            condition,
        ) + ")"@,
        PhysicalM::Projection { input, variables } => "Projection("@ + strings_text(variables) + ",["@
            + physical_text(*input) + "])"@,
        PhysicalM::HashJoin { left, right } => join_text(
            "HashJoin"@,
            physical_text(*left),
            physical_text(*right),
        ),
        PhysicalM::OptimizedHashJoin { left, right } => join_text(
            "OptimizedHashJoin"@,
            physical_text(*left),
            physical_text(*right),
        ),
        PhysicalM::NestedLoopJoin { left, right } => join_text(
            "NestedJoin"@,
            physical_text(*left),
            physical_text(*right),
        ),
        PhysicalM::ParallelJoin { left, right } => join_text(
            "ParallelJoin"@,
            physical_text(*left),
            physical_text(*right),
        ),
        PhysicalM::StarJoin { join_var, patterns } => "StarJoin("@ + debug_quoted(join_var) + ", "@
            + patterns_text(patterns) + ")"@,
        PhysicalM::InMemoryBuffer { content, origin } => "InMemoryBuffer("@ + triples_text(content) + ", "@
            + debug_quoted(origin) + ")"@,
        PhysicalM::Bind { input, function_name, arguments, output_variable } => "Bind(["@ + debug_quoted(
            physical_text(*input),
        ) + "],"@ + debug_quoted(function_name) + ","@ + strings_text(arguments) + ","@ + debug_quoted(
            output_variable,
        ) + ")"@,
        PhysicalM::MLPredict { input, model_name, model_path, input_variables, output_variable } => "MLPredict(["@
            + debug_quoted(physical_text(*input)) + "], "@ + debug_quoted(getter_text(model_name)) + ", "@
            + debug_quoted(model_path) + ", "@ + strings_text(input_variables) + ", "@ + debug_quoted(
            output_variable,
        ) + ")"@,
        PhysicalM::Values { variables, values } => "Values("@ + strings_text(variables) + ", "@ + rows_text(values)
            + ")"@,
        PhysicalM::Subquery { inner, projected_vars } => "Subquery(["@ + debug_quoted(physical_text(*inner))
            + "], "@ + strings_text(projected_vars) + ")"@,
    }
}

/// Appends `{:?}` of a list of id rows.
fn push_id_rows(out: &mut String, rows: &Vec<IdRow>)
    ensures
        final(out)@ == old(out)@ + list_text(rows.deep_view().map_values(|r: IdRowM| id_row_text(r))),
{
    let ghost m = rows.deep_view();
    let ghost f = |r: IdRowM| id_row_text(r);
    let mut items: Vec<String> = Vec::new();
    let mut i: usize = 0;
    while i < rows.len()
        invariant
            i <= rows@.len(),
            m == rows.deep_view(),
            f == (|r: IdRowM| id_row_text(r)),
            items.deep_view() == m.take(i as int).map_values(f),
        decreases rows@.len() - i,
    {
        let row = &rows[i];
        let ghost rm = row.deep_view();
        let ghost g = |e: (Seq<char>, u32)| debug_quoted(e.0) + ": "@ + decimal(e.1 as nat);
        let mut entries: Vec<String> = Vec::new();
        let mut j: usize = 0;
        while j < row.len()
            invariant
                j <= row@.len(),
                rm == row.deep_view(),
                g == (|e: (Seq<char>, u32)| debug_quoted(e.0) + ": "@ + decimal(e.1 as nat)),
                entries.deep_view() == rm.take(j as int).map_values(g),
            decreases row@.len() - j,
        {
            let mut e = String::new();
            push_debug_str(&mut e, row[j].0.as_str());
            push_str(&mut e, ": ");
            push_decimal(&mut e, row[j].1 as u64);
            assert(rm[j as int] == (row@[j as int].0@, row@[j as int].1));
            assert(e@ =~= g(rm[j as int]));
            let ghost before = entries.deep_view();
            entries.push(e);
            assert(entries.deep_view() =~= before.push(g(rm[j as int])));
            assert(rm.take(j + 1).map_values(g) =~= rm.take(j as int).map_values(g).push(g(rm[j as int])));
            j = j + 1;
        }
        assert(rm.take(row@.len() as int) =~= rm);
        let mut s = String::new();
        push_str(&mut s, "{");
        push_joined(&mut s, &entries);
        push_str(&mut s, "}");
        assert(m[i as int] == rm);
        assert(s@ =~= f(m[i as int]));
        let ghost before = items.deep_view();
        items.push(s);
        assert(items.deep_view() =~= before.push(f(m[i as int])));
        assert(m.take(i + 1).map_values(f) =~= m.take(i as int).map_values(f).push(f(m[i as int])));
        i = i + 1;
    }
    assert(m.take(rows@.len() as int) =~= m);
    push_list(out, &items);
}

/// Appends `{:?}` of a list of decoded rows.
fn push_name_rows(out: &mut String, rows: &Vec<NameRow>)
    ensures
        final(out)@ == old(out)@ + list_text(rows.deep_view().map_values(|r: NameRowM| name_row_text(r))),
{
    let ghost m = rows.deep_view();
    let ghost f = |r: NameRowM| name_row_text(r);
    let mut items: Vec<String> = Vec::new();
    let mut i: usize = 0;
    while i < rows.len()
        invariant
            i <= rows@.len(),
            m == rows.deep_view(),
            f == (|r: NameRowM| name_row_text(r)),
            items.deep_view() == m.take(i as int).map_values(f),
        decreases rows@.len() - i,
    {
        let row = &rows[i];
        let ghost rm = row.deep_view();
        let ghost g = |e: (Seq<char>, Seq<char>)| debug_quoted(e.0) + ": "@ + debug_quoted(e.1);
        let mut entries: Vec<String> = Vec::new();
        let mut j: usize = 0;
        while j < row.len()
            invariant
                j <= row@.len(),
                rm == row.deep_view(),
                g == (|e: (Seq<char>, Seq<char>)| debug_quoted(e.0) + ": "@ + debug_quoted(e.1)),
                entries.deep_view() == rm.take(j as int).map_values(g),
            decreases row@.len() - j,
        {
            let mut e = String::new();
            push_debug_str(&mut e, row[j].0.as_str());
            push_str(&mut e, ": ");
            push_debug_str(&mut e, row[j].1.as_str());
            assert(rm[j as int] == (row@[j as int].0@, row@[j as int].1@));
            assert(e@ =~= g(rm[j as int]));
            let ghost before = entries.deep_view();
            entries.push(e);
            assert(entries.deep_view() =~= before.push(g(rm[j as int])));
            assert(rm.take(j + 1).map_values(g) =~= rm.take(j as int).map_values(g).push(g(rm[j as int])));
            j = j + 1;
        }
        assert(rm.take(row@.len() as int) =~= rm);
        let mut s = String::new();
        push_str(&mut s, "{");
        push_joined(&mut s, &entries);
        push_str(&mut s, "}");
        assert(m[i as int] == rm);
        assert(s@ =~= f(m[i as int]));
        let ghost before = items.deep_view();
        items.push(s);
        assert(items.deep_view() =~= before.push(f(m[i as int])));
        assert(m.take(i + 1).map_values(f) =~= m.take(i as int).map_values(f).push(f(m[i as int])));
        i = i + 1;
    }
    assert(m.take(rows@.len() as int) =~= m);
    push_list(out, &items);
}

/// Appends a join's text: its name and its quoted sides.
fn push_join(out: &mut String, name: &str, left: &str, right: &str)
    ensures
        final(out)@ == old(out)@ + join_text(name@, left@, right@),
{
    let ghost start = out@;
    push_str(out, name);
    push_str(out, "([");
    push_debug_str(out, left);
    push_str(out, "], [");
    push_debug_str(out, right);
    push_str(out, "])");
    assert(out@ =~= start + join_text(name@, left@, right@));
}

/// Serializes a physical plan to a string.
#[verifier::rlimit(30)]
pub fn serialize_physical_plan(plan: &PhysicalOperator) -> (r: String)
    ensures
        r@ == physical_text(plan@),
    decreases plan,
{
    let mut out = String::new();
    match plan {
        PhysicalOperator::TableScan { pattern } => {
            push_str(&mut out, "TableScan(");
            push_pattern(&mut out, pattern);
            push_str(&mut out, ")");
            assert(out@ =~= physical_text(plan@));
        },
        PhysicalOperator::IndexScan { pattern } => {
            push_str(&mut out, "IndexScan(");
            push_pattern(&mut out, pattern);
            push_str(&mut out, ")");
            assert(out@ =~= physical_text(plan@));
        },
        PhysicalOperator::Filter { input, condition } => {
            push_str(&mut out, "Filter([");
            let i = serialize_physical_plan(input);
            push_str(&mut out, i.as_str());
            push_str(&mut out, "], ");
            let f = serialize_filter_expression(&condition.expression);
            push_str(&mut out, f.as_str());
            push_str(&mut out, ")");
            assert(out@ =~= physical_text(plan@));
        },
        PhysicalOperator::Projection { input, variables } => {
            push_str(&mut out, "Projection(");
            push_strings(&mut out, variables);
            push_str(&mut out, ",[");
            let i = serialize_physical_plan(input);
            push_str(&mut out, i.as_str());
            push_str(&mut out, "])");
            assert(out@ =~= physical_text(plan@));
        },
        PhysicalOperator::HashJoin { left, right } => {
            let l = serialize_physical_plan(left);
            let r = serialize_physical_plan(right);
            push_join(&mut out, "HashJoin", l.as_str(), r.as_str());
            assert(out@ =~= physical_text(plan@));
        },
        PhysicalOperator::OptimizedHashJoin { left, right } => {
            let l = serialize_physical_plan(left);
            let r = serialize_physical_plan(right);
            push_join(&mut out, "OptimizedHashJoin", l.as_str(), r.as_str());
            assert(out@ =~= physical_text(plan@));
        },
        PhysicalOperator::NestedLoopJoin { left, right } => {
            let l = serialize_physical_plan(left);
            let r = serialize_physical_plan(right);
            push_join(&mut out, "NestedJoin", l.as_str(), r.as_str());
            assert(out@ =~= physical_text(plan@));
        },
        PhysicalOperator::ParallelJoin { left, right } => {
            let l = serialize_physical_plan(left);
            let r = serialize_physical_plan(right);
            push_join(&mut out, "ParallelJoin", l.as_str(), r.as_str());
            assert(out@ =~= physical_text(plan@));
        },
        PhysicalOperator::StarJoin { join_var, patterns } => {
            push_str(&mut out, "StarJoin(");
            push_debug_str(&mut out, join_var.as_str());
            push_str(&mut out, ", ");
            push_patterns(&mut out, patterns);
            push_str(&mut out, ")");
            assert(out@ =~= physical_text(plan@));
        },
        PhysicalOperator::InMemoryBuffer { content, origin } => {
            push_str(&mut out, "InMemoryBuffer(");
            push_triples(&mut out, content);
            push_str(&mut out, ", ");
            push_debug_str(&mut out, origin.as_str());
            push_str(&mut out, ")");
            assert(out@ =~= physical_text(plan@));
        },
        PhysicalOperator::Bind { input, function_name, arguments, output_variable } => {
            push_str(&mut out, "Bind([");
            let i = serialize_physical_plan(input);
            push_debug_str(&mut out, i.as_str());
            push_str(&mut out, "],");
            push_debug_str(&mut out, function_name.as_str());
            push_str(&mut out, ",");
            push_strings(&mut out, arguments);
            push_str(&mut out, ",");
            push_debug_str(&mut out, output_variable.as_str());
            push_str(&mut out, ")");
            assert(out@ =~= physical_text(plan@));
        },
        PhysicalOperator::MLPredict { input, model_name, model_path, input_variables, output_variable } => {
            let mut model = String::new();
            match model_name {
                ModelGetterPhysical::MLPredictPhysical(name) => {
                    push_str(&mut model, name.as_str());
                },
                ModelGetterPhysical::RunMLClausePhysical(ids, names) => {
                    push_str(&mut model, "RunMLClausePhysical(");
                    push_id_rows(&mut model, ids);
                    push_str(&mut model, ", ");
                    push_name_rows(&mut model, names);
                    push_str(&mut model, ")");
                },
            }
            assert(model@ =~= getter_text(
                match plan@ {
                    PhysicalM::MLPredict { model_name, .. } => model_name,
                    _ => PhysGetterM::MLPredictPhysical(Seq::empty()),
                },
            ));
            push_str(&mut out, "MLPredict([");
            let i = serialize_physical_plan(input);
            push_debug_str(&mut out, i.as_str());
            push_str(&mut out, "], ");
            push_debug_str(&mut out, model.as_str());
            push_str(&mut out, ", ");
            push_debug_str(&mut out, model_path.as_str());
            push_str(&mut out, ", ");
            push_strings(&mut out, input_variables);
            push_str(&mut out, ", ");
            push_debug_str(&mut out, output_variable.as_str());
            push_str(&mut out, ")");
            assert(out@ =~= physical_text(plan@));
        },
        PhysicalOperator::Values { variables, values } => {
            push_str(&mut out, "Values(");
            push_strings(&mut out, variables);
            push_str(&mut out, ", ");
            push_rows(&mut out, values);
            push_str(&mut out, ")");
            assert(out@ =~= physical_text(plan@));
        },
        PhysicalOperator::Subquery { inner, projected_vars } => {
            push_str(&mut out, "Subquery([");
            let i = serialize_physical_plan(inner);
            push_debug_str(&mut out, i.as_str());
            push_str(&mut out, "], ");
            push_strings(&mut out, projected_vars);
            push_str(&mut out, ")");
            assert(out@ =~= physical_text(plan@));
        },
    }
    out
}

} // verus!
