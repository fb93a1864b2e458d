//! Placing a RUN clause into a left-deep plan: finding the model variable,
//! the retrieval sub-plan, and the join level that binds the RUN inputs.

use vstd::prelude::*;
use crate::text::str_equal;
use crate::terms::{Term, TermM, PatternM, TriplePattern};
use crate::dictionary::Dictionary;
use crate::operators::{LogicalOperator, LogicalM, GetterM, logical_model};
use crate::plan::{term_id_below, pattern_ids_below};

verus! {

/// Whether a term is the variable `name`.
pub open spec fn is_var(t: TermM, name: Seq<char>) -> bool {
    match t {
        TermM::Variable(v) => v == name,
        _ => false,
    }
}

/// Whether a term names `target`: as a variable, or as a constant whose string it is.
pub open spec fn term_names(t: TermM, target: Seq<char>, dict: Seq<Seq<char>>) -> bool {
    match t {
        TermM::Variable(v) => v == target,
        TermM::Constant(id) => id < dict.len() && dict[id as int] == target,
        _ => false,
    }
}

/// Whether some position of a pattern names `target`.
pub open spec fn pattern_names(p: PatternM, target: Seq<char>, dict: Seq<Seq<char>>) -> bool {
    term_names(p.0, target, dict) || term_names(p.1, target, dict) || term_names(p.2, target, dict)
}

/// Whether the scans along the left spine of a plan (and the scans on the right
/// of its joins) hold only decodable constants.
pub open spec fn spine_ids_below(op: LogicalM, n: nat) -> bool
    decreases op,
{
    match op {
        LogicalM::Scan { pattern } => pattern_ids_below(pattern, n),
        LogicalM::Projection { predicate, .. } => spine_ids_below(*predicate, n),
        LogicalM::Selection { predicate, .. } => spine_ids_below(*predicate, n),
        LogicalM::Bind { input, .. } => spine_ids_below(*input, n),
        LogicalM::Join { left, right } => (match *right {
            LogicalM::Scan { pattern } => pattern_ids_below(pattern, n),
            _ => true,
        }) && spine_ids_below(*left, n),
        _ => true,
    }
}

/// Number of joins along the left spine of a plan.
pub open spec fn spine_joins(op: LogicalM) -> nat
    decreases op,
{
    match op {
        LogicalM::Projection { predicate, .. } => spine_joins(*predicate),
        LogicalM::Selection { predicate, .. } => spine_joins(*predicate),
        LogicalM::Bind { input, .. } => spine_joins(*input),
        LogicalM::Join { left, .. } => spine_joins(*left) + 1,
        _ => 0,
    }
}

/// The innermost-first search along the left spine for the first scan (or join
/// with a scan on its right) that names `target`; that operator is the result.
pub open spec fn least_join_naming(target: Seq<char>, op: LogicalM, dict: Seq<Seq<char>>) -> Option<LogicalM>
    decreases op,
{
    match op {
        LogicalM::Scan { pattern } => if pattern_names(pattern, target, dict) {
            Some(op)
        } else {
            None
        },
        LogicalM::Projection { predicate, .. } => least_join_naming(target, *predicate, dict),
        LogicalM::Bind { input, .. } => least_join_naming(target, *input, dict),
        LogicalM::Selection { predicate, .. } => least_join_naming(target, *predicate, dict),
        LogicalM::Join { left, right } => match *right {
            LogicalM::Scan { pattern } => if pattern_names(pattern, target, dict) {
                Some(op)
            } else {
                least_join_naming(target, *left, dict)
            },
            _ => least_join_naming(target, *left, dict),
        },
        _ => None,
    }
}

/// Whether `t` names `target`; constants are decoded with the dictionary.
fn term_names_exec(t: &Term, target: &str, dict: &Dictionary) -> (r: bool)
    ensures
        r == term_names(t@, target@, dict@),
{
    match t {
        Term::Variable(v) => str_equal(v.as_str(), target),
        Term::Constant(id) => {
            let s = dict.decode(*id);
            match s {
                Some(s) => str_equal(s.as_str(), target),
                None => false,
            }
        },
        _ => false,
    }
}

/// Whether some position of `p` names `target`.
fn pattern_names_exec(p: &TriplePattern, target: &str, dict: &Dictionary) -> (r: bool)
    ensures
        r == pattern_names(p@, target@, dict@),
{
    term_names_exec(&p.0, target, dict) || term_names_exec(&p.1, target, dict) || term_names_exec(
        &p.2,
        target,
        dict,
    )
}

/// Whether a term is the variable `target`.
pub open spec fn var_named(t: TermM, target: Seq<char>) -> bool {
    t matches TermM::Variable(v) && v == target
}

/// Whether a term, if a constant, has a string in the dictionary.
pub open spec fn const_decodes(t: TermM, dict: Seq<Seq<char>>) -> bool {
    t matches TermM::Constant(id) ==> id < dict.len()
}

/// Whether a term is a constant whose string is `target`.
pub open spec fn const_named(t: TermM, target: Seq<char>, dict: Seq<Seq<char>>) -> bool {
    t matches TermM::Constant(id) && id < dict.len() && dict[id as int] == target
}

/// Whether looking for `target` in a pattern decodes only constants that the
/// dictionary holds: the variables are tried first, then the constants in
/// order until one names `target`.
pub open spec fn pattern_decodable(p: PatternM, target: Seq<char>, dict: Seq<Seq<char>>) -> bool {
    ||| var_named(p.0, target) || var_named(p.1, target) || var_named(p.2, target)
    ||| const_decodes(p.0, dict) && (const_named(p.0, target, dict) || const_decodes(p.1, dict) && (const_named(
        p.1,
        target,
        dict,
    ) || const_decodes(p.2, dict)))
}

/// Whether the search for `target` along the left spine decodes only
/// constants that the dictionary holds.
pub open spec fn spine_decodable(target: Seq<char>, op: LogicalM, dict: Seq<Seq<char>>) -> bool
    decreases op,
{
    match op {
        LogicalM::Scan { pattern } => pattern_decodable(pattern, target, dict),
        LogicalM::Projection { predicate, .. } => spine_decodable(target, *predicate, dict),
        LogicalM::Bind { input, .. } => spine_decodable(target, *input, dict),
        LogicalM::Selection { predicate, .. } => spine_decodable(target, *predicate, dict),
        LogicalM::Join { left, right } => match *right {
            LogicalM::Scan { pattern } => pattern_decodable(pattern, target, dict) && (pattern_names(
                pattern,
                target,
                dict,
            ) || spine_decodable(target, *left, dict)),
            _ => spine_decodable(target, *left, dict),
        },
        _ => true,
    }
}

/// A spine whose constants all decode can be searched for any target.
pub proof fn lemma_spine_decodable(target: Seq<char>, op: LogicalM, dict: Seq<Seq<char>>)
    requires
        spine_ids_below(op, dict.len()),
    ensures
        spine_decodable(target, op, dict),
    decreases op,
{
    match op {
        LogicalM::Projection { predicate, .. } => lemma_spine_decodable(target, *predicate, dict),
        LogicalM::Bind { input, .. } => lemma_spine_decodable(target, *input, dict),
        LogicalM::Selection { predicate, .. } => lemma_spine_decodable(target, *predicate, dict),
        LogicalM::Join { left, .. } => lemma_spine_decodable(target, *left, dict),
        _ => {},
    }
}

/// Finds the least nested scan, or join with a scan on its right, that names `target`.
pub fn get_least_nested_join_with_scan_on_str(
    target: &str,
    logical_op: &LogicalOperator,
    dict: &Dictionary,
) -> (r: Option<LogicalOperator>)
    requires
        spine_decodable(target@, logical_op@, dict@),
    ensures
        match r {
            Some(o) => least_join_naming(target@, logical_op@, dict@) == Some(o@),
            None => least_join_naming(target@, logical_op@, dict@) is None,
        },
    decreases logical_op,
{
    match logical_op {
        LogicalOperator::Scan { pattern } => {
            if pattern_names_exec(pattern, target, dict) {
                Some(logical_op.duplicate())
            } else {
                None
            }
        },
        LogicalOperator::Projection { predicate, .. } => get_least_nested_join_with_scan_on_str(
            target,
            predicate,
            dict,
        ),
        LogicalOperator::Bind { input, .. } => get_least_nested_join_with_scan_on_str(target, input, dict),
        LogicalOperator::Selection { predicate, .. } => get_least_nested_join_with_scan_on_str(
            target,
            predicate,
            dict,
        ),
        LogicalOperator::Join { left, right } => {
            assert(logical_op@ == LogicalM::Join { left: Box::new(left@), right: Box::new(right@) }) by {
                assert(logical_op@ == logical_model(*logical_op));
            }
            match &**right {
                LogicalOperator::Scan { pattern } => {
                    assert(right@ == (LogicalM::Scan { pattern: pattern@ }));
                    if pattern_names_exec(pattern, target, dict) {
                        Some(logical_op.duplicate())
                    } else {
                        get_least_nested_join_with_scan_on_str(target, left, dict)
                    }
                },
                _ => get_least_nested_join_with_scan_on_str(target, left, dict),
            }
        },
        _ => None,
    }
}

/// The model variable of a scan `?on <hasOutput> ?model`.
pub open spec fn ml_output_of(
    p: PatternM,
    runtime_var: Seq<char>,
    dict: Seq<Seq<char>>,
    has_output: Seq<char>,
) -> Option<Seq<char>> {
    match (p.0, p.1, p.2) {
        (TermM::Variable(v), TermM::Constant(id), TermM::Variable(ml)) => if v == runtime_var && id
            < dict.len() && dict[id as int] == has_output {
            Some(ml)
        } else {
            None
        },
        _ => None,
    }
}

/// The model variable that the plan binds through `?runtime_var <hasOutput> ?model`,
/// searched along the left spine from the outermost join inwards.
pub open spec fn ml_var_name(
    op: LogicalM,
    runtime_var: Seq<char>,
    dict: Seq<Seq<char>>,
    has_output: Seq<char>,
) -> Option<Seq<char>>
    decreases op,
{
    match op {
        LogicalM::Projection { predicate, .. } => ml_var_name(*predicate, runtime_var, dict, has_output),
        LogicalM::Selection { predicate, .. } => ml_var_name(*predicate, runtime_var, dict, has_output),
        LogicalM::Bind { input, .. } => ml_var_name(*input, runtime_var, dict, has_output),
        LogicalM::Scan { pattern } => ml_output_of(pattern, runtime_var, dict, has_output),
        LogicalM::Join { left, right } => match *right {
            LogicalM::Scan { pattern } => match ml_output_of(pattern, runtime_var, dict, has_output) {
                Some(m) => Some(m),
                None => ml_var_name(*left, runtime_var, dict, has_output),
            },
            _ => ml_var_name(*left, runtime_var, dict, has_output),
        },
        _ => None,
    }
}

fn ml_output_of_exec(p: &TriplePattern, runtime_var: &str, dict: &Dictionary, has_output: &str) -> (r:
    Option<String>)
    ensures
        match r {
            Some(m) => ml_output_of(p@, runtime_var@, dict@, has_output@) == Some(m@),
            None => ml_output_of(p@, runtime_var@, dict@, has_output@) is None,
        },
{
    match (&p.0, &p.1, &p.2) {
        (Term::Variable(v), Term::Constant(id), Term::Variable(ml)) => {
            if str_equal(v.as_str(), runtime_var) {
                match dict.decode(*id) {
                    Some(pred) => {
                        if str_equal(pred.as_str(), has_output) {
                            Some(ml.clone())
                        } else {
                            None
                        }
                    },
                    None => None,
                }
            } else {
                None
            }
        },
        _ => None,
    }
}

/// Finds the variable that holds the ML models produced by `runtime_var`.
pub fn get_ml_var_name(
    operator: &LogicalOperator,
    runtime_var: &str,
    dict: &Dictionary,
    has_output: &str,
) -> (r: Option<String>)
    ensures
        match r {
            Some(m) => ml_var_name(operator@, runtime_var@, dict@, has_output@) == Some(m@),
            None => ml_var_name(operator@, runtime_var@, dict@, has_output@) is None,
        },
    decreases operator,
{
    match operator {
        LogicalOperator::Projection { predicate, .. } => get_ml_var_name(predicate, runtime_var, dict, has_output),
        LogicalOperator::Selection { predicate, .. } => get_ml_var_name(predicate, runtime_var, dict, has_output),
        LogicalOperator::Bind { input, .. } => get_ml_var_name(input, runtime_var, dict, has_output),
        LogicalOperator::Scan { pattern } => ml_output_of_exec(pattern, runtime_var, dict, has_output),
        LogicalOperator::Join { left, right } => {
            assert(operator@ == LogicalM::Join { left: Box::new(left@), right: Box::new(right@) }) by {
                assert(operator@ == logical_model(*operator));
            }
            match &**right {
                LogicalOperator::Scan { pattern } => {
                    assert(right@ == (LogicalM::Scan { pattern: pattern@ }));
                    match ml_output_of_exec(pattern, runtime_var, dict, has_output) {
                        Some(m) => Some(m),
                        None => get_ml_var_name(left, runtime_var, dict, has_output),
                    }
                },
                _ => get_ml_var_name(left, runtime_var, dict, has_output),
            }
        },
        _ => None,
    }
}

/// A found model variable is named by some scan of the spine, so the search for
/// its least nested join succeeds.
pub proof fn lemma_ml_var_has_join(
    op: LogicalM,
    runtime_var: Seq<char>,
    dict: Seq<Seq<char>>,
    has_output: Seq<char>,
)
    requires
        ml_var_name(op, runtime_var, dict, has_output) is Some,
    ensures
        least_join_naming(ml_var_name(op, runtime_var, dict, has_output).unwrap(), op, dict) is Some,
    decreases op,
{
    let m = ml_var_name(op, runtime_var, dict, has_output).unwrap();
    match op {
        LogicalM::Projection { predicate, .. } => lemma_ml_var_has_join(*predicate, runtime_var, dict, has_output),
        LogicalM::Selection { predicate, .. } => lemma_ml_var_has_join(*predicate, runtime_var, dict, has_output),
        LogicalM::Bind { input, .. } => lemma_ml_var_has_join(*input, runtime_var, dict, has_output),
        LogicalM::Scan { pattern } => {
            assert(is_var(pattern.2, m));
        },
        LogicalM::Join { left, right } => {
            match *right {
                LogicalM::Scan { pattern } => {
                    if ml_output_of(pattern, runtime_var, dict, has_output) is None {
                        lemma_ml_var_has_join(*left, runtime_var, dict, has_output);
                        if pattern_names(pattern, m, dict) {
                        }
                    }
                },
                _ => lemma_ml_var_has_join(*left, runtime_var, dict, has_output),
            }
        },
        _ => {},
    }
}

/// What checking one scan for a RUN input gives, positions in order: whether
/// the input variable was met (which stops the search), and whether the model
/// run variable `on` was met before that.
pub open spec fn scan_walk(p: PatternM, var: Seq<char>, on: Seq<char>) -> (bool, bool) {
    if is_var(p.0, var) {
        (true, is_var(p.0, on))
    } else if is_var(p.1, var) {
        (true, is_var(p.0, on) || is_var(p.1, on))
    } else {
        (is_var(p.2, var), is_var(p.0, on) || is_var(p.1, on) || is_var(p.2, on))
    }
}

/// Walking the left spine for a RUN input: the depth of the first level that
/// binds it (if any), and whether the model run variable was met on the way.
pub open spec fn var_walk(op: LogicalM, depth: int, var: Seq<char>, on: Seq<char>) -> (Option<int>, bool)
    decreases op,
{
    match op {
        LogicalM::Scan { pattern } => {
            let (f, o) = scan_walk(pattern, var, on);
            (if f {
                Some(depth)
            } else {
                None
            }, o)
        },
        LogicalM::Projection { predicate, .. } => var_walk(*predicate, depth, var, on),
        LogicalM::Bind { input, .. } => var_walk(*input, depth, var, on),
        LogicalM::Selection { predicate, .. } => var_walk(*predicate, depth, var, on),
        LogicalM::Join { left, right } => match *right {
            LogicalM::Scan { pattern } => {
                let (f, o) = scan_walk(pattern, var, on);
                if f {
                    (Some(depth), o)
                } else {
                    let (r, o2) = var_walk(*left, depth - 1, var, on);
                    (r, o || o2)
                }
            },
            _ => var_walk(*left, depth - 1, var, on),
        },
        _ => (None, false),
    }
}

/// Over all RUN inputs: the deepest level number that binds one (0 if none),
/// and whether the model run variable occurs along the spine.
pub open spec fn run_walk(op: LogicalM, depth: int, vars: Seq<Seq<char>>, on: Seq<char>) -> (int, bool)
    decreases vars.len(),
{
    if vars.len() == 0 {
        (0, false)
    } else {
        let (m, r) = run_walk(op, depth, vars.drop_last(), on);
        let (f, o) = var_walk(op, depth, vars.last(), on);
        (match f {
            Some(d) => if d > m {
                d
            } else {
                m
            },
            None => m,
        }, r || o)
    }
}

fn is_var_exec(t: &Term, name: &str) -> (r: bool)
    ensures
        r == is_var(t@, name@),
{
    match t {
        Term::Variable(v) => str_equal(v.as_str(), name),
        _ => false,
    }
}

fn scan_walk_exec(p: &TriplePattern, var: &str, on: &str) -> (r: (bool, bool))
    ensures
        r == scan_walk(p@, var@, on@),
{
    let o0 = is_var_exec(&p.0, on);
    if is_var_exec(&p.0, var) {
        return (true, o0);
    }
    let o1 = is_var_exec(&p.1, on);
    if is_var_exec(&p.1, var) {
        return (true, o0 || o1);
    }
    let o2 = is_var_exec(&p.2, on);
    (is_var_exec(&p.2, var), o0 || o1 || o2)
}

fn var_walk_exec(op: &LogicalOperator, depth: usize, var: &str, on: &str) -> (r: (Option<usize>, bool))
    requires
        spine_joins(op@) <= depth,
    ensures
        r.1 == var_walk(op@, depth as int, var@, on@).1,
        match r.0 {
            Some(d) => var_walk(op@, depth as int, var@, on@).0 == Some(d as int),
            None => var_walk(op@, depth as int, var@, on@).0 is None,
        },
        r.0 matches Some(d) ==> d <= depth,
    decreases op,
{
    match op {
        LogicalOperator::Scan { pattern } => {
            let (f, o) = scan_walk_exec(pattern, var, on);
            (if f {
                Some(depth)
            } else {
                None
            }, o)
        },
        LogicalOperator::Projection { predicate, .. } => var_walk_exec(predicate, depth, var, on),
        LogicalOperator::Bind { input, .. } => var_walk_exec(input, depth, var, on),
        LogicalOperator::Selection { predicate, .. } => var_walk_exec(predicate, depth, var, on),
        LogicalOperator::Join { left, right } => {
            assert(op@ == LogicalM::Join { left: Box::new(left@), right: Box::new(right@) }) by {
                assert(op@ == logical_model(*op));
            }
            match &**right {
                LogicalOperator::Scan { pattern } => {
                    assert(right@ == (LogicalM::Scan { pattern: pattern@ }));
                    let (f, o) = scan_walk_exec(pattern, var, on);
                    if f {
                        (Some(depth), o)
                    } else {
                        let (r, o2) = var_walk_exec(left, depth - 1, var, on);
                        (r, o || o2)
                    }
                },
                _ => var_walk_exec(left, depth - 1, var, on),
            }
        },
        _ => (None, false),
    }
}

/// The deepest level binding a RUN input, and whether the run variable occurs.
pub fn run_walk_exec(op: &LogicalOperator, depth: usize, vars: &Vec<String>, on: &str) -> (r: (usize, bool))
    requires
        spine_joins(op@) <= depth,
    ensures
        r.0 as int == run_walk(op@, depth as int, vars.deep_view(), on@).0,
        r.1 == run_walk(op@, depth as int, vars.deep_view(), on@).1,
        r.0 <= depth,
{
    let ghost vs = vars.deep_view();
    let mut maxdepth: usize = 0;
    let mut retrieved = false;
    let mut i: usize = 0;
    while i < vars.len()
        invariant
            i <= vars@.len(),
            vs == vars.deep_view(),
            spine_joins(op@) <= depth,
            maxdepth <= depth,
            (maxdepth as int, retrieved) == run_walk(op@, depth as int, vs.subrange(0, i as int), on@),
        decreases vars@.len() - i,
    {
        let ghost pre = vs.subrange(0, i + 1);
        assert(pre.drop_last() =~= vs.subrange(0, i as int));
        assert(pre.last() == vars@[i as int]@);
        let (f, o) = var_walk_exec(op, depth, vars[i].as_str(), on);
        match f {
            Some(d) => {
                if d > maxdepth {
                    maxdepth = d;
                }
            },
            None => {},
        }
        retrieved = retrieved || o;
        i = i + 1;
    }
    assert(vs.subrange(0, vs.len() as int) =~= vs);
    (maxdepth, retrieved)
}

/// The plan with the RUN operator placed at level `rd`: the join met when the
/// level count (one less per join along the spine) equals `rd` gets its left
/// side wrapped in the RUN operator.
pub open spec fn inserted(
    cd: int,
    rd: int,
    op: LogicalM,
    ml: Option<LogicalM>,
    ivs: Seq<Seq<char>>,
    ov: Seq<char>,
) -> LogicalM
    decreases op,
{
    match op {
        LogicalM::Join { left, right } => if cd == rd && ml is Some {
            LogicalM::Join {
                left: Box::new(
                    LogicalM::MLPredict {
                        input: left,
                        model_name: GetterM::RunMLClause(Box::new(ml.unwrap())),
                        input_variables: ivs,
                        output_variable: ov,
                    },
                ),
                right,
            }
        } else {
            LogicalM::Join { left: Box::new(inserted(cd - 1, rd, *left, ml, ivs, ov)), right }
        },
        LogicalM::Projection { predicate, variables } => LogicalM::Projection {
            predicate: Box::new(inserted(cd, rd, *predicate, ml, ivs, ov)),
            variables,
        },
        LogicalM::Selection { predicate, condition } => LogicalM::Selection {
            predicate: Box::new(inserted(cd, rd, *predicate, ml, ivs, ov)),
            condition,
        },
        LogicalM::Bind { input, function_name, arguments, output_variable } => LogicalM::Bind {
            input: Box::new(inserted(cd, rd, *input, ml, ivs, ov)),
            function_name,
            arguments,
            output_variable,
        },
        _ => op,
    }
}

/// Whether placing the RUN operator never counts the join level below zero:
/// every join passed on the way down (one not at the level where the operator
/// goes) has a level of at least one.
pub open spec fn insertion_fits(cd: int, rd: int, op: LogicalM, has_retrieval: bool) -> bool
    decreases op,
{
    match op {
        LogicalM::Join { left, .. } => (cd == rd && has_retrieval) || (cd >= 1 && insertion_fits(
            cd - 1,
            rd,
            *left,
            has_retrieval,
        )),
        LogicalM::Projection { predicate, .. } => insertion_fits(cd, rd, *predicate, has_retrieval),
        LogicalM::Selection { predicate, .. } => insertion_fits(cd, rd, *predicate, has_retrieval),
        LogicalM::Bind { input, .. } => insertion_fits(cd, rd, *input, has_retrieval),
        _ => true,
    }
}

/// A level at least the number of spine joins always fits.
pub proof fn lemma_insertion_fits(cd: int, rd: int, op: LogicalM, has_retrieval: bool)
    requires
        spine_joins(op) <= cd,
    ensures
        insertion_fits(cd, rd, op, has_retrieval),
    decreases op,
{
    match op {
        LogicalM::Join { left, .. } => lemma_insertion_fits(cd - 1, rd, *left, has_retrieval),
        LogicalM::Projection { predicate, .. } => lemma_insertion_fits(cd, rd, *predicate, has_retrieval),
        LogicalM::Selection { predicate, .. } => lemma_insertion_fits(cd, rd, *predicate, has_retrieval),
        LogicalM::Bind { input, .. } => lemma_insertion_fits(cd, rd, *input, has_retrieval),
        _ => {},
    }
}

/// Places the RUN operator at the join level `replacement_depth`.
pub fn insert_ml_run_clause_logical_op(
    current_depth: usize,
    replacement_depth: usize,
    logical_op: &LogicalOperator,
    ml_model_retrieval: Option<LogicalOperator>,
    input_vars: &Vec<String>,
    output_var: &str,
) -> (r: LogicalOperator)
    requires
        insertion_fits(current_depth as int, replacement_depth as int, logical_op@, ml_model_retrieval is Some),
    ensures
        r@ == inserted(
            current_depth as int,
            replacement_depth as int,
            logical_op@,
            match ml_model_retrieval {
                Some(m) => Some(m@),
                None => None,
            },
            input_vars.deep_view(),
            output_var@,
        ),
    decreases logical_op,
{
    match logical_op {
        LogicalOperator::Join { left, right } => {
            if current_depth == replacement_depth && ml_model_retrieval.is_some() {
                let m = ml_model_retrieval.unwrap();
                let mlop = LogicalOperator::run_ml_clause_lo(
                    left.duplicate(),
                    m,
                    crate::terms::copy_strings(input_vars),
                    String::from_str(output_var),
                );
                LogicalOperator::join(mlop, right.duplicate())
            } else {
                let left_new = insert_ml_run_clause_logical_op(
                    current_depth - 1,
                    replacement_depth,
                    left,
                    ml_model_retrieval,
                    input_vars,
                    output_var,
                );
                LogicalOperator::join(left_new, right.duplicate())
            }
        },
        LogicalOperator::Projection { predicate, variables } => {
            let pred_new = insert_ml_run_clause_logical_op(
                current_depth,
                replacement_depth,
                predicate,
                ml_model_retrieval,
                input_vars,
                output_var,
            );
            LogicalOperator::projection(pred_new, crate::terms::copy_strings(variables))
        },
        LogicalOperator::Selection { predicate, condition } => {
            let pred_new = insert_ml_run_clause_logical_op(
                current_depth,
                replacement_depth,
                predicate,
                ml_model_retrieval,
                input_vars,
                output_var,
            );
            LogicalOperator::selection(pred_new, crate::query::copy_condition(condition))
        },
        LogicalOperator::Bind { input, function_name, arguments, output_variable } => {
            let input_new = insert_ml_run_clause_logical_op(
                current_depth,
                replacement_depth,
                input,
                ml_model_retrieval,
                input_vars,
                output_var,
            );
            LogicalOperator::bind(
                input_new,
                function_name.clone(),
                crate::terms::copy_strings(arguments),
                output_variable.clone(),
            )
        },
        _ => logical_op.duplicate(),
    }
}

} // verus!
