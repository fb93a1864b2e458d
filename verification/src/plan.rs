//! Building logical plans from parsed query components.

use vstd::prelude::*;
use vstd::string::*;
use crate::text::{first_index_of, find_char, substring, starts_with_char, str_equal, push_str};
use crate::terms::{Term, TermM, TriplePattern, PatternM, bound_count, count_bound_terms};
use crate::dictionary::{Dictionary, PrefixMap, prefix_lookup, after_encode, encoded_id, all_distinct};
use crate::query::{FilterExpression, FilterM, ValuesClause, Value, MLClause, SubQuery,
    convert_filter_to_condition};
use crate::operators::{LogicalOperator, LogicalM, PhysicalOperator, PhysicalM};
use crate::database::SparqlDatabase;
use crate::ml_clause::{ml_var_name, run_walk, least_join_naming, inserted, spine_joins, spine_ids_below,
    get_ml_var_name, run_walk_exec, get_least_nested_join_with_scan_on_str, insert_ml_run_clause_logical_op,
    var_walk, lemma_ml_var_has_join};

verus! {

/// A prefixed name expanded with a prefix table: text before the first ':'
/// names a prefix; a known prefix is replaced by its namespace, anything
/// else is left as it is.
pub open spec fn resolved(uri: Seq<char>, prefixes: Seq<(Seq<char>, Seq<char>)>) -> Seq<char> {
    match first_index_of(uri, ':') {
        Some(i) => match prefix_lookup(prefixes, uri.take(i)) {
            Some(base) => base + uri.skip(i + 1),
            None => uri,
        },
        None => uri,
    }
}

/// Resolves a URI with prefixes.
pub fn resolve_with_prefixes(uri: &str, prefixes: &PrefixMap) -> (r: String)
    requires
        prefixes.wf(),
    ensures
        r@ == resolved(uri@, prefixes@),
{
    match find_char(uri, ':') {
        Some(colon_pos) => {
            let prefix = substring(uri, 0, colon_pos);
            assert(prefix@ =~= uri@.take(colon_pos as int));
            match prefixes.get(prefix.as_str()) {
                Some(base_uri) => {
                    let mut out = base_uri.clone();
                    let n = uri.unicode_len();
                    let suffix = substring(uri, colon_pos + 1, n);
                    push_str(&mut out, suffix.as_str());
                    assert(suffix@ =~= uri@.skip(colon_pos + 1));
                    out
                },
                None => String::from_str(uri),
            }
        },
        None => String::from_str(uri),
    }
}

/// Whether a pattern text names a variable (starts with '?').
pub open spec fn is_variable_text(x: Seq<char>) -> bool {
    x.len() > 0 && x[0] == '?'
}

/// One position of a pattern text as a term, and the dictionary after encoding it.
pub open spec fn converted_term(
    x: Seq<char>,
    prefixes: Seq<(Seq<char>, Seq<char>)>,
    d: Seq<Seq<char>>,
) -> (Seq<Seq<char>>, TermM) {
    if is_variable_text(x) {
        (d, TermM::Variable(x))
    } else {
        let r = resolved(x, prefixes);
        (after_encode(d, r), TermM::Constant(encoded_id(d, r) as u32))
    }
}

/// A pattern text as a pattern, subject first, and the dictionary after it.
pub open spec fn converted_pattern(
    t: (Seq<char>, Seq<char>, Seq<char>),
    prefixes: Seq<(Seq<char>, Seq<char>)>,
    d: Seq<Seq<char>>,
) -> (Seq<Seq<char>>, PatternM) {
    let (d1, s) = converted_term(t.0, prefixes, d);
    let (d2, p) = converted_term(t.1, prefixes, d1);
    let (d3, o) = converted_term(t.2, prefixes, d2);
    (d3, (s, p, o))
}

/// Encoding never shrinks the dictionary and keeps it free of repetitions.
pub proof fn lemma_converted_term(x: Seq<char>, prefixes: Seq<(Seq<char>, Seq<char>)>, d: Seq<Seq<char>>)
    requires
        all_distinct(d),
    ensures
        all_distinct(converted_term(x, prefixes, d).0),
        converted_term(x, prefixes, d).0.len() <= d.len() + 1,
        d.len() <= converted_term(x, prefixes, d).0.len(),
        converted_term(x, prefixes, d).0.subrange(0, d.len() as int) == d,
        term_id_below(converted_term(x, prefixes, d).1, converted_term(x, prefixes, d).0.len()),
{
    if !is_variable_text(x) {
        let r = resolved(x, prefixes);
        if crate::dictionary::id_of(d, r) is None {
            assert(d.push(r).subrange(0, d.len() as int) =~= d);
            assert forall|i: int, j: int| 0 <= i < j < d.push(r).len() implies d.push(r)[i] != d.push(
                r,
            )[j] by {
                if j == d.len() {
                    assert(d.push(r)[i] == d[i]);
                }
            }
        } else {
            assert(d.subrange(0, d.len() as int) =~= d);
        }
    } else {
        assert(d.subrange(0, d.len() as int) =~= d);
    }
}

/// Whether a term's constant, if it has one, is an id below `n`.
pub open spec fn term_id_below(t: TermM, n: nat) -> bool {
    match t {
        TermM::Constant(id) => id < n,
        _ => true,
    }
}

/// Whether a pattern's constants are ids below `n`.
pub open spec fn pattern_ids_below(p: PatternM, n: nat) -> bool {
    term_id_below(p.0, n) && term_id_below(p.1, n) && term_id_below(p.2, n)
}

/// The dictionary grows by at most three strings per pattern, keeps what it
/// held, stays free of repetitions, and can decode the pattern's constants.
pub proof fn lemma_converted_pattern(
    t: (Seq<char>, Seq<char>, Seq<char>),
    prefixes: Seq<(Seq<char>, Seq<char>)>,
    d: Seq<Seq<char>>,
)
    requires
        all_distinct(d),
        d.len() + 3 <= u32::MAX,
    ensures
        all_distinct(converted_pattern(t, prefixes, d).0),
        converted_pattern(t, prefixes, d).0.len() <= d.len() + 3,
        d.len() <= converted_pattern(t, prefixes, d).0.len(),
        converted_pattern(t, prefixes, d).0.subrange(0, d.len() as int) == d,
        pattern_ids_below(converted_pattern(t, prefixes, d).1, converted_pattern(t, prefixes, d).0.len()),
{
    let (d1, s) = converted_term(t.0, prefixes, d);
    lemma_converted_term(t.0, prefixes, d);
    let (d2, p) = converted_term(t.1, prefixes, d1);
    lemma_converted_term(t.1, prefixes, d1);
    let (d3, o) = converted_term(t.2, prefixes, d2);
    lemma_converted_term(t.2, prefixes, d2);
    assert(d3.subrange(0, d.len() as int) =~= d2.subrange(0, d1.len() as int).subrange(0, d.len() as int));
}

/// Converts one position of a pattern.
fn convert_term(x: &str, prefixes: &PrefixMap, dict: &mut Dictionary) -> (t: Term)
    requires
        prefixes.wf(),
        old(dict).wf(),
        old(dict)@.len() < u32::MAX,
    ensures
        final(dict).wf(),
        (final(dict)@, t@) == converted_term(x@, prefixes@, old(dict)@),
{
    if starts_with_char(x, '?') {
        Term::Variable(String::from_str(x))
    } else {
        let resolved = resolve_with_prefixes(x, prefixes);
        Term::Constant(dict.encode(resolved.as_str()))
    }
}

/// Converts pattern strings to a TriplePattern, encoding its constants.
pub fn convert_pattern_to_triple(
    subject_str: &str,
    predicate_str: &str,
    object_str: &str,
    prefixes: &PrefixMap,
    database: &mut SparqlDatabase,
) -> (p: TriplePattern)
    requires
        prefixes.wf(),
        old(database).wf(),
        old(database).dictionary@.len() + 3 <= u32::MAX,
    ensures
        final(database).wf(),
        (final(database).dictionary@, p@) == converted_pattern(
            (subject_str@, predicate_str@, object_str@),
            prefixes@,
            old(database).dictionary@,
        ),
        final(database).triples == old(database).triples,
        final(database).prefixes == old(database).prefixes,
{
    proof {
        lemma_converted_term(subject_str@, prefixes@, database.dictionary@);
    }
    let subject = convert_term(subject_str, prefixes, &mut database.dictionary);
    proof {
        lemma_converted_term(predicate_str@, prefixes@, database.dictionary@);
    }
    let predicate = convert_term(predicate_str, prefixes, &mut database.dictionary);
    let object = convert_term(object_str, prefixes, &mut database.dictionary);
    (subject, predicate, object)
}

/// The scan pattern that a plan reaches through filters, if it is a scan.
pub open spec fn extracted_pattern(p: PhysicalM) -> Option<PatternM>
    decreases p,
{
    match p {
        PhysicalM::TableScan { pattern } => Some(pattern),
        PhysicalM::IndexScan { pattern } => Some(pattern),
        PhysicalM::Filter { input, .. } => extracted_pattern(*input),
        _ => None,
    }
}

/// Extracts a triple pattern from a physical operator if it's a scan operation.
pub fn extract_pattern(op: &PhysicalOperator) -> (r: Option<&TriplePattern>)
    ensures
        match r {
            Some(p) => extracted_pattern(op@) == Some(p@),
            None => extracted_pattern(op@) is None,
        },
    decreases op,
{
    match op {
        PhysicalOperator::TableScan { pattern } | PhysicalOperator::IndexScan { pattern } => Some(
            pattern,
        ),
        PhysicalOperator::Filter { input, .. } => extract_pattern(input),
        _ => None,
    }
}

/// The selectivity rank of a scan by its number of constants (fewer is more selective).
pub open spec fn scan_rank(bound: nat) -> nat {
    if bound == 3 {
        1
    } else if bound == 2 {
        2
    } else if bound == 1 {
        3
    } else if bound == 0 {
        4
    } else {
        5
    }
}

/// The selectivity estimate of a logical plan used to order operators.
pub open spec fn operator_selectivity(op: LogicalM) -> nat
    decreases op,
{
    match op {
        LogicalM::Scan { pattern } => scan_rank(bound_count(pattern)),
        LogicalM::Selection { predicate, .. } => operator_selectivity(*predicate) + 10,
        LogicalM::Join { left, right } => operator_selectivity(*left) + operator_selectivity(*right) + 5,
        LogicalM::Projection { predicate, .. } => operator_selectivity(*predicate) + 1,
        LogicalM::Buffer { .. } => 10000,
        LogicalM::Subquery { inner, .. } => operator_selectivity(*inner) + 15,
        LogicalM::Bind { input, .. } => operator_selectivity(*input) + 2,
        LogicalM::Values { values, .. } => values.len(),
        LogicalM::MLPredict { input, input_variables, .. } => operator_selectivity(*input) + 50
            + input_variables.len() * 10,
    }
}

/// Estimates the selectivity of an operator for optimization purposes.
pub fn estimate_operator_selectivity(op: &LogicalOperator, _database: &SparqlDatabase) -> (r: u64)
    requires
        operator_selectivity(op@) <= u64::MAX,
    ensures
        r == operator_selectivity(op@),
    decreases op,
{
    match op {
        LogicalOperator::Scan { pattern } => {
            let bound_count = count_bound_terms(pattern);
            match bound_count {
                3 => 1,
                2 => 2,
                1 => 3,
                0 => 4,
                _ => 5,
            }
        },
        LogicalOperator::Selection { predicate, .. } => estimate_operator_selectivity(predicate, _database)
            + 10,
        LogicalOperator::Join { left, right } => {
            let left_sel = estimate_operator_selectivity(left, _database);
            let right_sel = estimate_operator_selectivity(right, _database);
            left_sel + right_sel + 5
        },
        LogicalOperator::Projection { predicate, .. } => estimate_operator_selectivity(
            predicate,
            _database,
        ) + 1,
        LogicalOperator::Buffer { .. } => 10000,
        LogicalOperator::Subquery { inner, .. } => estimate_operator_selectivity(inner, _database) + 15,
        LogicalOperator::Bind { input, .. } => estimate_operator_selectivity(input, _database) + 2,
        LogicalOperator::Values { values, .. } => values.len() as u64,
        LogicalOperator::MLPredict { input, input_variables, .. } => {
            let base_selectivity = estimate_operator_selectivity(input, _database);
            let ml_overhead = 50 + (input_variables.len() as u64 * 10);
            base_selectivity + ml_overhead
        },
    }
}

/// A scan ranks four minus its number of constant positions: the more of its
/// pattern is bound, the earlier it is ordered.
pub proof fn lemma_scan_rank(pattern: PatternM)
    ensures
        bound_count(pattern) <= 3,
        operator_selectivity(LogicalM::Scan { pattern }) == 4 - bound_count(pattern),
{
}

/// Whether a projection kind names an aggregate.
pub open spec fn is_aggregate(kind: Seq<char>) -> bool {
    kind == "SUM"@ || kind == "MIN"@ || kind == "MAX"@ || kind == "AVG"@
}

/// The selected variable that a projection entry contributes.
pub open spec fn selected_entry(v: (Seq<char>, Seq<char>, Option<Seq<char>>)) -> (Seq<char>, Seq<char>) {
    if is_aggregate(v.0) {
        ("VAR"@, aggregate_output(v.2))
    } else {
        (v.0, v.1)
    }
}

/// The output name of an aggregate (empty when none is given).
pub open spec fn aggregate_output(o: Option<Seq<char>>) -> Seq<char> {
    match o {
        Some(n) => n,
        None => Seq::empty(),
    }
}

/// The selected variables that a list of projection entries contributes.
pub open spec fn selected_entries(vs: Seq<(Seq<char>, Seq<char>, Option<Seq<char>>)>) -> Seq<(Seq<char>, Seq<char>)>
    decreases vs.len(),
{
    if vs.len() == 0 {
        Seq::empty()
    } else {
        selected_entries(vs.drop_last()).push(selected_entry(vs.last()))
    }
}

/// The aggregations that a list of projection entries contributes.
pub open spec fn aggregation_entries(vs: Seq<(Seq<char>, Seq<char>, Option<Seq<char>>)>) -> Seq<(Seq<char>, Seq<char>, Seq<char>)>
    decreases vs.len(),
{
    if vs.len() == 0 {
        Seq::empty()
    } else if is_aggregate(vs.last().0) {
        aggregation_entries(vs.drop_last()).push((vs.last().0, vs.last().1, aggregate_output(vs.last().2)))
    } else {
        aggregation_entries(vs.drop_last())
    }
}

/// Splits projection entries into selected variables and aggregations.
pub fn process_variables(
    selected_variables: &mut Vec<(String, String)>,
    aggregation_vars: &mut Vec<(String, String, String)>,
    variables: Vec<(String, String, Option<String>)>,
)
    ensures
        final(selected_variables).deep_view() == old(selected_variables).deep_view() + selected_entries(
            variables.deep_view(),
        ),
        final(aggregation_vars).deep_view() == old(aggregation_vars).deep_view() + aggregation_entries(
            variables.deep_view(),
        ),
{
    let ghost sel0 = selected_variables.deep_view();
    let ghost agg0 = aggregation_vars.deep_view();
    let ghost vs = variables.deep_view();
    let mut i: usize = 0;
    while i < variables.len()
        invariant
            i <= variables@.len(),
            vs == variables.deep_view(),
            selected_variables.deep_view() == sel0 + selected_entries(vs.subrange(0, i as int)),
            aggregation_vars.deep_view() == agg0 + aggregation_entries(vs.subrange(0, i as int)),
        decreases variables@.len() - i,
    {
        let ghost pre = vs.subrange(0, i + 1);
        assert(pre.drop_last() =~= vs.subrange(0, i as int));
        assert(pre.last() == variables@[i as int].deep_view());
        let (agg_type, var, opt_output_var) = (&variables[i].0, &variables[i].1, &variables[i].2);
        let is_agg = str_equal(agg_type.as_str(), "SUM") || str_equal(agg_type.as_str(), "MIN")
            || str_equal(agg_type.as_str(), "MAX") || str_equal(agg_type.as_str(), "AVG");
        let ghost s_before = selected_variables.deep_view();
        let ghost a_before = aggregation_vars.deep_view();
        if is_agg {
            let output_var = match opt_output_var {
                Some(name) => name.clone(),
                None => String::new(),
            };
            assert(output_var@ == aggregate_output(pre.last().2));
            aggregation_vars.push((agg_type.clone(), var.clone(), output_var.clone()));
            selected_variables.push((String::from_str("VAR"), output_var));
            assert(aggregation_vars.deep_view() =~= a_before.push(
                (pre.last().0, pre.last().1, aggregate_output(pre.last().2)),
            ));
            assert(selected_variables.deep_view() =~= s_before.push(selected_entry(pre.last())));
        } else {
            selected_variables.push((agg_type.clone(), var.clone()));
            assert(selected_variables.deep_view() =~= s_before.push(selected_entry(pre.last())));
        }
        assert(selected_variables.deep_view() =~= sel0 + selected_entries(pre));
        assert(aggregation_vars.deep_view() =~= agg0 + aggregation_entries(pre));
        i = i + 1;
    }
    assert(vs.subrange(0, vs.len() as int) =~= vs);
}

/// Pattern texts converted in order, threading the dictionary.
pub open spec fn converted_patterns(
    ts: Seq<(Seq<char>, Seq<char>, Seq<char>)>,
    prefixes: Seq<(Seq<char>, Seq<char>)>,
    d: Seq<Seq<char>>,
) -> (Seq<Seq<char>>, Seq<PatternM>)
    decreases ts.len(),
{
    if ts.len() == 0 {
        (d, Seq::empty())
    } else {
        let (d1, ps) = converted_patterns(ts.drop_last(), prefixes, d);
        let (d2, p) = converted_pattern(ts.last(), prefixes, d1);
        (d2, ps.push(p))
    }
}

/// What converting patterns does to the dictionary and the ids it hands out.
pub proof fn lemma_converted_patterns(
    ts: Seq<(Seq<char>, Seq<char>, Seq<char>)>,
    prefixes: Seq<(Seq<char>, Seq<char>)>,
    d: Seq<Seq<char>>,
)
    requires
        all_distinct(d),
        d.len() + 3 * ts.len() <= u32::MAX,
    ensures
        all_distinct(converted_patterns(ts, prefixes, d).0),
        converted_patterns(ts, prefixes, d).0.len() <= d.len() + 3 * ts.len(),
        d.len() <= converted_patterns(ts, prefixes, d).0.len(),
        converted_patterns(ts, prefixes, d).1.len() == ts.len(),
        forall|k: int| 0 <= k < ts.len() ==> pattern_ids_below(
            #[trigger] converted_patterns(ts, prefixes, d).1[k],
            converted_patterns(ts, prefixes, d).0.len(),
        ),
    decreases ts.len(),
{
    if ts.len() > 0 {
        lemma_converted_patterns(ts.drop_last(), prefixes, d);
        let (d1, ps) = converted_patterns(ts.drop_last(), prefixes, d);
        lemma_converted_pattern(ts.last(), prefixes, d1);
        let (d2, p) = converted_pattern(ts.last(), prefixes, d1);
        assert forall|k: int| 0 <= k < ts.len() implies pattern_ids_below(
            #[trigger] ps.push(p)[k],
            d2.len(),
        ) by {
            if k < ts.len() - 1 {
                assert(ps.push(p)[k] == ps[k]);
                assert(pattern_ids_below(ps[k], d1.len()));
            }
        }
    }
}

/// Scans of `ps` joined, in order, onto `base` (a left-deep chain).
pub open spec fn join_scans(base: LogicalM, ps: Seq<PatternM>) -> LogicalM
    decreases ps.len(),
{
    if ps.len() == 0 {
        base
    } else {
        LogicalM::Join {
            left: Box::new(join_scans(base, ps.drop_last())),
            right: Box::new(LogicalM::Scan { pattern: ps.last() }),
        }
    }
}

/// A selection per filter, in order, over `op`.
pub open spec fn with_selections(op: LogicalM, fs: Seq<FilterM>) -> LogicalM
    decreases fs.len(),
{
    if fs.len() == 0 {
        op
    } else {
        LogicalM::Selection {
            predicate: Box::new(with_selections(op, fs.drop_last())),
            condition: fs.last(),
        }
    }
}

/// A BIND per entry, in order, over `op`.
pub open spec fn with_binds(op: LogicalM, bs: Seq<(Seq<char>, Seq<Seq<char>>, Seq<char>)>) -> LogicalM
    decreases bs.len(),
{
    if bs.len() == 0 {
        op
    } else {
        LogicalM::Bind {
            input: Box::new(with_binds(op, bs.drop_last())),
            function_name: bs.last().0,
            arguments: bs.last().1,
            output_variable: bs.last().2,
        }
    }
}

/// The pattern scanned by a query without patterns.
pub open spec fn default_pattern() -> PatternM {
    (TermM::Variable("?s"@), TermM::Variable("?p"@), TermM::Variable("?o"@))
}

/// The value of a VALUES clause: its variables and its rows.
pub open spec fn values_clause_model(vc: ValuesClause) -> (Seq<Seq<char>>, Seq<Seq<Option<Seq<char>>>>) {
    (vc.variables.deep_view(), vc.values.deep_view())
}

/// The value of a RUN clause: inputs, model run variable, output variable.
pub open spec fn ml_clause_model(m: MLClause) -> (Seq<Seq<char>>, Seq<char>, Seq<char>) {
    (m.run.deep_view(), m.on@, m.to@)
}

/// The scans of a query: a VALUES table joined with every pattern, or the first
/// pattern's scan joined with the rest (a catch-all scan when there is none).
pub open spec fn base_plan(
    vc: Option<(Seq<Seq<char>>, Seq<Seq<Option<Seq<char>>>>)>,
    pats: Seq<(Seq<char>, Seq<char>, Seq<char>)>,
    prefixes: Seq<(Seq<char>, Seq<char>)>,
    d: Seq<Seq<char>>,
) -> (Seq<Seq<char>>, LogicalM) {
    let (d1, ps) = converted_patterns(pats, prefixes, d);
    match vc {
        Some((vars, rows)) => (d1, join_scans(LogicalM::Values { variables: vars, values: rows }, ps)),
        None => if pats.len() == 0 {
            (d, LogicalM::Scan { pattern: default_pattern() })
        } else {
            (d1, join_scans(LogicalM::Scan { pattern: ps[0] }, ps.skip(1)))
        },
    }
}

/// The query plan before any RUN clause: scans, then filters, then BINDs, then
/// a projection on the selected variable names when there are any.
pub open spec fn core_plan(
    variables: Seq<(Seq<char>, Seq<char>)>,
    pats: Seq<(Seq<char>, Seq<char>, Seq<char>)>,
    filters: Seq<FilterM>,
    prefixes: Seq<(Seq<char>, Seq<char>)>,
    d: Seq<Seq<char>>,
    binds: Seq<(Seq<char>, Seq<Seq<char>>, Seq<char>)>,
    vc: Option<(Seq<Seq<char>>, Seq<Seq<Option<Seq<char>>>>)>,
) -> (Seq<Seq<char>>, LogicalM) {
    let (d1, b) = base_plan(vc, pats, prefixes, d);
    let bb = with_binds(with_selections(b, filters), binds);
    (d1, if variables.len() == 0 {
        bb
    } else {
        LogicalM::Projection {
            predicate: Box::new(bb),
            variables: variables.map_values(|v: (Seq<char>, Seq<char>)| v.1),
        }
    })
}

/// The plan with a RUN clause placed: the models come from the variable that a
/// `hasOutput` scan binds, else from the scans naming the run variable extended
/// with the model lookup, else from a fresh model lookup; the RUN operator goes
/// one level above the deepest level binding one of its inputs.
pub open spec fn ml_plan(
    result: LogicalM,
    d: Seq<Seq<char>>,
    run: Seq<Seq<char>>,
    on: Seq<char>,
    to: Seq<char>,
    nps: nat,
    prefixes: Seq<(Seq<char>, Seq<char>)>,
    has_output: Seq<char>,
) -> (Seq<Seq<char>>, LogicalM) {
    let mv = ml_var_name(result, on, d, has_output);
    let (maxd, retrieved) = run_walk(result, nps as int, run, on);
    let rd = maxd + 1;
    match mv {
        None => if retrieved {
            let b = least_join_naming(on, result, d).unwrap();
            let (d2, p2) = converted_pattern((on, "mls:hasOutput"@, "?mlmodel"@), prefixes, d);
            let (d3, p3) = converted_pattern(("?mlmodel"@, "rdf:type"@, "mls:Model"@), prefixes, d2);
            let ret = model_lookup(b, p2, p3);
            (d3, inserted(nps as int, rd, result, Some(ret), run, to))
        } else {
            let (d1, p1) = converted_pattern((on, "rdf:type"@, "mls:Run"@), prefixes, d);
            let (d2, p2) = converted_pattern((on, "mls:hasOutput"@, "?mlmodel"@), prefixes, d1);
            let (d3, p3) = converted_pattern(("?mlmodel"@, "rdf:type"@, "mls:Model"@), prefixes, d2);
            let ret = model_lookup(LogicalM::Scan { pattern: p1 }, p2, p3);
            (d3, inserted(nps as int, rd, result, Some(ret), run, to))
        },
        Some(v) => {
            let b = least_join_naming(v, result, d).unwrap();
            let ret = LogicalM::Projection { predicate: Box::new(b), variables: seq![v] };
            (d, inserted(nps as int, rd, result, Some(ret), run, to))
        },
    }
}

/// `base` joined with the `hasOutput` and model-type scans, projected on `?mlmodel`.
pub open spec fn model_lookup(base: LogicalM, p2: PatternM, p3: PatternM) -> LogicalM {
    LogicalM::Projection {
        predicate: Box::new(
            LogicalM::Join {
                left: Box::new(
                    LogicalM::Join { left: Box::new(base), right: Box::new(LogicalM::Scan { pattern: p2 }) },
                ),
                right: Box::new(LogicalM::Scan { pattern: p3 }),
            },
        ),
        variables: seq!["?mlmodel"@],
    }
}

/// Joining scans onto a plan adds one spine join per scan, and keeps the
/// spine's constants decodable when the scans' are.
pub proof fn lemma_join_scans_spine(base: LogicalM, ps: Seq<PatternM>, n: nat)
    ensures
        spine_joins(join_scans(base, ps)) == spine_joins(base) + ps.len(),
        spine_ids_below(base, n) && (forall|k: int| 0 <= k < ps.len() ==> pattern_ids_below(#[trigger] ps[k], n))
            ==> spine_ids_below(join_scans(base, ps), n),
    decreases ps.len(),
{
    if ps.len() > 0 {
        lemma_join_scans_spine(base, ps.drop_last(), n);
        if spine_ids_below(base, n) && (forall|k: int| 0 <= k < ps.len() ==> pattern_ids_below(#[trigger] ps[k], n)) {
            assert forall|k: int| 0 <= k < ps.drop_last().len() implies pattern_ids_below(#[trigger] ps.drop_last()[k], n) by {
                assert(ps.drop_last()[k] == ps[k]);
            }
            assert(pattern_ids_below(ps[ps.len() - 1], n));
        }
    }
}

/// Selections and BINDs leave the spine's joins and constants as they are.
pub proof fn lemma_wrappers_spine(
    op: LogicalM,
    fs: Seq<FilterM>,
    bs: Seq<(Seq<char>, Seq<Seq<char>>, Seq<char>)>,
    n: nat,
)
    ensures
        spine_joins(with_selections(op, fs)) == spine_joins(op),
        spine_ids_below(with_selections(op, fs), n) == spine_ids_below(op, n),
        spine_joins(with_binds(op, bs)) == spine_joins(op),
        spine_ids_below(with_binds(op, bs), n) == spine_ids_below(op, n),
    decreases fs.len() + bs.len(),
{
    if fs.len() > 0 {
        lemma_wrappers_spine(op, fs.drop_last(), bs, n);
    }
    if bs.len() > 0 {
        lemma_wrappers_spine(op, fs, bs.drop_last(), n);
    }
}

/// Meeting the run variable on the walk means the search for it succeeds.
pub proof fn lemma_walk_finds_run_var(op: LogicalM, depth: int, var: Seq<char>, on: Seq<char>, d: Seq<Seq<char>>)
    requires
        var_walk(op, depth, var, on).1,
    ensures
        least_join_naming(on, op, d) is Some,
    decreases op,
{
    match op {
        LogicalM::Projection { predicate, .. } => lemma_walk_finds_run_var(*predicate, depth, var, on, d),
        LogicalM::Selection { predicate, .. } => lemma_walk_finds_run_var(*predicate, depth, var, on, d),
        LogicalM::Bind { input, .. } => lemma_walk_finds_run_var(*input, depth, var, on, d),
        LogicalM::Join { left, right } => match *right {
            LogicalM::Scan { pattern } => {
                if !crate::ml_clause::scan_walk(pattern, var, on).1 {
                    lemma_walk_finds_run_var(*left, depth - 1, var, on, d);
                }
            },
            _ => lemma_walk_finds_run_var(*left, depth - 1, var, on, d),
        },
        _ => {},
    }
}

/// Meeting the run variable for some input means the search for it succeeds.
pub proof fn lemma_run_walk_finds_run_var(op: LogicalM, depth: int, vars: Seq<Seq<char>>, on: Seq<char>, d: Seq<Seq<char>>)
    requires
        run_walk(op, depth, vars, on).1,
    ensures
        least_join_naming(on, op, d) is Some,
    decreases vars.len(),
{
    if vars.len() > 0 {
        if run_walk(op, depth, vars.drop_last(), on).1 {
            lemma_run_walk_finds_run_var(op, depth, vars.drop_last(), on, d);
        } else {
            lemma_walk_finds_run_var(op, depth, vars.last(), on, d);
        }
    }
}

/// The walk's deepest level never exceeds the starting depth.
pub proof fn lemma_run_walk_bound(op: LogicalM, depth: int, vars: Seq<Seq<char>>, on: Seq<char>)
    requires
        depth >= 0,
    ensures
        0 <= run_walk(op, depth, vars, on).0 <= depth,
    decreases vars.len(),
{
    if vars.len() > 0 {
        lemma_run_walk_bound(op, depth, vars.drop_last(), on);
        lemma_var_walk_bound(op, depth, vars.last(), on);
    }
}

/// A level found by the walk is at most the starting depth.
pub proof fn lemma_var_walk_bound(op: LogicalM, depth: int, var: Seq<char>, on: Seq<char>)
    ensures
        var_walk(op, depth, var, on).0 matches Some(x) ==> x <= depth,
    decreases op,
{
    match op {
        LogicalM::Projection { predicate, .. } => lemma_var_walk_bound(*predicate, depth, var, on),
        LogicalM::Selection { predicate, .. } => lemma_var_walk_bound(*predicate, depth, var, on),
        LogicalM::Bind { input, .. } => lemma_var_walk_bound(*input, depth, var, on),
        LogicalM::Join { left, .. } => lemma_var_walk_bound(*left, depth - 1, var, on),
        _ => {},
    }
}

/// The whole plan of a query: the core plan, with the RUN clause placed when
/// there is one (`hasOutput` resolved with the database's own prefixes).
pub open spec fn built_plan(
    variables: Seq<(Seq<char>, Seq<char>)>,
    pats: Seq<(Seq<char>, Seq<char>, Seq<char>)>,
    filters: Seq<FilterM>,
    prefixes: Seq<(Seq<char>, Seq<char>)>,
    d: Seq<Seq<char>>,
    binds: Seq<(Seq<char>, Seq<Seq<char>>, Seq<char>)>,
    vc: Option<(Seq<Seq<char>>, Seq<Seq<Option<Seq<char>>>>)>,
    ml: Option<(Seq<Seq<char>>, Seq<char>, Seq<char>)>,
    db_prefixes: Seq<(Seq<char>, Seq<char>)>,
) -> (Seq<Seq<char>>, LogicalM) {
    let (d1, r) = core_plan(variables, pats, filters, prefixes, d, binds, vc);
    match ml {
        None => (d1, r),
        Some((run, on, to)) => ml_plan(
            r,
            d1,
            run,
            on,
            to,
            pats.len(),
            prefixes,
            resolved("mls:hasOutput"@, db_prefixes),
        ),
    }
}

/// The VALUES table as plan rows.
fn convert_values(vc: &ValuesClause) -> (r: (Vec<String>, Vec<Vec<Option<String>>>))
    ensures
        r.0.deep_view() == vc.variables.deep_view(),
        r.1.deep_view() == vc.values.deep_view(),
{
    let variables = crate::terms::copy_strings(&vc.variables);
    let mut rows: Vec<Vec<Option<String>>> = Vec::new();
    let mut i: usize = 0;
    while i < vc.values.len()
        invariant
            i <= vc.values@.len(),
            rows@.len() == i,
            rows.deep_view() == vc.values.deep_view().subrange(0, i as int),
        decreases vc.values@.len() - i,
    {
        let row = &vc.values[i];
        let mut out: Vec<Option<String>> = Vec::new();
        let mut k: usize = 0;
        while k < row.len()
            invariant
                k <= row@.len(),
                out@.len() == k,
                out.deep_view() == row.deep_view().subrange(0, k as int),
            decreases row@.len() - k,
        {
            let ghost prev = out@;
            let ghost prevd = out.deep_view();
            let cell = match &row[k] {
                Value::Term(term) => Some(term.clone()),
                Value::Undef => None,
            };
            out.push(cell);
            proof {
                assert forall|j: int| 0 <= j < k + 1 implies #[trigger] out.deep_view()[j] == row.deep_view()[j] by {
                    assert(out.deep_view()[j] == out@[j].deep_view());
                    assert(row.deep_view()[j] == row@[j].deep_view());
                    if j < k {
                        assert(out@[j] == prev[j]);
                        assert(prevd[j] == prev[j].deep_view());
                    }
                }
                assert(out.deep_view() =~= row.deep_view().subrange(0, k + 1));
            }
            k = k + 1;
        }
        assert(out.deep_view() =~= row.deep_view());
        let ghost prev = rows@;
        let ghost prevd = rows.deep_view();
        rows.push(out);
        proof {
            assert forall|j: int| 0 <= j < i + 1 implies #[trigger] rows.deep_view()[j] == vc.values.deep_view()[j] by {
                assert(rows.deep_view()[j] == rows@[j].deep_view());
                assert(vc.values.deep_view()[j] == vc.values@[j].deep_view());
                if j < i {
                    assert(rows@[j] == prev[j]);
                    assert(prevd[j] == prev[j].deep_view());
                }
            }
            assert(rows.deep_view() =~= vc.values.deep_view().subrange(0, i + 1));
        }
        i = i + 1;
    }
    assert(rows.deep_view() =~= vc.values.deep_view());
    (variables, rows)
}

/// The scans of a query, joined left to right.
#[verifier::rlimit(60)]
fn build_scans(
    patterns: &Vec<(String, String, String)>,
    prefixes: &PrefixMap,
    database: &mut SparqlDatabase,
    values_clause: Option<&ValuesClause>,
) -> (r: LogicalOperator)
    requires
        prefixes.wf(),
        old(database).wf(),
        old(database).dictionary@.len() + 3 * patterns@.len() <= u32::MAX,
    ensures
        final(database).wf(),
        (final(database).dictionary@, r@) == base_plan(
            match values_clause {
                Some(vc) => Some(values_clause_model(*vc)),
                None => None,
            },
            patterns.deep_view(),
            prefixes@,
            old(database).dictionary@,
        ),
        final(database).triples == old(database).triples,
        final(database).prefixes == old(database).prefixes,
{
    let ghost d0 = database.dictionary@;
    let ghost pats = patterns.deep_view();
    let ghost vcm = match values_clause {
        Some(vc) => Some(values_clause_model(*vc)),
        None => None,
    };
    let n = patterns.len();
    let mut result: LogicalOperator;
    let start: usize;
    let ghost mut base: LogicalM;
    match values_clause {
        Some(vc) => {
            let (vars, rows) = convert_values(vc);
            result = LogicalOperator::values(vars, rows);
            start = 0;
            proof {
                base = result@;
                assert(pats.take(0) =~= Seq::<(Seq<char>, Seq<char>, Seq<char>)>::empty());
                assert(converted_patterns(pats.take(0), prefixes@, d0) == (d0, Seq::<PatternM>::empty()));
                assert(converted_patterns(pats.take(0), prefixes@, d0).1.skip(0) =~= Seq::<PatternM>::empty());
            }
        },
        None => {
            if n == 0 {
                let r = LogicalOperator::scan(
                    (
                        Term::Variable(String::from_str("?s")),
                        Term::Variable(String::from_str("?p")),
                        Term::Variable(String::from_str("?o")),
                    ),
                );
                return r;
            }
            proof {
                assert(pats.take(1).drop_last() =~= pats.take(0));
                assert(pats.take(0) =~= Seq::<(Seq<char>, Seq<char>, Seq<char>)>::empty());
                assert(pats.take(1).last() == pats[0]);
                lemma_converted_pattern(pats[0], prefixes@, d0);
            }
            let p0 = convert_pattern_to_triple(
                patterns[0].0.as_str(),
                patterns[0].1.as_str(),
                patterns[0].2.as_str(),
                prefixes,
                database,
            );
            let ghost p0m = p0@;
            result = LogicalOperator::scan(p0);
            start = 1;
            proof {
                base = result@;
                assert(converted_patterns(pats.take(0), prefixes@, d0) == (d0, Seq::<PatternM>::empty()));
                assert(converted_patterns(pats.take(1), prefixes@, d0) == (database.dictionary@, Seq::<PatternM>::empty().push(p0m)));
                lemma_converted_patterns(pats.take(1), prefixes@, d0);
                assert(converted_patterns(pats.take(1), prefixes@, d0).1.skip(1) =~= Seq::<PatternM>::empty());
            }
        },
    }
    let mut i: usize = start;
    while i < n
        invariant
            n == patterns@.len(),
            pats == patterns.deep_view(),
            start <= i <= n,
            start == (if vcm is Some { 0usize } else { 1usize }),
            prefixes.wf(),
            database.wf(),
            d0.len() + 3 * n <= u32::MAX,
            all_distinct(d0),
            database.dictionary@ == converted_patterns(pats.take(i as int), prefixes@, d0).0,
            result@ == join_scans(base, converted_patterns(pats.take(i as int), prefixes@, d0).1.skip(start as int)),
            converted_patterns(pats.take(i as int), prefixes@, d0).1.len() == i,
            vcm is Some ==> base == (LogicalM::Values { variables: vcm.unwrap().0, values: vcm.unwrap().1 }),
            vcm is None ==> base == (LogicalM::Scan { pattern: converted_patterns(pats.take(i as int), prefixes@, d0).1[0] }),
            database.triples == old(database).triples,
            database.prefixes == old(database).prefixes,
        decreases n - i,
    {
        let ghost ti = pats.take(i as int);
        let ghost ti1 = pats.take(i + 1);
        proof {
            assert(ti1.drop_last() =~= ti);
            assert(ti1.last() == pats[i as int]);
            lemma_converted_patterns(ti, prefixes@, d0);
        }
        let ghost (d1, ps) = converted_patterns(ti, prefixes@, d0);
        let pattern = convert_pattern_to_triple(
            patterns[i].0.as_str(),
            patterns[i].1.as_str(),
            patterns[i].2.as_str(),
            prefixes,
            database,
        );
        let ghost p = pattern@;
        let scan_op = LogicalOperator::scan(pattern);
        result = LogicalOperator::join(result, scan_op);
        proof {
            let ps1 = ps.push(p);
            assert(converted_patterns(ti1, prefixes@, d0) == (database.dictionary@, ps1));
            assert(ps1.skip(start as int).drop_last() =~= ps.skip(start as int));
            assert(ps1.skip(start as int).last() == p);
            if vcm is None {
                assert(ps1[0] == ps[0]);
            }
        }
        i = i + 1;
    }
    proof {
        assert(pats.take(n as int) =~= pats);
        let (df, psf) = converted_patterns(pats, prefixes@, d0);
        assert(psf.skip(0) =~= psf);
        if vcm is Some {
            assert(result@ == join_scans(base, psf));
        } else {
            assert(pats.len() != 0);
            assert(result@ == join_scans(LogicalM::Scan { pattern: psf[0] }, psf.skip(1)));
        }
    }
    result
}

/// The scans' spine has at most one join per pattern, and decodable constants.
pub proof fn lemma_base_plan_spine(
    vc: Option<(Seq<Seq<char>>, Seq<Seq<Option<Seq<char>>>>)>,
    pats: Seq<(Seq<char>, Seq<char>, Seq<char>)>,
    prefixes: Seq<(Seq<char>, Seq<char>)>,
    d: Seq<Seq<char>>,
)
    requires
        all_distinct(d),
        d.len() + 3 * pats.len() <= u32::MAX,
    ensures
        spine_joins(base_plan(vc, pats, prefixes, d).1) <= pats.len(),
        spine_ids_below(base_plan(vc, pats, prefixes, d).1, base_plan(vc, pats, prefixes, d).0.len()),
        all_distinct(base_plan(vc, pats, prefixes, d).0),
        base_plan(vc, pats, prefixes, d).0.len() <= d.len() + 3 * pats.len(),
{
    lemma_converted_patterns(pats, prefixes, d);
    let (d1, ps) = converted_patterns(pats, prefixes, d);
    let n = d1.len();
    match vc {
        Some((vars, rows)) => {
            lemma_join_scans_spine(LogicalM::Values { variables: vars, values: rows }, ps, n);
        },
        None => {
            if pats.len() != 0 {
                let rest = ps.skip(1);
                assert forall|k: int| 0 <= k < rest.len() implies pattern_ids_below(#[trigger] rest[k], n) by {
                    assert(rest[k] == ps[k + 1]);
                }
                assert(pattern_ids_below(ps[0], n));
                lemma_join_scans_spine(LogicalM::Scan { pattern: ps[0] }, rest, n);
            }
        },
    }
}

/// Places a RUN clause into a plan built from `nps` patterns.
#[verifier::rlimit(60)]
fn apply_ml_clause(
    result: LogicalOperator,
    mlc: &MLClause,
    nps: usize,
    prefixes: &PrefixMap,
    database: &mut SparqlDatabase,
) -> (r: LogicalOperator)
    requires
        prefixes.wf(),
        old(database).wf(),
        spine_joins(result@) <= nps,
        spine_ids_below(result@, old(database).dictionary@.len()),
        old(database).dictionary@.len() + 9 <= u32::MAX,
        nps < usize::MAX,
    ensures
        final(database).wf(),
        (final(database).dictionary@, r@) == ml_plan(
            result@,
            old(database).dictionary@,
            mlc.run.deep_view(),
            mlc.on@,
            mlc.to@,
            nps as nat,
            prefixes@,
            resolved("mls:hasOutput"@, old(database).prefixes@),
        ),
        final(database).triples == old(database).triples,
        final(database).prefixes == old(database).prefixes,
{
    let ghost d0 = database.dictionary@;
    let has_output = resolve_with_prefixes("mls:hasOutput", &database.prefixes);
    let ml_models_var = get_ml_var_name(&result, mlc.on.as_str(), &database.dictionary, has_output.as_str());
    let (maxdepth, retrieved) = run_walk_exec(&result, nps, &mlc.run, mlc.on.as_str());
    let replacement_depth = maxdepth + 1;
    match ml_models_var {
        None => {
            if retrieved {
                proof {
                    lemma_run_walk_finds_run_var(result@, nps as int, mlc.run.deep_view(), mlc.on@, d0);
                }
                proof {
                    crate::ml_clause::lemma_spine_decodable(mlc.on@, result@, database.dictionary@);
                }
                let found = get_least_nested_join_with_scan_on_str(mlc.on.as_str(), &result, &database.dictionary);
                let b = found.unwrap();
                proof {
                    lemma_converted_pattern((mlc.on@, "mls:hasOutput"@, "?mlmodel"@), prefixes@, d0);
                }
                let p2 = convert_pattern_to_triple(mlc.on.as_str(), "mls:hasOutput", "?mlmodel", prefixes, database);
                let p3 = convert_pattern_to_triple("?mlmodel", "rdf:type", "mls:Model", prefixes, database);
                let mut ret = LogicalOperator::join(b, LogicalOperator::scan(p2));
                ret = LogicalOperator::join(ret, LogicalOperator::scan(p3));
                let names = vec![String::from_str("?mlmodel")];
                assert(names.deep_view() =~= seq!["?mlmodel"@]);
                ret = LogicalOperator::projection(ret, names);
                proof {
                    crate::ml_clause::lemma_insertion_fits(nps as int, replacement_depth as int, result@, true);
                }
                insert_ml_run_clause_logical_op(nps, replacement_depth, &result, Some(ret), &mlc.run, mlc.to.as_str())
            } else {
                proof {
                    lemma_converted_pattern((mlc.on@, "rdf:type"@, "mls:Run"@), prefixes@, d0);
                    let d1 = converted_pattern((mlc.on@, "rdf:type"@, "mls:Run"@), prefixes@, d0).0;
                    lemma_converted_pattern((mlc.on@, "mls:hasOutput"@, "?mlmodel"@), prefixes@, d1);
                }
                let p1 = convert_pattern_to_triple(mlc.on.as_str(), "rdf:type", "mls:Run", prefixes, database);
                let p2 = convert_pattern_to_triple(mlc.on.as_str(), "mls:hasOutput", "?mlmodel", prefixes, database);
                let p3 = convert_pattern_to_triple("?mlmodel", "rdf:type", "mls:Model", prefixes, database);
                let mut ret = LogicalOperator::scan(p1);
                ret = LogicalOperator::join(ret, LogicalOperator::scan(p2));
                ret = LogicalOperator::join(ret, LogicalOperator::scan(p3));
                let names = vec![String::from_str("?mlmodel")];
                assert(names.deep_view() =~= seq!["?mlmodel"@]);
                ret = LogicalOperator::projection(ret, names);
                proof {
                    crate::ml_clause::lemma_insertion_fits(nps as int, replacement_depth as int, result@, true);
                }
                insert_ml_run_clause_logical_op(nps, replacement_depth, &result, Some(ret), &mlc.run, mlc.to.as_str())
            }
        },
        Some(v) => {
            proof {
                lemma_ml_var_has_join(result@, mlc.on@, d0, has_output@);
            }
            proof {
                crate::ml_clause::lemma_spine_decodable(v@, result@, database.dictionary@);
            }
            let found = get_least_nested_join_with_scan_on_str(v.as_str(), &result, &database.dictionary);
            let b = found.unwrap();
            let names = vec![v];
            let ghost vm = names@[0]@;
            assert(names.deep_view() =~= seq![vm]);
            let ret = LogicalOperator::projection(b, names);
            proof {
                crate::ml_clause::lemma_insertion_fits(nps as int, replacement_depth as int, result@, true);
            }
            insert_ml_run_clause_logical_op(nps, replacement_depth, &result, Some(ret), &mlc.run, mlc.to.as_str())
        },
    }
}

/// Builds the logical plan of a query from its components.
#[verifier::rlimit(60)]
pub fn build_logical_plan(
    variables: Vec<(String, String)>,
    patterns: Vec<(String, String, String)>,
    filters: Vec<FilterExpression>,
    prefixes: &PrefixMap,
    database: &mut SparqlDatabase,
    binds: &Vec<(String, Vec<String>, String)>,
    values_clause: Option<&ValuesClause>,
    ml_run_clause: Option<MLClause>,
) -> (r: LogicalOperator)
    requires
        prefixes.wf(),
        old(database).wf(),
        old(database).dictionary@.len() + 3 * patterns@.len() + 9 <= u32::MAX,
    ensures
        final(database).wf(),
        (final(database).dictionary@, r@) == built_plan(
            variables.deep_view(),
            patterns.deep_view(),
            filters.deep_view(),
            prefixes@,
            old(database).dictionary@,
            binds.deep_view(),
            match values_clause {
                Some(vc) => Some(values_clause_model(*vc)),
                None => None,
            },
            match ml_run_clause {
                Some(m) => Some(ml_clause_model(m)),
                None => None,
            },
            old(database).prefixes@,
        ),
        final(database).triples == old(database).triples,
        final(database).prefixes == old(database).prefixes,
{
    let ghost d0 = database.dictionary@;
    let ghost vcm = match values_clause {
        Some(vc) => Some(values_clause_model(*vc)),
        None => None,
    };
    proof {
        lemma_base_plan_spine(vcm, patterns.deep_view(), prefixes@, d0);
    }
    let mut result = build_scans(&patterns, prefixes, database, values_clause);
    let ghost b = result@;
    let ghost fs = filters.deep_view();
    let mut k: usize = 0;
    while k < filters.len()
        invariant
            k <= filters@.len(),
            fs == filters.deep_view(),
            result@ == with_selections(b, fs.take(k as int)),
        decreases filters@.len() - k,
    {
        assert(fs.take(k + 1).drop_last() =~= fs.take(k as int));
        let condition = convert_filter_to_condition(&filters[k]);
        result = LogicalOperator::selection(result, condition);
        k = k + 1;
    }
    assert(fs.take(filters@.len() as int) =~= fs);
    let ghost sb = result@;
    let ghost bs = binds.deep_view();
    let mut j: usize = 0;
    while j < binds.len()
        invariant
            j <= binds@.len(),
            bs == binds.deep_view(),
            result@ == with_binds(sb, bs.take(j as int)),
        decreases binds@.len() - j,
    {
        assert(bs.take(j + 1).drop_last() =~= bs.take(j as int));
        assert(bs.take(j + 1).last() == binds@[j as int].deep_view());
        let (func_name, args, output_var) = (&binds[j].0, &binds[j].1, &binds[j].2);
        result = LogicalOperator::bind(
            result,
            func_name.clone(),
            crate::terms::copy_strings(args),
            output_var.clone(),
        );
        j = j + 1;
    }
    assert(bs.take(binds@.len() as int) =~= bs);
    if variables.len() != 0 {
        let ghost vs = variables.deep_view();
        let mut var_names: Vec<String> = Vec::new();
        let mut m: usize = 0;
        while m < variables.len()
            invariant
                m <= variables@.len(),
                vs == variables.deep_view(),
                var_names.deep_view() == vs.take(m as int).map_values(|v: (Seq<char>, Seq<char>)| v.1),
            decreases variables@.len() - m,
        {
            let ghost before = var_names.deep_view();
            var_names.push(variables[m].1.clone());
            assert(var_names.deep_view() =~= before.push(vs[m as int].1));
            assert(vs.take(m + 1).map_values(|v: (Seq<char>, Seq<char>)| v.1) =~= vs.take(m as int).map_values(
                |v: (Seq<char>, Seq<char>)| v.1,
            ).push(vs[m as int].1));
            m = m + 1;
        }
        assert(vs.take(variables@.len() as int) =~= vs);
        result = LogicalOperator::projection(result, var_names);
    }
    proof {
        let (d1, base) = base_plan(vcm, patterns.deep_view(), prefixes@, d0);
        lemma_wrappers_spine(base, fs, bs, d1.len());
        lemma_wrappers_spine(with_selections(base, fs), Seq::empty(), bs, d1.len());
    }
    match ml_run_clause {
        Some(mlc) => apply_ml_clause(result, &mlc, patterns.len(), prefixes, database),
        None => result,
    }
}

/// The (kind, name) pairs of subquery projection entries.
pub open spec fn entry_pairs(vs: Seq<(Seq<char>, Seq<char>, Option<Seq<char>>)>) -> Seq<(Seq<char>, Seq<char>)> {
    vs.map_values(|v: (Seq<char>, Seq<char>, Option<Seq<char>>)| (v.0, v.1))
}

fn copy_pattern_texts(v: &Vec<(String, String, String)>) -> (r: Vec<(String, String, String)>)
    ensures
        r.deep_view() == v.deep_view(),
{
    let mut r: Vec<(String, String, String)> = Vec::new();
    let mut i: usize = 0;
    while i < v.len()
        invariant
            i <= v@.len(),
            r.deep_view() == v.deep_view().take(i as int),
        decreases v@.len() - i,
    {
        let ghost before = r.deep_view();
        r.push((v[i].0.clone(), v[i].1.clone(), v[i].2.clone()));
        assert(r.deep_view() =~= before.push(v@[i as int].deep_view()));
        assert(v.deep_view().take(i + 1) =~= v.deep_view().take(i as int).push(v@[i as int].deep_view()));
        i = i + 1;
    }
    assert(v.deep_view().take(v@.len() as int) =~= v.deep_view());
    r
}

fn copy_filters(v: &Vec<FilterExpression>) -> (r: Vec<FilterExpression>)
    ensures
        r.deep_view() == v.deep_view(),
{
    let mut r: Vec<FilterExpression> = Vec::new();
    let mut i: usize = 0;
    while i < v.len()
        invariant
            i <= v@.len(),
            r.deep_view() == v.deep_view().take(i as int),
        decreases v@.len() - i,
    {
        let ghost before = r.deep_view();
        r.push(crate::query::make_filter_static(&v[i]));
        assert(r.deep_view() =~= before.push(v@[i as int].deep_view()));
        assert(v.deep_view().take(i + 1) =~= v.deep_view().take(i as int).push(v@[i as int].deep_view()));
        i = i + 1;
    }
    assert(v.deep_view().take(v@.len() as int) =~= v.deep_view());
    r
}

/// Builds a logical operator from a SubQuery structure.
pub fn build_logical_plan_from_subquery(
    subquery: &SubQuery,
    prefixes: &PrefixMap,
    database: &mut SparqlDatabase,
) -> (r: LogicalOperator)
    requires
        prefixes.wf(),
        old(database).wf(),
        old(database).dictionary@.len() + 3 * subquery.patterns@.len() + 9 <= u32::MAX,
    ensures
        final(database).wf(),
        ({
            let (d, inner) = built_plan(
                entry_pairs(subquery.variables.deep_view()),
                subquery.patterns.deep_view(),
                subquery.filters.deep_view(),
                prefixes@,
                old(database).dictionary@,
                subquery.binds.deep_view(),
                None,
                match subquery.ml_run_clause {
                    Some(m) => Some(ml_clause_model(m)),
                    None => None,
                },
                old(database).prefixes@,
            );
            &&& final(database).dictionary@ == d
            &&& r@ == (LogicalM::Subquery {
                inner: Box::new(inner),
                projected_vars: entry_pairs(subquery.variables.deep_view()).map_values(
                    |v: (Seq<char>, Seq<char>)| v.1,
                ),
            })
        }),
        final(database).triples == old(database).triples,
        final(database).prefixes == old(database).prefixes,
{
    let ghost vs = subquery.variables.deep_view();
    let mut variables: Vec<(String, String)> = Vec::new();
    let mut projected_vars: Vec<String> = Vec::new();
    let mut i: usize = 0;
    while i < subquery.variables.len()
        invariant
            i <= subquery.variables@.len(),
            vs == subquery.variables.deep_view(),
            variables.deep_view() == entry_pairs(vs.take(i as int)),
            projected_vars.deep_view() == entry_pairs(vs.take(i as int)).map_values(
                |v: (Seq<char>, Seq<char>)| v.1,
            ),
        decreases subquery.variables@.len() - i,
    {
        let ghost b1 = variables.deep_view();
        let ghost b2 = projected_vars.deep_view();
        let entry = &subquery.variables[i];
        variables.push((entry.0.clone(), entry.1.clone()));
        projected_vars.push(entry.1.clone());
        assert(vs.take(i + 1) =~= vs.take(i as int).push(vs[i as int]));
        assert(variables.deep_view() =~= b1.push((vs[i as int].0, vs[i as int].1)));
        assert(entry_pairs(vs.take(i + 1)) =~= entry_pairs(vs.take(i as int)).push((vs[i as int].0, vs[i as int].1)));
        assert(projected_vars.deep_view() =~= b2.push(vs[i as int].1));
        assert(entry_pairs(vs.take(i + 1)).map_values(|v: (Seq<char>, Seq<char>)| v.1) =~= entry_pairs(
            vs.take(i as int),
        ).map_values(|v: (Seq<char>, Seq<char>)| v.1).push(vs[i as int].1));
        i = i + 1;
    }
    assert(vs.take(subquery.variables@.len() as int) =~= vs);
    let ml = match &subquery.ml_run_clause {
        Some(m) => Some(
            MLClause { run: crate::terms::copy_strings(&m.run), on: m.on.clone(), to: m.to.clone() },
        ),
        None => None,
    };
    let inner_plan = build_logical_plan(
        variables,
        copy_pattern_texts(&subquery.patterns),
        copy_filters(&subquery.filters),
        prefixes,
        database,
        &subquery.binds,
        None,
        ml,
    );
    LogicalOperator::subquery(inner_plan, projected_vars)
}

} // verus!
