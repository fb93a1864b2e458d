//! The cost-based plan optimizer.

use vstd::prelude::*;
use std::sync::Arc;
use crate::terms::{Term, TermM, TriplePattern, PatternM, bound_count, copy_pattern, copy_strings};
use crate::operators::{LogicalOperator, LogicalM, GetterM, ModelGetter, PhysicalOperator, PhysicalM};
use crate::database::{SparqlDatabase, DatabaseStats, PPM, DEFAULT_JOIN_SELECTIVITY_PPM};
use crate::cost::{pattern_cardinality, predicate_join_selectivity, condition_selectivity, estimate_cardinality,
    get_join_selectivity, estimate_selectivity};

verus! {

/// Whether a plan holds a RUN clause (outside the inputs of named-model predictions it holds nothing else).
pub open spec fn has_ml(op: LogicalM) -> bool
    decreases op,
{
    match op {
        LogicalM::Scan { .. } => false,
        LogicalM::Join { left, right } => has_ml(*left) || has_ml(*right),
        LogicalM::Selection { predicate, .. } => has_ml(*predicate),
        LogicalM::Projection { predicate, .. } => has_ml(*predicate),
        LogicalM::Buffer { .. } => false,
        LogicalM::Subquery { inner, .. } => has_ml(*inner),
        LogicalM::Bind { input, .. } => has_ml(*input),
        LogicalM::Values { .. } => false,
        LogicalM::MLPredict { input, model_name, .. } => match model_name {
            GetterM::MLPredict(..) => has_ml(*input),
            GetterM::RunMLClause(..) => true,
        },
    }
}

/// The scan patterns of a plan appended to `acc`, left to right, skipping join
/// sides that hold a RUN clause; meeting a RUN clause empties the list.
pub open spec fn collected(op: LogicalM, acc: Seq<PatternM>) -> Seq<PatternM>
    decreases op,
{
    match op {
        LogicalM::Scan { pattern } => acc.push(pattern),
        LogicalM::Join { left, right } => {
            let a1 = if !has_ml(*left) {
                collected(*left, acc)
            } else {
                acc
            };
            if !has_ml(*right) {
                collected(*right, a1)
            } else {
                a1
            }
        },
        LogicalM::Selection { predicate, .. } => collected(*predicate, acc),
        LogicalM::Projection { predicate, .. } => collected(*predicate, acc),
        LogicalM::Buffer { .. } => acc,
        LogicalM::Subquery { inner, .. } => collected(*inner, acc),
        LogicalM::Bind { input, .. } => collected(*input, acc),
        LogicalM::Values { .. } => acc,
        LogicalM::MLPredict { input, model_name, .. } => match model_name {
            GetterM::MLPredict(..) => collected(*input, acc),
            GetterM::RunMLClause(..) => Seq::empty(),
        },
    }
}

/// The plan with every RUN clause of its join tree replaced by its retrieval plan.
pub open spec fn without_ml(op: LogicalM) -> LogicalM
    decreases op,
{
    match op {
        LogicalM::Join { left, right } => LogicalM::Join {
            left: Box::new(without_ml(*left)),
            right: Box::new(without_ml(*right)),
        },
        LogicalM::MLPredict { model_name, .. } => match model_name {
            GetterM::RunMLClause(lo) => *lo,
            GetterM::MLPredict(..) => op,
        },
        _ => op,
    }
}

/// The first RUN operator met going down the left spine (through projections,
/// BINDs, selections, joins' left sides and subqueries): the operator, its
/// retrieval plan, its inputs and its output.
pub open spec fn ml_found(op: LogicalM) -> Option<(LogicalM, LogicalM, Seq<Seq<char>>, Seq<char>)>
    decreases op,
{
    match op {
        LogicalM::MLPredict { model_name, input_variables, output_variable, .. } => match model_name {
            GetterM::RunMLClause(o) => Some((op, *o, input_variables, output_variable)),
            _ => None,
        },
        LogicalM::Projection { predicate, .. } => ml_found(*predicate),
        LogicalM::Bind { input, .. } => ml_found(*input),
        LogicalM::Selection { predicate, .. } => ml_found(*predicate),
        LogicalM::Join { left, .. } => ml_found(*left),
        LogicalM::Subquery { inner, .. } => ml_found(*inner),
        _ => None,
    }
}

/// The predicate id of the first scan down the left spine, if it is a constant.
pub open spec fn plan_predicate(op: LogicalM) -> Option<u32>
    decreases op,
{
    match op {
        LogicalM::Scan { pattern } => match pattern.1 {
            TermM::Constant(id) => Some(id),
            _ => None,
        },
        LogicalM::Join { left, .. } => plan_predicate(*left),
        LogicalM::Selection { predicate, .. } => plan_predicate(*predicate),
        LogicalM::Projection { predicate, .. } => plan_predicate(*predicate),
        LogicalM::Buffer { .. } => None,
        LogicalM::Subquery { inner, .. } => plan_predicate(*inner),
        LogicalM::Bind { input, .. } => plan_predicate(*input),
        LogicalM::Values { .. } => None,
        LogicalM::MLPredict { input, .. } => plan_predicate(*input),
    }
}

/// Join selectivity (parts per million) of two plans: that of the left side's
/// predicate, else of the right side's, else the default.
pub open spec fn join_selectivity(stats: DatabaseStats, left: LogicalM, right: LogicalM) -> nat {
    match (plan_predicate(left), plan_predicate(right)) {
        (Some(p), _) => predicate_join_selectivity(stats, p),
        (None, Some(p)) => predicate_join_selectivity(stats, p),
        (None, None) => DEFAULT_JOIN_SELECTIVITY_PPM as nat,
    }
}

/// `x` scaled by a selectivity in parts per million, rounded down.
pub open spec fn scaled(x: nat, ppm: nat) -> nat {
    (x * ppm / (PPM as nat)) as nat
}

/// `x`, but at least 1.
pub open spec fn at_least_one(x: nat) -> nat {
    if x >= 1 {
        x
    } else {
        1
    }
}

/// The smaller of two numbers.
pub open spec fn min_nat(a: nat, b: nat) -> nat {
    if a <= b {
        a
    } else {
        b
    }
}

/// Estimated number of rows a logical plan produces.
pub open spec fn cardinality(stats: DatabaseStats, op: LogicalM) -> nat
    decreases op,
{
    match op {
        LogicalM::Scan { pattern } => pattern_cardinality(stats, pattern),
        LogicalM::Selection { predicate, .. } => at_least_one(
            scaled(cardinality(stats, *predicate), condition_selectivity(stats)),
        ),
        LogicalM::Projection { predicate, .. } => cardinality(stats, *predicate),
        LogicalM::Join { left, right } => at_least_one(
            scaled(
                min_nat(cardinality(stats, *left), cardinality(stats, *right)),
                join_selectivity(stats, *left, *right),
            ),
        ),
        LogicalM::Buffer { .. } => 0,
        LogicalM::Subquery { inner, .. } => cardinality(stats, *inner),
        LogicalM::Bind { input, .. } => cardinality(stats, *input),
        LogicalM::Values { values, .. } => values.len(),
        LogicalM::MLPredict { input, model_name, .. } => match model_name {
            GetterM::MLPredict(..) => cardinality(stats, *input),
            GetterM::RunMLClause(o) => cardinality(stats, *input) * cardinality(stats, *o),
        },
    }
}

/// Rows scored per ML prediction.
pub const ML_OVERHEAD: u64 = 100;

/// Estimated cost of a logical plan.
pub open spec fn logical_cost(stats: DatabaseStats, op: LogicalM) -> nat
    decreases op,
{
    match op {
        LogicalM::Scan { pattern } => pattern_cardinality(stats, pattern),
        LogicalM::Join { left, right } => logical_cost(stats, *left) + logical_cost(stats, *right) + scaled(
            cardinality(stats, *left) * cardinality(stats, *right),
            join_selectivity(stats, *left, *right),
        ),
        LogicalM::Selection { predicate, .. } => scaled(
            logical_cost(stats, *predicate),
            condition_selectivity(stats),
        ),
        LogicalM::Projection { predicate, .. } => logical_cost(stats, *predicate),
        LogicalM::Buffer { .. } => 0,
        LogicalM::Subquery { inner, .. } => logical_cost(stats, *inner) + cardinality(stats, *inner),
        LogicalM::Bind { input, arguments, .. } => logical_cost(stats, *input) + cardinality(stats, *input)
            * arguments.len(),
        LogicalM::Values { values, .. } => values.len(),
        LogicalM::MLPredict { input, input_variables, model_name, .. } => match model_name {
            GetterM::MLPredict(..) => logical_cost(stats, *input) + cardinality(stats, *input)
                * input_variables.len() * (ML_OVERHEAD as nat),
            GetterM::RunMLClause(o) => logical_cost(stats, *input) + logical_cost(stats, *o) + cardinality(
                stats,
                *input,
            ) * cardinality(stats, *o) * input_variables.len() * (ML_OVERHEAD as nat),
        },
    }
}

/// Whether every intermediate value of the cost and cardinality estimates of a
/// plan fits in a `u64`.
pub open spec fn estimates_fit(stats: DatabaseStats, op: LogicalM) -> bool
    decreases op,
{
    let max = u64::MAX as nat;
    match op {
        LogicalM::Scan { .. } => true,
        LogicalM::Selection { predicate, .. } => estimates_fit(stats, *predicate),
        LogicalM::Projection { predicate, .. } => estimates_fit(stats, *predicate),
        LogicalM::Join { left, right } => {
            &&& estimates_fit(stats, *left)
            &&& estimates_fit(stats, *right)
            &&& cardinality(stats, *left) * cardinality(stats, *right) <= max
            &&& logical_cost(stats, op) <= max
        },
        LogicalM::Buffer { .. } => true,
        LogicalM::Subquery { inner, .. } => estimates_fit(stats, *inner) && logical_cost(stats, op) <= max,
        LogicalM::Bind { input, arguments, .. } => {
            &&& estimates_fit(stats, *input)
            &&& cardinality(stats, *input) * arguments.len() <= max
            &&& logical_cost(stats, op) <= max
        },
        LogicalM::Values { values, .. } => values.len() <= max,
        LogicalM::MLPredict { input, input_variables, model_name, .. } => {
            &&& estimates_fit(stats, *input)
            &&& match model_name {
                GetterM::MLPredict(..) => {
                    &&& cardinality(stats, *input) * input_variables.len() <= max
                    &&& cardinality(stats, *input) * input_variables.len() * (ML_OVERHEAD as nat) <= max
                },
                GetterM::RunMLClause(o) => {
                    &&& estimates_fit(stats, *o)
                    &&& cardinality(stats, *input) * cardinality(stats, *o) <= max
                    &&& cardinality(stats, *input) * cardinality(stats, *o) * input_variables.len() <= max
                    &&& cardinality(stats, *input) * cardinality(stats, *o) * input_variables.len() * (
                    ML_OVERHEAD as nat) <= max
                },
            }
            &&& logical_cost(stats, op) <= max
        },
    }
}

/// Plans whose estimates fit have estimates that fit.
pub proof fn lemma_estimates_bounded(stats: DatabaseStats, op: LogicalM)
    requires
        estimates_fit(stats, op),
    ensures
        cardinality(stats, op) <= u64::MAX,
        logical_cost(stats, op) <= u64::MAX,
    decreases op,
{
    match op {
        LogicalM::Scan { pattern } => {
            match pattern.1 {
                TermM::Constant(id) => crate::database::lemma_recorded_bounded(stats.predicate_counts@, id),
                _ => {},
            }
        },
        LogicalM::Selection { predicate, .. } => {
            lemma_estimates_bounded(stats, *predicate);
            lemma_scaled_le(cardinality(stats, *predicate), condition_selectivity(stats));
            lemma_scaled_le(logical_cost(stats, *predicate), condition_selectivity(stats));
        },
        LogicalM::Projection { predicate, .. } => lemma_estimates_bounded(stats, *predicate),
        LogicalM::Join { left, right } => {
            lemma_estimates_bounded(stats, *left);
            lemma_estimates_bounded(stats, *right);
            lemma_join_selectivity_le(stats, *left, *right);
            lemma_scaled_le(
                min_nat(cardinality(stats, *left), cardinality(stats, *right)),
                join_selectivity(stats, *left, *right),
            );
        },
        LogicalM::Subquery { inner, .. } => lemma_estimates_bounded(stats, *inner),
        LogicalM::Bind { input, .. } => lemma_estimates_bounded(stats, *input),
        LogicalM::MLPredict { input, model_name, .. } => {
            lemma_estimates_bounded(stats, *input);
            match model_name {
                GetterM::RunMLClause(o) => lemma_estimates_bounded(stats, *o),
                _ => {},
            }
        },
        _ => {},
    }
}

/// Scaling by at most one part per part never grows a number.
pub proof fn lemma_scaled_le(x: nat, ppm: nat)
    requires
        ppm <= PPM,
    ensures
        scaled(x, ppm) <= x,
{
    assert(x * ppm <= x * (PPM as nat)) by (nonlinear_arith)
        requires
            ppm <= PPM,
    ;
    assert(x * (PPM as nat) / (PPM as nat) == x) by (nonlinear_arith);
    assert((x * ppm) / (PPM as nat) <= (x * (PPM as nat)) / (PPM as nat)) by (nonlinear_arith)
        requires
            x * ppm <= x * (PPM as nat),
    ;
}

/// Join selectivities are at most one.
pub proof fn lemma_join_selectivity_le(stats: DatabaseStats, left: LogicalM, right: LogicalM)
    ensures
        join_selectivity(stats, left, right) <= PPM,
{
    match (plan_predicate(left), plan_predicate(right)) {
        (Some(p), _) => crate::cost::lemma_predicate_selectivity_le(stats, p),
        (None, Some(p)) => crate::cost::lemma_predicate_selectivity_le(stats, p),
        _ => {},
    }
}

/// How the optimizer scans a single pattern: an index scan when two or more
/// positions are bound, or one is and the estimate is under 10000 rows; else a
/// full table scan.
pub open spec fn best_scan(stats: DatabaseStats, p: PatternM) -> PhysicalM {
    let b = bound_count(p);
    if b == 3 || b == 2 || (b == 1 && pattern_cardinality(stats, p) < 10000) {
        PhysicalM::IndexScan { pattern: p }
    } else {
        PhysicalM::TableScan { pattern: p }
    }
}

/// A pattern with two or three constant positions is always read through the
/// index; one with a single constant only when fewer than 10000 triples are
/// expected; one with none is always scanned whole. Either way the scan reads
/// the pattern it was given.
pub proof fn lemma_scan_choice(stats: DatabaseStats, p: PatternM)
    ensures
        bound_count(p) >= 2 ==> best_scan(stats, p) == (PhysicalM::IndexScan { pattern: p }),
        bound_count(p) == 0 ==> best_scan(stats, p) == (PhysicalM::TableScan { pattern: p }),
        bound_count(p) == 1 ==> (best_scan(stats, p) == (PhysicalM::IndexScan { pattern: p }) <==> pattern_cardinality(
            stats,
            p,
        ) < 10000),
        best_scan(stats, p) == (PhysicalM::IndexScan { pattern: p }) || best_scan(stats, p) == (
        PhysicalM::TableScan { pattern: p }),
{
}

/// A join costs at least what its two inputs cost, plus its own work on the
/// pairs of their rows.
pub proof fn lemma_join_cost_covers_inputs(stats: DatabaseStats, left: LogicalM, right: LogicalM)
    ensures
        logical_cost(stats, LogicalM::Join { left: Box::new(left), right: Box::new(right) }) >= logical_cost(
            stats,
            left,
        ) + logical_cost(stats, right),
        logical_cost(stats, LogicalM::Join { left: Box::new(left), right: Box::new(right) }) - logical_cost(
            stats,
            left,
        ) - logical_cost(stats, right) == scaled(
            cardinality(stats, left) * cardinality(stats, right),
            join_selectivity(stats, left, right),
        ),
{
}

/// Whether no memo key occurs twice.
pub open spec fn memo_keys_distinct(m: Seq<(Seq<char>, PhysicalM)>) -> bool {
    forall|i: int, j: int| 0 <= i < j < m.len() ==> m[i].0 != m[j].0
}

/// The plan memoized under `key`.
pub open spec fn memo_lookup(m: Seq<(Seq<char>, PhysicalM)>, key: Seq<char>) -> Option<PhysicalM> {
    if exists|i: int| 0 <= i < m.len() && m[i].0 == key {
        Some(m[choose|i: int| 0 <= i < m.len() && m[i].0 == key].1)
    } else {
        None
    }
}

/// Volcano-style query optimizer with cost-based optimization.
pub struct Streamertail {
    /// Best physical plans found so far, by the serialized logical plan.
    pub memo: Vec<(String, PhysicalOperator)>,
    pub selected_variables: Vec<String>,
    pub stats: Arc<DatabaseStats>,
    /// Directory that ML operators load their models from.
    pub model_path: String,
}

/// Where ML models are looked for when no other directory is set.
pub open spec fn default_model_path() -> Seq<char> {
    "ml/examples/models"@
}

impl Streamertail {
    /// The memo as (key, plan) values.
    pub open spec fn memo_model(&self) -> Seq<(Seq<char>, PhysicalM)> {
        self.memo@.map_values(|e: (String, PhysicalOperator)| (e.0@, e.1@))
    }

    /// The statistics the optimizer reads.
    pub open spec fn stats_model(&self) -> DatabaseStats {
        *self.stats
    }

    /// The memo has one entry per key.
    pub open spec fn wf(&self) -> bool {
        memo_keys_distinct(self.memo_model())
    }

    /// Creates a new optimizer with statistics gathered from `database`.
    pub fn new(database: &SparqlDatabase) -> (s: Streamertail)
        requires
            database.triples@.len() <= u64::MAX,
        ensures
            s.wf(),
            s.memo@.len() == 0,
            s.selected_variables@.len() == 0,
            s.stats_model().describes(database.triples@),
            s.model_path@ == default_model_path(),
    {
        let stats = Arc::new(DatabaseStats::gather_stats_fast(database));
        let s = Streamertail {
            memo: Vec::new(),
            selected_variables: Vec::new(),
            stats,
            model_path: String::from_str("ml/examples/models"),
        };
        assert(s.memo_model() =~= Seq::<(Seq<char>, PhysicalM)>::empty());
        s
    }

    /// Creates a new optimizer that reads the given statistics.
    pub fn with_cached_stats(stats: Arc<DatabaseStats>) -> (s: Streamertail)
        ensures
            s.wf(),
            s.memo@.len() == 0,
            s.selected_variables@.len() == 0,
            s.stats == stats,
            s.model_path@ == default_model_path(),
    {
        let s = Streamertail {
            memo: Vec::new(),
            selected_variables: Vec::new(),
            stats,
            model_path: String::from_str("ml/examples/models"),
        };
        assert(s.memo_model() =~= Seq::<(Seq<char>, PhysicalM)>::empty());
        s
    }

    /// Sets the directory that ML operators load their models from.
    pub fn set_model_path(&mut self, path: String)
        ensures
            final(self).model_path == path,
            final(self).memo == old(self).memo,
            final(self).selected_variables == old(self).selected_variables,
            final(self).stats == old(self).stats,
    {
        self.model_path = path;
    }

    /// Updates the optimizer's statistics and forgets the memoized plans.
    pub fn update_stats(&mut self, database: &SparqlDatabase)
        requires
            database.triples@.len() <= u64::MAX,
        ensures
            final(self).wf(),
            final(self).memo@.len() == 0,
            final(self).stats_model().describes(database.triples@),
            final(self).selected_variables == old(self).selected_variables,
            final(self).model_path == old(self).model_path,
    {
        self.stats = Arc::new(DatabaseStats::gather_stats_fast(database));
        self.memo.clear();
        assert(self.memo_model() =~= Seq::<(Seq<char>, PhysicalM)>::empty());
    }

    /// Sets the selected variables for the query.
    pub fn set_selected_variables(&mut self, variables: Vec<String>)
        ensures
            final(self).selected_variables == variables,
            final(self).memo == old(self).memo,
            final(self).stats == old(self).stats,
            final(self).model_path == old(self).model_path,
    {
        self.selected_variables = variables;
    }

    /// Gets the current statistics.
    pub fn get_stats(&self) -> (s: &DatabaseStats)
        ensures
            *s == self.stats_model(),
    {
        &self.stats
    }

    /// Whether the plan holds a RUN clause.
    pub fn has_ml_predict(&self, plan: &LogicalOperator) -> (r: bool)
        ensures
            r == has_ml(plan@),
        decreases plan,
    {
        match plan {
            LogicalOperator::Scan { .. } => false,
            LogicalOperator::Join { left, right } => self.has_ml_predict(left) || self.has_ml_predict(right),
            LogicalOperator::Selection { predicate, .. } => self.has_ml_predict(predicate),
            LogicalOperator::Projection { predicate, .. } => self.has_ml_predict(predicate),
            LogicalOperator::Buffer { .. } => false,
            LogicalOperator::Subquery { inner, .. } => self.has_ml_predict(inner),
            LogicalOperator::Bind { input, .. } => self.has_ml_predict(input),
            LogicalOperator::Values { .. } => false,
            LogicalOperator::MLPredict { input, model_name, .. } => match model_name {
                ModelGetter::MLPredict(..) => self.has_ml_predict(input),
                ModelGetter::RunMLClause(..) => true,
            },
        }
    }

    /// Appends the scan patterns of a plan to `patterns`.
    pub fn collect_patterns(&self, plan: &LogicalOperator, patterns: &mut Vec<TriplePattern>)
        ensures
            final(patterns).deep_view() == collected(plan@, old(patterns).deep_view()),
        decreases plan,
    {
        match plan {
            LogicalOperator::Scan { pattern } => {
                let ghost before = patterns.deep_view();
                patterns.push(copy_pattern(pattern));
                assert(patterns.deep_view() =~= before.push(pattern@));
            },
            LogicalOperator::Join { left, right } => {
                if !self.has_ml_predict(left) {
                    self.collect_patterns(left, patterns);
                }
                if !self.has_ml_predict(right) {
                    self.collect_patterns(right, patterns);
                }
            },
            LogicalOperator::Selection { predicate, .. } => self.collect_patterns(predicate, patterns),
            LogicalOperator::Projection { predicate, .. } => self.collect_patterns(predicate, patterns),
            LogicalOperator::Buffer { .. } => {},
            LogicalOperator::Subquery { inner, .. } => self.collect_patterns(inner, patterns),
            LogicalOperator::Bind { input, .. } => self.collect_patterns(input, patterns),
            LogicalOperator::Values { .. } => {},
            LogicalOperator::MLPredict { input, model_name, .. } => match model_name {
                ModelGetter::MLPredict(..) => self.collect_patterns(input, patterns),
                ModelGetter::RunMLClause(..) => {
                    patterns.clear();
                    assert(patterns.deep_view() =~= Seq::<PatternM>::empty());
                },
            },
        }
    }

    /// The plan with every RUN clause of its join tree replaced by its retrieval plan.
    pub fn get_lo_without_ml(&self, logical_op: &LogicalOperator) -> (r: LogicalOperator)
        ensures
            r@ == without_ml(logical_op@),
        decreases logical_op,
    {
        match logical_op {
            LogicalOperator::Join { left, right } => LogicalOperator::join(
                self.get_lo_without_ml(left),
                self.get_lo_without_ml(right),
            ),
            LogicalOperator::MLPredict { model_name, .. } => match model_name {
                ModelGetter::RunMLClause(lo) => lo.duplicate(),
                ModelGetter::MLPredict(..) => logical_op.duplicate(),
            },
            _ => logical_op.duplicate(),
        }
    }

    /// The first RUN operator down the left spine, with its retrieval plan, inputs and output.
    pub fn ml_exists(&self, logical_op: &LogicalOperator) -> (r: Option<
        (LogicalOperator, LogicalOperator, Vec<String>, String),
    >)
        ensures
            match r {
                Some(t) => ml_found(logical_op@) == Some((t.0@, t.1@, t.2.deep_view(), t.3@)),
                None => ml_found(logical_op@) is None,
            },
        decreases logical_op,
    {
        match logical_op {
            LogicalOperator::MLPredict { model_name, input_variables, output_variable, .. } => {
                match model_name {
                    ModelGetter::RunMLClause(op) => Some(
                        (
                            logical_op.duplicate(),
                            op.duplicate(),
                            copy_strings(input_variables),
                            output_variable.clone(),
                        ),
                    ),
                    _ => None,
                }
            },
            LogicalOperator::Projection { predicate, .. } => self.ml_exists(predicate),
            LogicalOperator::Bind { input, .. } => self.ml_exists(input),
            LogicalOperator::Selection { predicate, .. } => self.ml_exists(predicate),
            LogicalOperator::Join { left, .. } => self.ml_exists(left),
            LogicalOperator::Subquery { inner, .. } => self.ml_exists(inner),
            _ => None,
        }
    }

    /// Counts the number of bound variables in a triple pattern.
    pub fn count_bound_variables(&self, pattern: &TriplePattern) -> (n: usize)
        ensures
            n == bound_count(pattern@),
    {
        let mut count: usize = 0;
        match &pattern.0 {
            Term::Constant(_) => count += 1,
            Term::Variable(_) | Term::QuotedTriple(_) => {},
        }
        match &pattern.1 {
            Term::Constant(_) => count += 1,
            Term::Variable(_) | Term::QuotedTriple(_) => {},
        }
        match &pattern.2 {
            Term::Constant(_) => count += 1,
            Term::Variable(_) | Term::QuotedTriple(_) => {},
        }
        count
    }

    /// Chooses the best scan method based on pattern selectivity.
    pub fn choose_best_scan(&self, pattern: &TriplePattern) -> (r: PhysicalOperator)
        ensures
            r@ == best_scan(self.stats_model(), pattern@),
            bound_count(pattern@) >= 2 ==> r@ == (PhysicalM::IndexScan { pattern: pattern@ }),
    {
        let bound_vars = self.count_bound_variables(pattern);
        let estimated_size = estimate_cardinality(&self.stats, pattern);
        match bound_vars {
            3 => PhysicalOperator::index_scan(copy_pattern(pattern)),
            2 => PhysicalOperator::index_scan(copy_pattern(pattern)),
            1 => {
                if estimated_size < 10000 {
                    PhysicalOperator::index_scan(copy_pattern(pattern))
                } else {
                    PhysicalOperator::table_scan(copy_pattern(pattern))
                }
            },
            0 => PhysicalOperator::table_scan(copy_pattern(pattern)),
            _ => PhysicalOperator::table_scan(copy_pattern(pattern)),
        }
    }

    /// Extracts the predicate id from a logical plan if it's a scan.
    pub fn extract_predicate_from_plan(&self, plan: &LogicalOperator) -> (r: Option<u32>)
        ensures
            r == plan_predicate(plan@),
        decreases plan,
    {
        match plan {
            LogicalOperator::Scan { pattern } => {
                if let Term::Constant(pred_id) = &pattern.1 {
                    Some(*pred_id)
                } else {
                    None
                }
            },
            LogicalOperator::Join { left, .. } => self.extract_predicate_from_plan(left),
            LogicalOperator::Selection { predicate, .. } => self.extract_predicate_from_plan(predicate),
            LogicalOperator::Projection { predicate, .. } => self.extract_predicate_from_plan(predicate),
            LogicalOperator::Buffer { .. } => None,
            LogicalOperator::Subquery { inner, .. } => self.extract_predicate_from_plan(inner),
            LogicalOperator::Bind { input, .. } => self.extract_predicate_from_plan(input),
            LogicalOperator::Values { .. } => None,
            LogicalOperator::MLPredict { input, .. } => self.extract_predicate_from_plan(input),
        }
    }

    /// Estimates join selectivity (parts per million).
    pub fn estimate_join_selectivity(&self, left: &LogicalOperator, right: &LogicalOperator) -> (s: u64)
        ensures
            s == join_selectivity(self.stats_model(), left@, right@),
            s <= PPM,
    {
        let left_predicate = self.extract_predicate_from_plan(left);
        let right_predicate = self.extract_predicate_from_plan(right);
        match (left_predicate, right_predicate) {
            (Some(pred), _) => get_join_selectivity(&self.stats, pred),
            (None, Some(pred)) => get_join_selectivity(&self.stats, pred),
            (None, None) => DEFAULT_JOIN_SELECTIVITY_PPM,
        }
    }

    /// Estimates output cardinality from a logical plan.
    pub fn estimate_output_cardinality_from_logical(&self, logical_plan: &LogicalOperator) -> (c: u64)
        requires
            estimates_fit(self.stats_model(), logical_plan@),
        ensures
            c == cardinality(self.stats_model(), logical_plan@),
        decreases logical_plan,
    {
        proof {
            lemma_estimates_bounded(self.stats_model(), logical_plan@);
        }
        match logical_plan {
            LogicalOperator::Scan { pattern } => estimate_cardinality(&self.stats, pattern),
            LogicalOperator::Selection { predicate, condition } => {
                let base_card = self.estimate_output_cardinality_from_logical(predicate);
                let selectivity = estimate_selectivity(&self.stats, condition);
                at_least_one_u64(scale(base_card, selectivity))
            },
            LogicalOperator::Projection { predicate, .. } => self.estimate_output_cardinality_from_logical(
                predicate,
            ),
            LogicalOperator::Join { left, right } => {
                let left_card = self.estimate_output_cardinality_from_logical(left);
                let right_card = self.estimate_output_cardinality_from_logical(right);
                let join_selectivity = self.estimate_join_selectivity(left, right);
                let smaller = if left_card <= right_card {
                    left_card
                } else {
                    right_card
                };
                at_least_one_u64(scale(smaller, join_selectivity))
            },
            LogicalOperator::Buffer { .. } => 0,
            LogicalOperator::Subquery { inner, .. } => self.estimate_output_cardinality_from_logical(inner),
            LogicalOperator::Bind { input, .. } => self.estimate_output_cardinality_from_logical(input),
            LogicalOperator::Values { values, .. } => values.len() as u64,
            LogicalOperator::MLPredict { input, model_name, .. } => {
                let input_cardinality = self.estimate_output_cardinality_from_logical(input);
                match model_name {
                    ModelGetter::MLPredict(..) => input_cardinality,
                    ModelGetter::RunMLClause(ml_retrieval_operator) => input_cardinality
                        * self.estimate_output_cardinality_from_logical(ml_retrieval_operator),
                }
            },
        }
    }

    /// Estimates the cost of a logical plan.
    pub fn estimate_logical_cost(&self, logical_plan: &LogicalOperator) -> (c: u64)
        requires
            estimates_fit(self.stats_model(), logical_plan@),
        ensures
            c == logical_cost(self.stats_model(), logical_plan@),
        decreases logical_plan,
    {
        proof {
            lemma_estimates_bounded(self.stats_model(), logical_plan@);
        }
        match logical_plan {
            LogicalOperator::Scan { pattern } => estimate_cardinality(&self.stats, pattern),
            LogicalOperator::Join { left, right } => {
                let left_cost = self.estimate_logical_cost(left);
                let right_cost = self.estimate_logical_cost(right);
                let left_card = self.estimate_output_cardinality_from_logical(left);
                let right_card = self.estimate_output_cardinality_from_logical(right);
                let join_selectivity = self.estimate_join_selectivity(left, right);
                left_cost + right_cost + scale(left_card * right_card, join_selectivity)
            },
            LogicalOperator::Selection { predicate, condition } => {
                let base_cost = self.estimate_logical_cost(predicate);
                let selectivity = estimate_selectivity(&self.stats, condition);
                scale(base_cost, selectivity)
            },
            LogicalOperator::Projection { predicate, .. } => self.estimate_logical_cost(predicate),
            LogicalOperator::Buffer { .. } => 0,
            LogicalOperator::Subquery { inner, .. } => {
                let inner_cost = self.estimate_logical_cost(inner);
                let inner_card = self.estimate_output_cardinality_from_logical(inner);
                inner_cost + inner_card
            },
            LogicalOperator::Bind { input, arguments, .. } => {
                let base_cost = self.estimate_logical_cost(input);
                let cardinality = self.estimate_output_cardinality_from_logical(input);
                base_cost + (cardinality * arguments.len() as u64)
            },
            LogicalOperator::Values { values, .. } => values.len() as u64,
            LogicalOperator::MLPredict { input, input_variables, model_name, .. } => {
                let base_cost = self.estimate_logical_cost(input);
                let cardinality = self.estimate_output_cardinality_from_logical(input);
                let ml_overhead = ML_OVERHEAD;
                match model_name {
                    ModelGetter::MLPredict(..) => base_cost + (cardinality * input_variables.len() as u64
                        * ml_overhead),
                    ModelGetter::RunMLClause(operator) => {
                        let ml_retrieval_cost = self.estimate_logical_cost(operator);
                        let ml_cardinality = self.estimate_output_cardinality_from_logical(operator);
                        base_cost + ml_retrieval_cost + (cardinality * ml_cardinality
                            * input_variables.len() as u64 * ml_overhead)
                    },
                }
            },
        }
    }
}

/// `x` scaled by a selectivity in parts per million, rounded down.
fn scale(x: u64, ppm: u64) -> (r: u64)
    requires
        ppm <= PPM,
    ensures
        r == scaled(x as nat, ppm as nat),
        r <= x,
{
    proof {
        lemma_scaled_le(x as nat, ppm as nat);
    }
    let wide = (x as u128) * (ppm as u128) / (PPM as u128);
    assert(wide == (x as nat) * (ppm as nat) / (PPM as nat));
    wide as u64
}

fn at_least_one_u64(x: u64) -> (r: u64)
    ensures
        r == at_least_one(x as nat),
{
    if x >= 1 {
        x
    } else {
        1
    }
}

} // verus!
