//! The cost model: pattern cardinalities, selectivities in parts per million,
//! and the cost of physical plans.

use vstd::prelude::*;
use crate::terms::{TermM, PatternM, TriplePattern, Term};
use crate::query::Condition;
use crate::operators::{PhysicalOperator, PhysicalM};
use crate::database::{DatabaseStats, recorded_count, PPM, DEFAULT_JOIN_SELECTIVITY_PPM};

verus! {

/// `x`, or `u64::MAX` where `x` is larger.
pub open spec fn sat(x: int) -> nat {
    if x < 0 {
        0
    } else if x > u64::MAX {
        u64::MAX as nat
    } else {
        x as nat
    }
}

/// Estimated number of triples that match a pattern: the count of its predicate
/// when the predicate is a constant, else every triple.
pub open spec fn pattern_cardinality(stats: DatabaseStats, p: PatternM) -> nat {
    match p.1 {
        TermM::Constant(id) => recorded_count(stats.predicate_counts@, id),
        _ => stats.total_triples as nat,
    }
}

/// Join selectivity (parts per million) of a predicate: one over its count,
/// or the default for a predicate without triples.
pub open spec fn predicate_join_selectivity(stats: DatabaseStats, p: u32) -> nat {
    let c = recorded_count(stats.predicate_counts@, p);
    if c > 0 {
        (PPM as nat / c) as nat
    } else {
        DEFAULT_JOIN_SELECTIVITY_PPM as nat
    }
}

/// Selectivity (parts per million) of a filter condition, at most one.
pub open spec fn condition_selectivity(stats: DatabaseStats) -> nat {
    if stats.filter_selectivity_ppm <= PPM {
        stats.filter_selectivity_ppm as nat
    } else {
        PPM as nat
    }
}

/// Predicate join selectivities are at most one.
pub proof fn lemma_predicate_selectivity_le(stats: DatabaseStats, p: u32)
    ensures
        predicate_join_selectivity(stats, p) <= PPM,
{
    let c = recorded_count(stats.predicate_counts@, p);
    if c > 0 {
        assert((PPM as nat) / c <= PPM as nat) by (nonlinear_arith)
            requires
                c > 0,
        ;
    }
}

/// The count recorded for a predicate.
pub fn count_for_predicate(stats: &DatabaseStats, p: u32) -> (c: u64)
    ensures
        c == recorded_count(stats.predicate_counts@, p),
{
    let counts = &stats.predicate_counts;
    let mut i: usize = counts.len();
    assert(counts@.subrange(0, i as int) =~= counts@);
    while i > 0
        invariant
            i <= counts@.len(),
            counts@ == stats.predicate_counts@,
            recorded_count(counts@, p) == recorded_count(counts@.subrange(0, i as int), p),
        decreases i,
    {
        let ghost pre = counts@.subrange(0, i as int);
        assert(pre.drop_last() =~= counts@.subrange(0, i - 1));
        assert(pre.last() == counts@[i - 1]);
        if counts[i - 1].0 == p {
            assert(recorded_count(pre, p) == counts@[i - 1].1);
            return counts[i - 1].1;
        }
        i = i - 1;
    }
    0
}

/// Estimated number of triples that match a pattern.
pub fn estimate_cardinality(stats: &DatabaseStats, pattern: &TriplePattern) -> (c: u64)
    ensures
        c == pattern_cardinality(*stats, pattern@),
{
    match &pattern.1 {
        Term::Constant(id) => count_for_predicate(stats, *id),
        _ => stats.total_triples,
    }
}

/// Join selectivity (parts per million) of a predicate.
pub fn get_join_selectivity(stats: &DatabaseStats, p: u32) -> (s: u64)
    ensures
        s == predicate_join_selectivity(*stats, p),
        s <= PPM,
{
    let c = count_for_predicate(stats, p);
    if c > 0 {
        PPM / c
    } else {
        DEFAULT_JOIN_SELECTIVITY_PPM
    }
}

/// Selectivity (parts per million) of a filter condition.
pub fn estimate_selectivity(stats: &DatabaseStats, condition: &Condition) -> (s: u64)
    ensures
        s == condition_selectivity(*stats),
        s <= PPM,
{
    if stats.filter_selectivity_ppm <= PPM {
        stats.filter_selectivity_ppm
    } else {
        PPM
    }
}

/// Cost of a physical plan: scans by the triples they read, joins by their
/// inputs (a nested loop by their product plus both inputs), every sum
/// capped at `u64::MAX`.
pub open spec fn physical_cost(stats: DatabaseStats, p: PhysicalM) -> nat
    decreases p,
{
    match p {
        PhysicalM::TableScan { .. } => stats.total_triples as nat,
        PhysicalM::IndexScan { pattern } => pattern_cardinality(stats, pattern),
        PhysicalM::Filter { input, .. } => physical_cost(stats, *input),
        PhysicalM::Projection { input, .. } => physical_cost(stats, *input),
        PhysicalM::OptimizedHashJoin { left, right } => sat(
            (physical_cost(stats, *left) + physical_cost(stats, *right)) as int,
        ),
        PhysicalM::HashJoin { left, right } => sat(
            (physical_cost(stats, *left) + physical_cost(stats, *right) + 1) as int,
        ),
        PhysicalM::ParallelJoin { left, right } => sat(
            (physical_cost(stats, *left) + physical_cost(stats, *right) + 2) as int,
        ),
        PhysicalM::NestedLoopJoin { left, right } => sat(
            (physical_cost(stats, *left) * physical_cost(stats, *right) + physical_cost(stats, *left)
                + physical_cost(stats, *right)) as int,
        ),
        PhysicalM::StarJoin { patterns, .. } => star_cost(stats, patterns),
        PhysicalM::InMemoryBuffer { content, .. } => sat(content.len() as int),
        PhysicalM::Bind { input, .. } => physical_cost(stats, *input),
        PhysicalM::MLPredict { input, .. } => sat((physical_cost(stats, *input) + 100) as int),
        PhysicalM::Values { values, .. } => sat(values.len() as int),
        PhysicalM::Subquery { inner, .. } => physical_cost(stats, *inner),
    }
}

/// Cost of a star join: the capped sum of its patterns' cardinalities.
pub open spec fn star_cost(stats: DatabaseStats, ps: Seq<PatternM>) -> nat
    decreases ps.len(),
{
    if ps.len() == 0 {
        0
    } else {
        sat((star_cost(stats, ps.drop_last()) + pattern_cardinality(stats, ps.last())) as int)
    }
}

fn sat_add(a: u64, b: u64) -> (r: u64)
    ensures
        r == sat(a + b),
{
    a.saturating_add(b)
}

fn sat_mul(a: u64, b: u64) -> (r: u64)
    ensures
        r == sat(a * b),
{
    match a.checked_mul(b) {
        Some(v) => v,
        None => u64::MAX,
    }
}

/// Cost of a nested loop: both inputs read, and every pair compared.
fn nested_loop_cost(a: u64, b: u64) -> (r: u64)
    ensures
        r == sat(a * b + a + b),
{
    let x = a as u128;
    let y = b as u128;
    assert(x * y <= 0xffff_ffff_ffff_ffffu128 * 0xffff_ffff_ffff_ffffu128) by (nonlinear_arith)
        requires
            x <= 0xffff_ffff_ffff_ffffu128,
            y <= 0xffff_ffff_ffff_ffffu128,
    ;
    let wide = x * y + x + y;
    if wide > u64::MAX as u128 {
        u64::MAX
    } else {
        wide as u64
    }
}

/// Cost of a physical plan.
pub fn estimate_cost(stats: &DatabaseStats, plan: &PhysicalOperator) -> (c: u64)
    ensures
        c == physical_cost(*stats, plan@),
    decreases plan,
{
    match plan {
        PhysicalOperator::TableScan { .. } => stats.total_triples,
        PhysicalOperator::IndexScan { pattern } => estimate_cardinality(stats, pattern),
        PhysicalOperator::Filter { input, .. } => estimate_cost(stats, input),
        PhysicalOperator::Projection { input, .. } => estimate_cost(stats, input),
        PhysicalOperator::OptimizedHashJoin { left, right } => sat_add(
            estimate_cost(stats, left),
            estimate_cost(stats, right),
        ),
        PhysicalOperator::HashJoin { left, right } => sat_add(
            sat_add(estimate_cost(stats, left), estimate_cost(stats, right)),
            1,
        ),
        PhysicalOperator::ParallelJoin { left, right } => sat_add(
            sat_add(estimate_cost(stats, left), estimate_cost(stats, right)),
            2,
        ),
        PhysicalOperator::NestedLoopJoin { left, right } => nested_loop_cost(
            estimate_cost(stats, left),
            estimate_cost(stats, right),
        ),
        PhysicalOperator::StarJoin { patterns, .. } => {
            let mut total: u64 = 0;
            let mut i: usize = 0;
            while i < patterns.len()
                invariant
                    i <= patterns@.len(),
                    total == star_cost(*stats, patterns.deep_view().subrange(0, i as int)),
                decreases patterns@.len() - i,
            {
                let ghost pre = patterns.deep_view().subrange(0, i + 1);
                assert(pre.drop_last() =~= patterns.deep_view().subrange(0, i as int));
                assert(pre.last() == patterns@[i as int]@);
                total = sat_add(total, estimate_cardinality(stats, &patterns[i]));
                i = i + 1;
            }
            assert(patterns.deep_view().subrange(0, patterns@.len() as int) =~= patterns.deep_view());
            total
        },
        PhysicalOperator::InMemoryBuffer { content, .. } => {
            if content.len() as u128 > u64::MAX as u128 {
                u64::MAX
            } else {
                content.len() as u64
            }
        },
        PhysicalOperator::Bind { input, .. } => estimate_cost(stats, input),
        PhysicalOperator::MLPredict { input, .. } => sat_add(estimate_cost(stats, input), 100),
        PhysicalOperator::Values { values, .. } => {
            if values.len() as u128 > u64::MAX as u128 {
                u64::MAX
            } else {
                values.len() as u64
            }
        },
        PhysicalOperator::Subquery { inner, .. } => estimate_cost(stats, inner),
    }
}

} // verus!
