//! Plan search: star joins, the memo of best plans, and the cost-based choice
//! among candidate physical plans.

use vstd::prelude::*;
use crate::text::str_equal;
use crate::terms::{Term, TermM, TriplePattern, PatternM, Triple, is_constant, copy_pattern, copy_patterns,
    pattern_eq, copy_strings};
use crate::query::copy_condition;
use crate::operators::{LogicalOperator, LogicalM, GetterM, ModelGetter, PhysicalOperator, PhysicalM, PhysGetterM,
    IdRowM, NameRow, copy_triples, copy_value_rows};
use crate::optimizer::{Streamertail, collected, memo_lookup, memo_keys_distinct, best_scan, cardinality,
    logical_cost, estimates_fit, ml_found};
use crate::star::{star_query, star_groups, grouped_by_positions, star_positions, occurrences};
use crate::serialize::{logical_text, serialize_logical_plan};
use crate::cost::{physical_cost, estimate_cost};
use crate::database::{DatabaseStats, SparqlDatabase};
use crate::execution::{is_bgp, solutions, decode_rows, triples_ids_below, execute_with_ids, decode_rows_exec,
    lemma_solutions_below};

verus! {

/// A star: its join variable and its patterns.
pub type StarM = (Seq<char>, Seq<PatternM>);

/// The stars of the patterns that a plan scans.
pub open spec fn plan_stars(op: LogicalM) -> Option<Seq<StarM>> {
    star_query(collected(op, Seq::empty()))
}

/// Whether some position of a pattern is a constant.
pub open spec fn has_constant(p: PatternM) -> bool {
    is_constant(p.0) || is_constant(p.1) || is_constant(p.2)
}

/// Number of patterns with a constant position.
pub open spec fn constant_count(ps: Seq<PatternM>) -> nat
    decreases ps.len(),
{
    if ps.len() == 0 {
        0
    } else {
        constant_count(ps.drop_last()) + if has_constant(ps.last()) {
            1nat
        } else {
            0nat
        }
    }
}

/// The key that orders stars: how many of their patterns hold a constant.
pub open spec fn star_key(s: StarM) -> nat {
    constant_count(s.1)
}

/// Inserts a star after the last star whose key is at least its own.
pub open spec fn insert_by_key(t: Seq<StarM>, x: StarM) -> Seq<StarM>
    decreases t.len(),
{
    if t.len() == 0 {
        seq![x]
    } else if star_key(t.last()) >= star_key(x) {
        t.push(x)
    } else {
        insert_by_key(t.drop_last(), x).push(t.last())
    }
}

/// Stars by decreasing key; stars with equal keys keep their order.
pub open spec fn sorted_by_key(s: Seq<StarM>) -> Seq<StarM>
    decreases s.len(),
{
    if s.len() == 0 {
        s
    } else {
        insert_by_key(sorted_by_key(s.drop_last()), s.last())
    }
}

/// The first position of `p` in `all`.
#[verifier::opaque]
pub open spec fn first_pos(all: Seq<PatternM>, p: PatternM) -> Option<int> {
    if exists|j: int| 0 <= j < all.len() && all[j] == p {
        Some(choose|j: int| 0 <= j < all.len() && all[j] == p && forall|k: int| 0 <= k < j ==> all[k] != p)
    } else {
        None
    }
}

/// The patterns of the stars, one star after the other.
pub open spec fn star_patterns(stars: Seq<StarM>) -> Seq<PatternM>
    decreases stars.len(),
{
    if stars.len() == 0 {
        Seq::empty()
    } else {
        star_patterns(stars.drop_last()) + stars.last().1
    }
}

/// The first positions in `all` of the patterns of `flat`.
#[verifier::opaque]
pub open spec fn marks(all: Seq<PatternM>, flat: Seq<PatternM>) -> Set<int> {
    Set::new(|i: int| exists|k: int| 0 <= k < flat.len() && first_pos(all, flat[k]) == Some(i))
}

/// A plan followed by index scans of the patterns, each joined in parallel.
pub open spec fn chain_scans(base: PhysicalM, ps: Seq<PatternM>) -> PhysicalM
    decreases ps.len(),
{
    if ps.len() == 0 {
        base
    } else {
        PhysicalM::ParallelJoin {
            left: Box::new(chain_scans(base, ps.drop_last())),
            right: Box::new(PhysicalM::IndexScan { pattern: ps.last() }),
        }
    }
}

/// A plan followed by index scans of the patterns of each star in turn.
pub open spec fn chain_stars(base: PhysicalM, stars: Seq<StarM>) -> PhysicalM
    decreases stars.len(),
{
    if stars.len() == 0 {
        base
    } else {
        chain_scans(chain_stars(base, stars.drop_last()), stars.last().1)
    }
}

/// A plan followed by index scans of the first `n` patterns of `all` whose
/// positions are not in `used`.
pub open spec fn chain_unused(base: PhysicalM, all: Seq<PatternM>, used: Set<int>, n: nat) -> PhysicalM
    decreases n,
{
    if n == 0 {
        base
    } else {
        let prev = chain_unused(base, all, used, (n - 1) as nat);
        if used.contains(n - 1) {
            prev
        } else {
            PhysicalM::ParallelJoin {
                left: Box::new(prev),
                right: Box::new(PhysicalM::IndexScan { pattern: all[n - 1] }),
            }
        }
    }
}

/// The scan of every triple, `(?s, ?p, ?o)`.
pub open spec fn full_scan() -> PhysicalM {
    PhysicalM::TableScan {
        pattern: (TermM::Variable("?s"@), TermM::Variable("?p"@), TermM::Variable("?o"@)),
    }
}

/// The star-join plan of a plan's patterns `all`: the star with most
/// constant-holding patterns as a star join, then index scans of the other
/// stars' patterns, then of the patterns in no star.
pub open spec fn star_join_plan(stars: Seq<StarM>, all: Seq<PatternM>) -> PhysicalM {
    if stars.len() == 0 {
        full_scan()
    } else {
        let sorted = sorted_by_key(stars);
        chain_unused(
            chain_stars(PhysicalM::StarJoin { join_var: sorted[0].0, patterns: sorted[0].1 }, sorted.drop_first()),
            all,
            marks(all, star_patterns(stars)),
            all.len(),
        )
    }
}

/// Inserting after the trailing run of smaller keys is inserting by key.
pub proof fn lemma_insert_by_key(t: Seq<StarM>, x: StarM, pos: int)
    requires
        0 <= pos <= t.len(),
        forall|k: int| pos <= k < t.len() ==> star_key(#[trigger] t[k]) < star_key(x),
        pos == 0 || star_key(t[pos - 1]) >= star_key(x),
    ensures
        insert_by_key(t, x) == t.take(pos).push(x) + t.skip(pos),
    decreases t.len(),
{
    if t.len() == 0 {
        assert(t.take(pos).push(x) + t.skip(pos) =~= seq![x]);
    } else if star_key(t.last()) >= star_key(x) {
        assert(pos == t.len());
        assert(t.take(pos).push(x) + t.skip(pos) =~= t.push(x));
    } else {
        let u = t.drop_last();
        assert(pos < t.len());
        assert forall|k: int| pos <= k < u.len() implies star_key(#[trigger] u[k]) < star_key(x) by {
            assert(u[k] == t[k]);
        }
        lemma_insert_by_key(u, x, pos);
        assert(u.take(pos).push(x) + u.skip(pos) + seq![t.last()] =~= t.take(pos).push(x) + t.skip(pos));
    }
}

/// Number of patterns with a constant position.
fn constant_pattern_count(ps: &Vec<TriplePattern>) -> (n: usize)
    ensures
        n == constant_count(ps.deep_view()),
{
    let ghost m = ps.deep_view();
    let mut n: usize = 0;
    let mut i: usize = 0;
    while i < ps.len()
        invariant
            i <= ps@.len(),
            m == ps.deep_view(),
            n == constant_count(m.take(i as int)),
            n <= i,
        decreases ps@.len() - i,
    {
        assert(m.take(i + 1).drop_last() =~= m.take(i as int));
        assert(m[i as int] == ps@[i as int]@);
        let p = &ps[i];
        if matches!(&p.0, Term::Constant(_)) || matches!(&p.1, Term::Constant(_)) || matches!(
            &p.2,
            Term::Constant(_),
        ) {
            n = n + 1;
        }
        i = i + 1;
    }
    assert(m.take(ps@.len() as int) =~= m);
    n
}

/// The first position of `p` in `all`.
fn first_position(all: &Vec<TriplePattern>, p: &TriplePattern) -> (r: Option<usize>)
    ensures
        match r {
            Some(i) => first_pos(all.deep_view(), p@) == Some(i as int),
            None => first_pos(all.deep_view(), p@) is None,
        },
{
    let ghost m = all.deep_view();
    let mut j: usize = 0;
    while j < all.len()
        invariant
            j <= all@.len(),
            m == all.deep_view(),
            forall|k: int| 0 <= k < j ==> m[k] != p@,
        decreases all@.len() - j,
    {
        assert(m[j as int] == all@[j as int]@);
        if pattern_eq(&all[j], p) {
            proof {
                reveal(first_pos);
                let w = choose|w: int| 0 <= w < m.len() && m[w] == p@ && forall|k: int| 0 <= k < w ==> m[k] != p@;
                assert(0 <= j < m.len() && m[j as int] == p@ && forall|k: int| 0 <= k < j ==> m[k] != p@);
                assert(w == j) by {
                    if w < j {
                    } else if w > j {
                        assert(m[j as int] != p@);
                    }
                }
            }
            return Some(j);
        }
        j = j + 1;
    }
    proof {
        reveal(first_pos);
    }
    None
}

/// The patterns of the stars, one star after the other.
fn flatten_stars(stars: &Vec<(String, Vec<TriplePattern>)>) -> (r: Vec<TriplePattern>)
    ensures
        r.deep_view() == star_patterns(stars.deep_view()),
{
    let ghost sm = stars.deep_view();
    let mut r: Vec<TriplePattern> = Vec::new();
    let mut a: usize = 0;
    while a < stars.len()
        invariant
            a <= stars@.len(),
            sm == stars.deep_view(),
            r.deep_view() == star_patterns(sm.take(a as int)),
        decreases stars@.len() - a,
    {
        let ps = &stars[a].1;
        let ghost pm = ps.deep_view();
        let ghost base = r.deep_view();
        assert(sm[a as int] == (stars@[a as int].0@, pm));
        let mut b: usize = 0;
        while b < ps.len()
            invariant
                b <= ps@.len(),
                pm == ps.deep_view(),
                r.deep_view() == base + pm.take(b as int),
            decreases ps@.len() - b,
        {
            let ghost before = r.deep_view();
            r.push(copy_pattern(&ps[b]));
            assert(pm[b as int] == ps@[b as int]@);
            assert(r.deep_view() =~= before.push(pm[b as int]));
            assert(pm.take(b + 1) =~= pm.take(b as int).push(pm[b as int]));
            assert(base + pm.take(b + 1) =~= (base + pm.take(b as int)).push(pm[b as int]));
            b = b + 1;
        }
        assert(pm.take(ps@.len() as int) =~= pm);
        assert(sm.take(a + 1).drop_last() =~= sm.take(a as int));
        assert(sm.take(a + 1).last() == sm[a as int]);
        a = a + 1;
    }
    assert(sm.take(stars@.len() as int) =~= sm);
    r
}

/// Marks, for each position of `all`, whether it is the first position of a
/// pattern of `flat`.
fn mark_used(all: &Vec<TriplePattern>, flat: &Vec<TriplePattern>) -> (r: Vec<bool>)
    ensures
        r@.len() == all@.len(),
        forall|i: int| 0 <= i < all@.len() ==> r@[i] == marks(all.deep_view(), flat.deep_view()).contains(i),
{
    let ghost am = all.deep_view();
    let ghost fm = flat.deep_view();
    let mut used: Vec<bool> = Vec::new();
    let mut u: usize = 0;
    while u < all.len()
        invariant
            u <= all@.len(),
            used@.len() == u,
            forall|i: int| 0 <= i < u ==> !used@[i],
        decreases all@.len() - u,
    {
        used.push(false);
        u = u + 1;
    }
    proof {
        reveal(marks);
        assert(marks(am, fm.take(0)) =~= Set::<int>::empty());
    }
    let mut k: usize = 0;
    while k < flat.len()
        invariant
            k <= flat@.len(),
            am == all.deep_view(),
            fm == flat.deep_view(),
            used@.len() == all@.len(),
            forall|i: int| 0 <= i < all@.len() ==> used@[i] == marks(am, fm.take(k as int)).contains(i),
        decreases flat@.len() - k,
    {
        let pos = first_position(all, &flat[k]);
        let ghost q = fm[k as int];
        let ghost before = marks(am, fm.take(k as int));
        let ghost after = marks(am, fm.take(k + 1));
        proof {
            assert(q == flat@[k as int]@);
            assert(fm.take(k + 1) =~= fm.take(k as int).push(q));
            lemma_marks_push(am, fm.take(k as int), q);
        }
        let ghost old_used = used@;
        match pos {
            Some(i) => {
                proof {
                    lemma_first_pos_bound(am, q);
                    assert(after == before.insert(i as int));
                }
                used.set(i, true);
                assert forall|j: int| 0 <= j < all@.len() implies used@[j] == after.contains(j) by {
                    if j != i as int {
                        assert(used@[j] == old_used[j]);
                    }
                }
            },
            None => {
                assert(after == before);
            },
        }
        k = k + 1;
    }
    assert(fm.take(flat@.len() as int) =~= fm);
    used
}

/// A first position is a position.
proof fn lemma_first_pos_bound(all: Seq<PatternM>, p: PatternM)
    ensures
        first_pos(all, p) matches Some(i) ==> 0 <= i < all.len() && all[i] == p,
{
    reveal(first_pos);
    if exists|j: int| 0 <= j < all.len() && all[j] == p {
        let j = choose|j: int| 0 <= j < all.len() && all[j] == p;
        lemma_least_position(all, p, j);
    }
}

/// A pattern that occurs has a first occurrence.
proof fn lemma_least_position(all: Seq<PatternM>, p: PatternM, j: int)
    requires
        0 <= j < all.len(),
        all[j] == p,
    ensures
        exists|w: int| 0 <= w < all.len() && all[w] == p && forall|k: int| 0 <= k < w ==> all[k] != p,
    decreases j,
{
    if exists|k: int| 0 <= k < j && all[k] == p {
        let k = choose|k: int| 0 <= k < j && all[k] == p;
        lemma_least_position(all, p, k);
    } else {
        assert(0 <= j < all.len() && all[j] == p && forall|k: int| 0 <= k < j ==> all[k] != p);
    }
}

/// Marking one more pattern adds its first position, if it has one.
proof fn lemma_marks_push(all: Seq<PatternM>, flat: Seq<PatternM>, q: PatternM)
    ensures
        marks(all, flat.push(q)) == match first_pos(all, q) {
            Some(i) => marks(all, flat).insert(i),
            None => marks(all, flat),
        },
{
    reveal(marks);
    let cur = flat.push(q);
    let expected = match first_pos(all, q) {
        Some(i) => marks(all, flat).insert(i),
        None => marks(all, flat),
    };
    assert forall|i: int| marks(all, cur).contains(i) <==> expected.contains(i) by {
        if marks(all, flat).contains(i) {
            let w = choose|w: int| 0 <= w < flat.len() && first_pos(all, flat[w]) == Some(i);
            assert(cur[w] == flat[w]);
        }
        if marks(all, cur).contains(i) {
            let w = choose|w: int| 0 <= w < cur.len() && first_pos(all, cur[w]) == Some(i);
            if w < flat.len() {
                assert(cur[w] == flat[w]);
            }
        }
        if first_pos(all, q) == Some(i) {
            assert(cur[flat.len() as int] == q);
        }
    }
    assert(marks(all, cur) =~= expected);
}

/// The stars by decreasing key, stars with equal keys in their order.
fn sort_stars(stars: &Vec<(String, Vec<TriplePattern>)>) -> (r: Vec<(String, Vec<TriplePattern>)>)
    ensures
        r.deep_view() == sorted_by_key(stars.deep_view()),
{
    let ghost sm = stars.deep_view();
    let mut sorted: Vec<(String, Vec<TriplePattern>)> = Vec::new();
    let mut keys: Vec<usize> = Vec::new();
    let mut a: usize = 0;
    while a < stars.len()
        invariant
            a <= stars@.len(),
            sm == stars.deep_view(),
            sorted.deep_view() == sorted_by_key(sm.take(a as int)),
            keys@.len() == sorted@.len(),
            forall|k: int| 0 <= k < keys@.len() ==> keys@[k] == star_key(#[trigger] sorted.deep_view()[k]),
        decreases stars@.len() - a,
    {
        let ghost t = sorted.deep_view();
        let ps = copy_patterns(&stars[a].1);
        let key = constant_pattern_count(&ps);
        let x = (stars[a].0.clone(), ps);
        let ghost xm = x.deep_view();
        assert(xm == sm[a as int]);
        let mut pos: usize = sorted.len();
        while pos > 0 && keys[pos - 1] < key
            invariant
                pos <= sorted@.len(),
                keys@.len() == sorted@.len(),
                t == sorted.deep_view(),
                key == star_key(xm),
                forall|k: int| 0 <= k < keys@.len() ==> keys@[k] == star_key(#[trigger] t[k]),
                forall|k: int| pos <= k < t.len() ==> star_key(#[trigger] t[k]) < star_key(xm),
            decreases pos,
        {
            pos = pos - 1;
        }
        proof {
            if pos > 0 {
                assert(keys@[pos - 1] == star_key(t[pos - 1]));
            }
            lemma_insert_by_key(t, xm, pos as int);
            assert(sm.take(a + 1).drop_last() =~= sm.take(a as int));
            assert(sm.take(a + 1).last() == xm);
        }
        let ghost keys_before = keys@;
        sorted.insert(pos, x);
        keys.insert(pos, key);
        proof {
            assert(sorted.deep_view() =~= t.take(pos as int).push(xm) + t.skip(pos as int)) by {
                assert forall|k: int| 0 <= k < sorted@.len() implies #[trigger] sorted.deep_view()[k] == (
                t.take(pos as int).push(xm) + t.skip(pos as int))[k] by {
                    assert(sorted.deep_view()[k] == sorted@[k].deep_view());
                }
            }
            assert forall|k: int| 0 <= k < keys@.len() implies keys@[k] == star_key(#[trigger] sorted.deep_view()[k]) by {
                if k < pos {
                    assert(keys@[k] == keys_before[k]);
                } else if k > pos {
                    assert(keys@[k] == keys_before[k - 1]);
                }
            }
        }
        a = a + 1;
    }
    assert(sm.take(stars@.len() as int) =~= sm);
    sorted
}

impl Streamertail {
    /// Builds a star-join physical plan for the detected stars of a plan.
    pub fn build_star_join_from_patterns(
        &self,
        stars: Vec<(String, Vec<TriplePattern>)>,
        logical_plan: &LogicalOperator,
    ) -> (r: PhysicalOperator)
        ensures
            r@ == star_join_plan(stars.deep_view(), collected(logical_plan@, Seq::empty())),
    {
        let mut all_patterns: Vec<TriplePattern> = Vec::new();
        assert(all_patterns.deep_view() =~= Seq::<PatternM>::empty());
        self.collect_patterns(logical_plan, &mut all_patterns);
        let ghost am = all_patterns.deep_view();
        let flat = flatten_stars(&stars);
        let used = mark_used(&all_patterns, &flat);
        if stars.len() == 0 {
            return PhysicalOperator::table_scan(
                (
                    Term::Variable(String::from_str("?s")),
                    Term::Variable(String::from_str("?p")),
                    Term::Variable(String::from_str("?o")),
                ),
            );
        }
        let sorted = sort_stars(&stars);
        let ghost sm = sorted.deep_view();
        let ghost base = PhysicalM::StarJoin { join_var: sm[0].0, patterns: sm[0].1 };
        proof {
            lemma_sorted_len(stars.deep_view());
        }
        assert(sm[0] == sorted@[0].deep_view());
        let mut result = PhysicalOperator::StarJoin {
            join_var: sorted[0].0.clone(),
            patterns: copy_patterns(&sorted[0].1),
        };
        assert(result@ == base);
        let mut a: usize = 1;
        assert(sm.drop_first().take(0) =~= Seq::<StarM>::empty());
        while a < sorted.len()
            invariant
                1 <= a <= sorted@.len(),
                sm == sorted.deep_view(),
                result@ == chain_stars(base, sm.drop_first().take(a - 1)),
            decreases sorted@.len() - a,
        {
            let ps = &sorted[a].1;
            let ghost pm = ps.deep_view();
            let ghost acc = result@;
            assert(sm[a as int].1 == pm);
            let mut b: usize = 0;
            while b < ps.len()
                invariant
                    b <= ps@.len(),
                    pm == ps.deep_view(),
                    result@ == chain_scans(acc, pm.take(b as int)),
                decreases ps@.len() - b,
            {
                assert(pm[b as int] == ps@[b as int]@);
                result = PhysicalOperator::parallel_join(result, PhysicalOperator::index_scan(copy_pattern(&ps[b])));
                assert(pm.take(b + 1).drop_last() =~= pm.take(b as int));
                assert(pm.take(b + 1).last() == pm[b as int]);
                b = b + 1;
            }
            assert(pm.take(ps@.len() as int) =~= pm);
            assert(sm.drop_first().take(a as int).drop_last() =~= sm.drop_first().take(a - 1));
            assert(sm.drop_first().take(a as int).last() == sm[a as int]);
            a = a + 1;
        }
        assert(sm.drop_first().take(sorted@.len() - 1) =~= sm.drop_first());
        let ghost start = result@;
        let ghost used_set = marks(am, star_patterns(stars.deep_view()));
        let mut i: usize = 0;
        while i < all_patterns.len()
            invariant
                i <= all_patterns@.len(),
                am == all_patterns.deep_view(),
                used@.len() == all_patterns@.len(),
                forall|k: int| 0 <= k < all_patterns@.len() ==> used@[k] == used_set.contains(k),
                result@ == chain_unused(start, am, used_set, i as nat),
            decreases all_patterns@.len() - i,
        {
            if !used[i] {
                assert(am[i as int] == all_patterns@[i as int]@);
                result = PhysicalOperator::parallel_join(
                    result,
                    PhysicalOperator::index_scan(copy_pattern(&all_patterns[i])),
                );
            }
            i = i + 1;
        }
        result
    }
}

/// Sorting keeps the number of stars.
proof fn lemma_sorted_len(s: Seq<StarM>)
    ensures
        sorted_by_key(s).len() == s.len(),
    decreases s.len(),
{
    if s.len() > 0 {
        lemma_sorted_len(s.drop_last());
        lemma_insert_len(sorted_by_key(s.drop_last()), s.last());
    }
}

/// Inserting adds one star.
proof fn lemma_insert_len(t: Seq<StarM>, x: StarM)
    ensures
        insert_by_key(t, x).len() == t.len() + 1,
    decreases t.len(),
{
    if t.len() > 0 && star_key(t.last()) < star_key(x) {
        lemma_insert_len(t.drop_last(), x);
    }
}

/// The memo after `insert`: the entry under `key` replaced, or a new entry last.
pub open spec fn memo_insert(m: Seq<(Seq<char>, PhysicalM)>, key: Seq<char>, p: PhysicalM) -> Seq<
    (Seq<char>, PhysicalM),
> {
    if exists|i: int| 0 <= i < m.len() && m[i].0 == key {
        m.update(key_position(m, key), (key, p))
    } else {
        m.push((key, p))
    }
}

/// A position of the memo entry under `key`.
pub open spec fn key_position(m: Seq<(Seq<char>, PhysicalM)>, key: Seq<char>) -> int {
    choose|i: int| 0 <= i < m.len() && m[i].0 == key
}

/// The plan that the star shortcut of the search gives, if it applies: a
/// projection of a selection, a selection, or another plan (neither a
/// selection nor a projection) over patterns that form stars.
pub open spec fn star_shortcut(op: LogicalM) -> Option<PhysicalM> {
    match op {
        LogicalM::Projection { predicate, variables } => match *predicate {
            LogicalM::Selection { predicate: inner, condition } => match plan_stars(*inner) {
                Some(stars) => Some(
                    PhysicalM::Projection {
                        input: Box::new(
                            PhysicalM::Filter {
                                input: Box::new(star_join_plan(stars, collected(*inner, Seq::empty()))),
                                condition,
                            },
                        ),
                        variables,
                    },
                ),
                None => None,
            },
            _ => None,
        },
        LogicalM::Selection { predicate, condition } => match plan_stars(*predicate) {
            Some(stars) => Some(
                PhysicalM::Filter {
                    input: Box::new(star_join_plan(stars, collected(*predicate, Seq::empty()))),
                    condition,
                },
            ),
            None => None,
        },
        _ => match plan_stars(op) {
            Some(stars) => Some(star_join_plan(stars, collected(op, Seq::empty()))),
            None => None,
        },
    }
}

/// The first candidate of least cost.
pub open spec fn cheapest(stats: DatabaseStats, cands: Seq<PhysicalM>) -> PhysicalM
    decreases cands.len(),
{
    if cands.len() <= 1 {
        cands[0]
    } else {
        let m = cheapest(stats, cands.drop_last());
        if physical_cost(stats, cands.last()) < physical_cost(stats, m) {
            cands.last()
        } else {
            m
        }
    }
}

/// The join algorithms tried for two sides, in order; a nested loop only when
/// both sides are estimated under 1000 rows.
pub open spec fn join_candidates(
    stats: DatabaseStats,
    a: LogicalM,
    b: LogicalM,
    pa: PhysicalM,
    pb: PhysicalM,
) -> Seq<PhysicalM> {
    let ohj = PhysicalM::OptimizedHashJoin { left: Box::new(pa), right: Box::new(pb) };
    let hj = PhysicalM::HashJoin { left: Box::new(pa), right: Box::new(pb) };
    let nlj = PhysicalM::NestedLoopJoin { left: Box::new(pa), right: Box::new(pb) };
    let pj = PhysicalM::ParallelJoin { left: Box::new(pa), right: Box::new(pb) };
    if cardinality(stats, a) < 1000 && cardinality(stats, b) < 1000 {
        seq![ohj, hj, nlj, pj]
    } else {
        seq![ohj, hj, pj]
    }
}

/// The models that a retrieval plan finds: its rows when it is a basic graph
/// pattern, else none.
pub open spec fn retrieved_models(ts: Seq<Triple>, retrieval: PhysicalM) -> Seq<IdRowM> {
    if is_bgp(retrieval) {
        solutions(ts, retrieval)
    } else {
        Seq::empty()
    }
}

/// The memoizing search for the best physical plan of `op`: the plan under
/// its key when the memo has one; else the star shortcut, or the cheapest
/// candidate built from the best plans of its parts; the result is memoized
/// under the key.
pub open spec fn plan_search(
    stats: DatabaseStats,
    path: Seq<char>,
    ts: Seq<Triple>,
    dict: Seq<Seq<char>>,
    memo: Seq<(Seq<char>, PhysicalM)>,
    op: LogicalM,
) -> (PhysicalM, Seq<(Seq<char>, PhysicalM)>)
    decreases op, 1nat,
{
    let key = logical_text(op);
    match memo_lookup(memo, key) {
        Some(p) => (p, memo),
        None => match star_shortcut(op) {
            Some(p) => (p, memo_insert(memo, key, p)),
            None => {
                let (best, m) = candidate_search(stats, path, ts, dict, memo, op);
                (best, memo_insert(m, key, best))
            },
        },
    }
}

/// The cheapest candidate plan for `op`, built from the best plans of its
/// parts, found in order and threading the memo.
pub open spec fn candidate_search(
    stats: DatabaseStats,
    path: Seq<char>,
    ts: Seq<Triple>,
    dict: Seq<Seq<char>>,
    memo: Seq<(Seq<char>, PhysicalM)>,
    op: LogicalM,
) -> (PhysicalM, Seq<(Seq<char>, PhysicalM)>)
    decreases op, 0nat,
{
    match op {
        LogicalM::Scan { pattern } => (best_scan(stats, pattern), memo),
        LogicalM::Selection { predicate, condition } => {
            let (c, m1) = plan_search(stats, path, ts, dict, memo, *predicate);
            (PhysicalM::Filter { input: Box::new(c), condition }, m1)
        },
        LogicalM::Projection { predicate, variables } => {
            let (c, m1) = plan_search(stats, path, ts, dict, memo, *predicate);
            (PhysicalM::Projection { input: Box::new(c), variables }, m1)
        },
        LogicalM::Join { left, right } => {
            if logical_cost(stats, *left) <= logical_cost(stats, *right) {
                let (pa, m1) = plan_search(stats, path, ts, dict, memo, *left);
                let (pb, m2) = plan_search(stats, path, ts, dict, m1, *right);
                (cheapest(stats, join_candidates(stats, *left, *right, pa, pb)), m2)
            } else {
                let (pa, m1) = plan_search(stats, path, ts, dict, memo, *right);
                let (pb, m2) = plan_search(stats, path, ts, dict, m1, *left);
                (cheapest(stats, join_candidates(stats, *right, *left, pa, pb)), m2)
            }
        },
        LogicalM::Buffer { content, origin } => (PhysicalM::InMemoryBuffer { content, origin }, memo),
        LogicalM::Subquery { inner, projected_vars } => {
            let (c, m1) = plan_search(stats, path, ts, dict, memo, *inner);
            (PhysicalM::Subquery { inner: Box::new(c), projected_vars }, m1)
        },
        LogicalM::Bind { input, function_name, arguments, output_variable } => {
            let (c, m1) = plan_search(stats, path, ts, dict, memo, *input);
            (PhysicalM::Bind { input: Box::new(c), function_name, arguments, output_variable }, m1)
        },
        LogicalM::Values { variables, values } => (PhysicalM::Values { variables, values }, memo),
        LogicalM::MLPredict { input, model_name, input_variables, output_variable } => {
            let (pi, m1) = plan_search(stats, path, ts, dict, memo, *input);
            match model_name {
                GetterM::MLPredict(name) => (
                    PhysicalM::MLPredict {
                        input: Box::new(pi),
                        model_name: PhysGetterM::MLPredictPhysical(name),
                        model_path: path,
                        input_variables,
                        output_variable,
                    },
                    m1,
                ),
                GetterM::RunMLClause(retrieval) => {
                    let (pr, m2) = plan_search(stats, path, ts, dict, m1, *retrieval);
                    let rows = retrieved_models(ts, pr);
                    (
                        PhysicalM::MLPredict {
                            input: Box::new(pi),
                            model_name: PhysGetterM::RunMLClausePhysical(rows, decode_rows(dict, rows)),
                            model_path: path,
                            input_variables,
                            output_variable,
                        },
                        m2,
                    )
                },
            }
        },
    }
}

/// The memo lookup finds the entry of a key, when keys are distinct.
proof fn lemma_memo_lookup_at(m: Seq<(Seq<char>, PhysicalM)>, i: int)
    requires
        memo_keys_distinct(m),
        0 <= i < m.len(),
    ensures
        memo_lookup(m, m[i].0) == Some(m[i].1),
{
}

/// Inserting keeps keys distinct.
proof fn lemma_memo_insert_distinct(m: Seq<(Seq<char>, PhysicalM)>, key: Seq<char>, p: PhysicalM)
    requires
        memo_keys_distinct(m),
    ensures
        memo_keys_distinct(memo_insert(m, key, p)),
{
    if exists|i: int| 0 <= i < m.len() && m[i].0 == key {
        let k = key_position(m, key);
        let n = m.update(k, (key, p));
        assert forall|i: int, j: int| 0 <= i < j < n.len() implies n[i].0 != n[j].0 by {
            if i != k && j != k {
                assert(n[i] == m[i] && n[j] == m[j]);
            } else if i == k {
                assert(n[j] == m[j]);
            } else {
                assert(n[i] == m[i]);
            }
        }
    } else {
        let n = m.push((key, p));
        assert forall|i: int, j: int| 0 <= i < j < n.len() implies n[i].0 != n[j].0 by {
            if j < m.len() {
                assert(n[i] == m[i] && n[j] == m[j]);
            } else {
                assert(n[i] == m[i]);
            }
        }
    }
}

/// The first plan of least cost among the candidates.
fn cheapest_exec(stats: &DatabaseStats, cands: &Vec<PhysicalOperator>) -> (r: PhysicalOperator)
    requires
        cands@.len() >= 1,
    ensures
        r@ == cheapest(*stats, cands@.map_values(|p: PhysicalOperator| p@)),
{
    let ghost cm = cands@.map_values(|p: PhysicalOperator| p@);
    let mut best: usize = 0;
    let mut best_cost = estimate_cost(stats, &cands[0]);
    assert(cm.take(1).len() == 1);
    assert(cheapest(*stats, cm.take(1)) == cm[0]);
    let mut i: usize = 1;
    while i < cands.len()
        invariant
            1 <= i <= cands@.len(),
            cm == cands@.map_values(|p: PhysicalOperator| p@),
            best < i,
            cheapest(*stats, cm.take(i as int)) == cm[best as int],
            best_cost == physical_cost(*stats, cm[best as int]),
        decreases cands@.len() - i,
    {
        let c = estimate_cost(stats, &cands[i]);
        assert(cm.take(i + 1).drop_last() =~= cm.take(i as int));
        assert(cm.take(i + 1).last() == cm[i as int]);
        if c < best_cost {
            best = i;
            best_cost = c;
        }
        i = i + 1;
    }
    assert(cm.take(cands@.len() as int) =~= cm);
    cands[best].duplicate()
}

impl Streamertail {
    /// Detects whether the patterns of a join tree form stars, and which.
    pub fn is_star_query(&self, plan: &LogicalOperator) -> (r: Option<Vec<(String, Vec<TriplePattern>)>>)
        ensures
            match r {
                Some(v) => {
                    &&& plan_stars(plan@) == Some(v.deep_view())
                    &&& grouped_by_positions(
                        collected(plan@, Seq::empty()),
                        v.deep_view(),
                        star_positions(collected(plan@, Seq::empty())),
                    )
                    &&& forall|a: int, b: int|
                        0 <= a < b < v@.len() ==> occurrences(collected(plan@, Seq::empty()), #[trigger] v.deep_view()[a].0).len()
                            >= occurrences(collected(plan@, Seq::empty()), #[trigger] v.deep_view()[b].0).len()
                },
                None => plan_stars(plan@) is None,
            },
    {
        let mut patterns: Vec<TriplePattern> = Vec::new();
        assert(patterns.deep_view() =~= Seq::<PatternM>::empty());
        self.collect_patterns(plan, &mut patterns);
        star_groups(&patterns)
    }

    /// The memo key of a logical plan.
    pub fn create_memo_key(&self, logical_plan: &LogicalOperator) -> (k: String)
        ensures
            k@ == logical_text(logical_plan@),
    {
        serialize_logical_plan(logical_plan)
    }

    /// The position of the memo entry under `key`.
    fn memo_find(&self, key: &str) -> (r: Option<usize>)
        requires
            self.wf(),
        ensures
            match r {
                Some(i) => i < self.memo@.len() && self.memo_model()[i as int].0 == key@ && memo_lookup(
                    self.memo_model(),
                    key@,
                ) == Some(self.memo_model()[i as int].1),
                None => memo_lookup(self.memo_model(), key@) is None,
            },
    {
        let ghost m = self.memo_model();
        let mut i: usize = 0;
        while i < self.memo.len()
            invariant
                i <= self.memo@.len(),
                m == self.memo_model(),
                memo_keys_distinct(m),
                forall|j: int| 0 <= j < i ==> m[j].0 != key@,
            decreases self.memo@.len() - i,
        {
            assert(m[i as int] == (self.memo@[i as int].0@, self.memo@[i as int].1@));
            if str_equal(self.memo[i].0.as_str(), key) {
                proof {
                    lemma_memo_lookup_at(m, i as int);
                }
                return Some(i);
            }
            i = i + 1;
        }
        None
    }

    /// Memoizes `plan` under `key`, replacing an entry under the same key.
    fn memo_put(&mut self, key: String, plan: PhysicalOperator)
        requires
            old(self).wf(),
        ensures
            final(self).wf(),
            final(self).memo_model() == memo_insert(old(self).memo_model(), key@, plan@),
            final(self).stats == old(self).stats,
            final(self).model_path == old(self).model_path,
            final(self).selected_variables == old(self).selected_variables,
    {
        let ghost m = self.memo_model();
        proof {
            lemma_memo_insert_distinct(m, key@, plan@);
        }
        match self.memo_find(key.as_str()) {
            Some(i) => {
                self.memo.set(i, (key, plan));
                proof {
                    assert(exists|j: int| 0 <= j < m.len() && m[j].0 == key@);
                    let k = key_position(m, key@);
                    assert(k == i as int);
                    assert(self.memo_model() =~= m.update(i as int, (key@, plan@)));
                }
            },
            None => {
                let ghost kv = key@;
                let ghost pv = plan@;
                self.memo.push((key, plan));
                proof {
                    assert(!exists|j: int| 0 <= j < m.len() && m[j].0 == kv);
                    assert(self.memo_model() =~= m.push((kv, pv)));
                }
            },
        }
    }

    /// The cheapest join of two best plans, `cheaper` and `expensive` being
    /// the logical plans they were found for.
    fn join_choice(
        &self,
        cheaper: &LogicalOperator,
        expensive: &LogicalOperator,
        best_left: PhysicalOperator,
        best_right: PhysicalOperator,
    ) -> (r: PhysicalOperator)
        requires
            estimates_fit(self.stats_model(), cheaper@),
            estimates_fit(self.stats_model(), expensive@),
        ensures
            r@ == cheapest(
                self.stats_model(),
                join_candidates(self.stats_model(), cheaper@, expensive@, best_left@, best_right@),
            ),
    {
        let ghost expected = join_candidates(self.stats_model(), cheaper@, expensive@, best_left@, best_right@);
        let mut candidates: Vec<PhysicalOperator> = Vec::new();
        candidates.push(PhysicalOperator::optimized_hash_join(best_left.duplicate(), best_right.duplicate()));
        candidates.push(PhysicalOperator::hash_join(best_left.duplicate(), best_right.duplicate()));
        let left_cardinality = self.estimate_output_cardinality_from_logical(cheaper);
        let right_cardinality = self.estimate_output_cardinality_from_logical(expensive);
        if left_cardinality < 1000 && right_cardinality < 1000 {
            candidates.push(PhysicalOperator::nested_loop_join(best_left.duplicate(), best_right.duplicate()));
        }
        candidates.push(PhysicalOperator::parallel_join(best_left, best_right));
        assert(candidates@.map_values(|p: PhysicalOperator| p@) =~= expected);
        cheapest_exec(&self.stats, &candidates)
    }

    /// Finds the best physical plan for a logical plan by a memoizing search.
    #[verifier::rlimit(60)]
    pub fn find_best_plan_recursive(&mut self, logical_plan: &LogicalOperator, database: &SparqlDatabase) -> (r:
        PhysicalOperator)
        requires
            old(self).wf(),
            search_fits(old(self).stats_model(), logical_plan@),
            triples_ids_below(database.triples@, database.dictionary@.len()),
        ensures
            final(self).wf(),
            (r@, final(self).memo_model()) == plan_search(
                old(self).stats_model(),
                old(self).model_path@,
                database.triples@,
                database.dictionary@,
                old(self).memo_model(),
                logical_plan@,
            ),
            final(self).stats == old(self).stats,
            final(self).model_path == old(self).model_path,
            final(self).selected_variables == old(self).selected_variables,
        decreases logical_plan,
    {
        let key = self.create_memo_key(logical_plan);
        match self.memo_find(key.as_str()) {
            Some(i) => {
                return self.memo[i].1.duplicate();
            },
            None => {},
        }
        match logical_plan {
            LogicalOperator::Projection { predicate: proj_pred, variables } => {
                assert(logical_plan@ == (LogicalM::Projection {
                    predicate: Box::new(proj_pred@),
                    variables: variables.deep_view(),
                })) by {
                    assert(logical_plan@ == crate::operators::logical_model(*logical_plan));
                }
                match &**proj_pred {
                    LogicalOperator::Selection { predicate: sel_pred, condition } => {
                        assert(proj_pred@ == (LogicalM::Selection {
                            predicate: Box::new(sel_pred@),
                            condition: condition@,
                        })) by {
                            assert(proj_pred@ == crate::operators::logical_model(**proj_pred));
                        }
                        if let Some(stars) = self.is_star_query(sel_pred) {
                            let star_plan = self.build_star_join_from_patterns(stars, sel_pred);
                            let filtered_plan = PhysicalOperator::filter(star_plan, copy_condition(condition));
                            let projected_plan = PhysicalOperator::projection(filtered_plan, copy_strings(variables));
                            assert(star_shortcut(logical_plan@) == Some(projected_plan@));
                            self.memo_put(key, projected_plan.duplicate());
                            return projected_plan;
                        }
                    },
                    _ => {
                        assert(!(proj_pred@ is Selection)) by {
                            assert(proj_pred@ == crate::operators::logical_model(**proj_pred));
                        }
                    },
                }
            },
            LogicalOperator::Selection { predicate, condition } => {
                assert(logical_plan@ == (LogicalM::Selection {
                    predicate: Box::new(predicate@),
                    condition: condition@,
                })) by {
                    assert(logical_plan@ == crate::operators::logical_model(*logical_plan));
                }
                if let Some(stars) = self.is_star_query(predicate) {
                    let star_plan = self.build_star_join_from_patterns(stars, predicate);
                    let filtered_plan = PhysicalOperator::filter(star_plan, copy_condition(condition));
                    assert(star_shortcut(logical_plan@) == Some(filtered_plan@));
                    self.memo_put(key, filtered_plan.duplicate());
                    return filtered_plan;
                }
            },
            _ => {
                assert(!(logical_plan@ is Selection) && !(logical_plan@ is Projection)) by {
                    assert(logical_plan@ == crate::operators::logical_model(*logical_plan));
                }
                if let Some(stars) = self.is_star_query(logical_plan) {
                    let star_plan = self.build_star_join_from_patterns(stars, logical_plan);
                    assert(star_shortcut(logical_plan@) == Some(star_plan@));
                    self.memo_put(key, star_plan.duplicate());
                    return star_plan;
                }
            },
        }
        assert(star_shortcut(logical_plan@) is None);
        let best = match logical_plan {
            LogicalOperator::Scan { pattern } => self.choose_best_scan(pattern),
            LogicalOperator::Selection { predicate, condition } => {
                let best_child_plan = self.find_best_plan_recursive(predicate, database);
                PhysicalOperator::filter(best_child_plan, copy_condition(condition))
            },
            LogicalOperator::Projection { predicate, variables } => {
                let best_child_plan = self.find_best_plan_recursive(predicate, database);
                PhysicalOperator::projection(best_child_plan, copy_strings(variables))
            },
            LogicalOperator::Join { left, right } => {
                let left_cost = self.estimate_logical_cost(left);
                let right_cost = self.estimate_logical_cost(right);
                proof {
                    lemma_fits_search(self.stats_model(), left@);
                    lemma_fits_search(self.stats_model(), right@);
                }
                if left_cost <= right_cost {
                    let best_left_plan = self.find_best_plan_recursive(left, database);
                    let best_right_plan = self.find_best_plan_recursive(right, database);
                    self.join_choice(left, right, best_left_plan, best_right_plan)
                } else {
                    let best_left_plan = self.find_best_plan_recursive(right, database);
                    let best_right_plan = self.find_best_plan_recursive(left, database);
                    self.join_choice(right, left, best_left_plan, best_right_plan)
                }
            },
            LogicalOperator::Buffer { content, origin } => PhysicalOperator::InMemoryBuffer {
                content: copy_triples(content),
                origin: origin.clone(),
            },
            LogicalOperator::Subquery { inner, projected_vars } => {
                let optimized_inner = self.find_best_plan_recursive(inner, database);
                PhysicalOperator::subquery(optimized_inner, copy_strings(projected_vars))
            },
            LogicalOperator::Bind { input, function_name, arguments, output_variable } => {
                let best_input_plan = self.find_best_plan_recursive(input, database);
                PhysicalOperator::bind(
                    best_input_plan,
                    function_name.clone(),
                    copy_strings(arguments),
                    output_variable.clone(),
                )
            },
            LogicalOperator::Values { variables, values } => PhysicalOperator::values(
                copy_strings(variables),
                copy_value_rows(values),
            ),
            LogicalOperator::MLPredict { input, model_name, input_variables, output_variable } => {
                let best_input_plan = self.find_best_plan_recursive(input, database);
                match model_name {
                    ModelGetter::MLPredict(name) => PhysicalOperator::ml_predict(
                        best_input_plan,
                        name.clone(),
                        self.model_path.clone(),
                        copy_strings(input_variables),
                        output_variable.clone(),
                    ),
                    ModelGetter::RunMLClause(argument) => {
                        let retrieval = self.find_best_plan_recursive(argument, database);
                        let models = match execute_with_ids(&retrieval, database) {
                            Some(rows) => rows,
                            None => Vec::new(),
                        };
                        proof {
                            lemma_solutions_below(database.triples@, retrieval@, database.dictionary@.len());
                        }
                        assert(models.deep_view() =~= retrieved_models(database.triples@, retrieval@));
                        let namelist = decode_rows_exec(&database.dictionary, &models);
                        PhysicalOperator::run_ml_clause(
                            best_input_plan,
                            models,
                            namelist,
                            self.model_path.clone(),
                            copy_strings(input_variables),
                            output_variable.clone(),
                        )
                    },
                }
            },
        };
        self.memo_put(key, best.duplicate());
        best
    }

    /// Finds the best physical plan for a logical plan.
    pub fn find_best_plan(&mut self, logical_plan: &LogicalOperator, database: &SparqlDatabase) -> (r:
        PhysicalOperator)
        requires
            old(self).wf(),
            search_fits(old(self).stats_model(), logical_plan@),
            triples_ids_below(database.triples@, database.dictionary@.len()),
        ensures
            final(self).wf(),
            (r@, final(self).memo_model()) == plan_search(
                old(self).stats_model(),
                old(self).model_path@,
                database.triples@,
                database.dictionary@,
                old(self).memo_model(),
                logical_plan@,
            ),
            final(self).stats == old(self).stats,
            final(self).model_path == old(self).model_path,
            final(self).selected_variables == old(self).selected_variables,
    {
        self.find_best_plan_recursive(logical_plan, database)
    }

    /// Executes a physical plan and returns its rows with decoded values:
    /// `None` for a plan that is not a basic graph pattern.
    pub fn execute_plan(&self, plan: &PhysicalOperator, database: &mut SparqlDatabase) -> (r: Option<
        Vec<NameRow>,
    >)
        requires
            triples_ids_below(old(database).triples@, old(database).dictionary@.len()),
        ensures
            *final(database) == *old(database),
            match r {
                Some(rows) => is_bgp(plan@) && rows.deep_view() == decode_rows(
                    old(database).dictionary@,
                    solutions(old(database).triples@, plan@),
                ),
                None => !is_bgp(plan@),
            },
    {
        match execute_with_ids(plan, database) {
            Some(rows) => {
                proof {
                    lemma_solutions_below(database.triples@, plan@, database.dictionary@.len());
                }
                Some(decode_rows_exec(&database.dictionary, &rows))
            },
            None => None,
        }
    }

    /// Optimizes a logical plan and executes the best physical plan found.
    pub fn optimize_and_execute(&mut self, logical_plan: &LogicalOperator, database: &mut SparqlDatabase) -> (r:
        Option<Vec<NameRow>>)
        requires
            old(self).wf(),
            search_fits(old(self).stats_model(), logical_plan@),
            triples_ids_below(old(database).triples@, old(database).dictionary@.len()),
        ensures
            final(self).wf(),
            *final(database) == *old(database),
            final(self).memo_model() == plan_search(
                old(self).stats_model(),
                old(self).model_path@,
                old(database).triples@,
                old(database).dictionary@,
                old(self).memo_model(),
                logical_plan@,
            ).1,
            ({
                let p = plan_search(
                    old(self).stats_model(),
                    old(self).model_path@,
                    old(database).triples@,
                    old(database).dictionary@,
                    old(self).memo_model(),
                    logical_plan@,
                ).0;
                match r {
                    Some(rows) => is_bgp(p) && rows.deep_view() == decode_rows(
                        old(database).dictionary@,
                        solutions(old(database).triples@, p),
                    ),
                    None => !is_bgp(p),
                }
            }),
            final(self).stats == old(self).stats,
            final(self).model_path == old(self).model_path,
            final(self).selected_variables == old(self).selected_variables,
    {
        let physical_plan = self.find_best_plan(logical_plan, database);
        self.execute_plan(&physical_plan, database)
    }

    /// Moves the first RUN clause up the join tree: at the first join down the
    /// left spine that is estimated cheaper than `mlinput`, the join becomes
    /// the input of a RUN operator whose retrieval plan is `mlinput`.
    pub fn bubble_up_runmlclause(
        &self,
        logical_op: &LogicalOperator,
        mlinput: &LogicalOperator,
        mlretrieval: &LogicalOperator,
        input_variables: Vec<String>,
        output_var: String,
    ) -> (r: LogicalOperator)
        requires
            bubble_fits(self.stats_model(), logical_op@, mlinput@),
        ensures
            r@ == bubbled(self.stats_model(), logical_op@, mlinput@, input_variables.deep_view(), output_var@),
        decreases logical_op,
    {
        match logical_op {
            LogicalOperator::Join { left, .. } => {
                if self.estimate_logical_cost(logical_op) < self.estimate_logical_cost(mlinput) {
                    return LogicalOperator::run_ml_clause_lo(
                        logical_op.duplicate(),
                        mlinput.duplicate(),
                        input_variables,
                        output_var,
                    );
                }
                proof {
                    lemma_fits_bubble(self.stats_model(), left@, mlinput@);
                }
                self.bubble_up_runmlclause(left, mlinput, mlretrieval, input_variables, output_var)
            },
            LogicalOperator::Selection { predicate, condition } => LogicalOperator::selection(
                self.bubble_up_runmlclause(predicate, mlinput, mlretrieval, input_variables, output_var),
                copy_condition(condition),
            ),
            LogicalOperator::Projection { predicate, variables } => LogicalOperator::projection(
                self.bubble_up_runmlclause(predicate, mlinput, mlretrieval, input_variables, output_var),
                copy_strings(variables),
            ),
            LogicalOperator::Subquery { inner, projected_vars } => LogicalOperator::subquery(
                self.bubble_up_runmlclause(inner, mlinput, mlretrieval, input_variables, output_var),
                copy_strings(projected_vars),
            ),
            LogicalOperator::Bind { input, function_name, arguments, output_variable } => LogicalOperator::bind(
                self.bubble_up_runmlclause(input, mlinput, mlretrieval, input_variables, output_var),
                function_name.clone(),
                copy_strings(arguments),
                output_variable.clone(),
            ),
            _ => logical_op.duplicate(),
        }
    }

    /// Finds the best physical plan after moving the first RUN clause up to
    /// the cheapest place the join tree allows.
    pub fn find_best_plan_recursive_optimised(
        &mut self,
        logical_plan: &LogicalOperator,
        database: &SparqlDatabase,
    ) -> (r: PhysicalOperator)
        requires
            old(self).wf(),
            ml_found(logical_plan@) matches Some(found) ==> bubble_fits(
                old(self).stats_model(),
                logical_plan@,
                found.0,
            ),
            search_fits(old(self).stats_model(), ml_placed(old(self).stats_model(), logical_plan@)),
            triples_ids_below(database.triples@, database.dictionary@.len()),
        ensures
            final(self).wf(),
            (r@, final(self).memo_model()) == plan_search(
                old(self).stats_model(),
                old(self).model_path@,
                database.triples@,
                database.dictionary@,
                old(self).memo_model(),
                ml_placed(old(self).stats_model(), logical_plan@),
            ),
            final(self).stats == old(self).stats,
            final(self).model_path == old(self).model_path,
            final(self).selected_variables == old(self).selected_variables,
    {
        let mut logical_plan_clone = logical_plan.duplicate();
        if let Some((mlinput, mlretrieval, input_vars, output_var)) = self.ml_exists(logical_plan) {
            logical_plan_clone = self.bubble_up_runmlclause(logical_plan, &mlinput, &mlretrieval, input_vars, output_var);
        }
        self.find_best_plan_recursive(&logical_plan_clone, database)
    }
}

/// The plan with the first RUN clause moved up the join tree (see
/// `bubble_up_runmlclause`).
pub open spec fn bubbled(
    stats: DatabaseStats,
    op: LogicalM,
    mlinput: LogicalM,
    input_variables: Seq<Seq<char>>,
    output_var: Seq<char>,
) -> LogicalM
    decreases op,
{
    match op {
        LogicalM::Join { left, .. } => if logical_cost(stats, op) < logical_cost(stats, mlinput) {
            LogicalM::MLPredict {
                input: Box::new(op),
                model_name: GetterM::RunMLClause(Box::new(mlinput)),
                input_variables,
                output_variable: output_var,
            }
        } else {
            bubbled(stats, *left, mlinput, input_variables, output_var)
        },
        LogicalM::Selection { predicate, condition } => LogicalM::Selection {
            predicate: Box::new(bubbled(stats, *predicate, mlinput, input_variables, output_var)),
            condition,
        },
        LogicalM::Projection { predicate, variables } => LogicalM::Projection {
            predicate: Box::new(bubbled(stats, *predicate, mlinput, input_variables, output_var)),
            variables,
        },
        LogicalM::Subquery { inner, projected_vars } => LogicalM::Subquery {
            inner: Box::new(bubbled(stats, *inner, mlinput, input_variables, output_var)),
            projected_vars,
        },
        LogicalM::Bind { input, function_name, arguments, output_variable } => LogicalM::Bind {
            input: Box::new(bubbled(stats, *input, mlinput, input_variables, output_var)),
            function_name,
            arguments,
            output_variable,
        },
        _ => op,
    }
}

/// The first node of a plan below its selections, projections, subqueries
/// and binds.
pub open spec fn spine_top(op: LogicalM) -> LogicalM
    decreases op,
{
    match op {
        LogicalM::Selection { predicate, .. } => spine_top(*predicate),
        LogicalM::Projection { predicate, .. } => spine_top(*predicate),
        LogicalM::Subquery { inner, .. } => spine_top(*inner),
        LogicalM::Bind { input, .. } => spine_top(*input),
        _ => op,
    }
}

/// The node at the bottom of a plan's left spine: below its selections,
/// projections, subqueries, binds and the left sides of its joins.
pub open spec fn spine_bottom(op: LogicalM) -> LogicalM
    decreases op,
{
    match op {
        LogicalM::Selection { predicate, .. } => spine_bottom(*predicate),
        LogicalM::Projection { predicate, .. } => spine_bottom(*predicate),
        LogicalM::Subquery { inner, .. } => spine_bottom(*inner),
        LogicalM::Bind { input, .. } => spine_bottom(*input),
        LogicalM::Join { left, .. } => spine_bottom(*left),
        _ => op,
    }
}

/// Moving a RUN clause up places it only above a join that costs strictly
/// less than the RUN clause's input: a RUN node over a join at the top of the
/// result, other than the one already at the bottom of the plan's spine, has
/// a join cheaper than `mlinput` below it.
pub proof fn lemma_run_placed_above_cheaper_join(
    stats: DatabaseStats,
    op: LogicalM,
    mlinput: LogicalM,
    input_variables: Seq<Seq<char>>,
    output_var: Seq<char>,
)
    ensures
        ({
            let r = bubbled(stats, op, mlinput, input_variables, output_var);
            match spine_top(r) {
                LogicalM::MLPredict { input, model_name: GetterM::RunMLClause(m), .. } => (*input is Join && *m
                    == mlinput && spine_top(r) != spine_bottom(op)) ==> logical_cost(stats, *input) < logical_cost(
                    stats,
                    mlinput,
                ),
                _ => true,
            }
        }),
    decreases op,
{
    match op {
        LogicalM::Join { left, .. } => {
            if !(logical_cost(stats, op) < logical_cost(stats, mlinput)) {
                lemma_run_placed_above_cheaper_join(stats, *left, mlinput, input_variables, output_var);
            }
        },
        LogicalM::Selection { predicate, .. } => lemma_run_placed_above_cheaper_join(
            stats,
            *predicate,
            mlinput,
            input_variables,
            output_var,
        ),
        LogicalM::Projection { predicate, .. } => lemma_run_placed_above_cheaper_join(
            stats,
            *predicate,
            mlinput,
            input_variables,
            output_var,
        ),
        LogicalM::Subquery { inner, .. } => lemma_run_placed_above_cheaper_join(
            stats,
            *inner,
            mlinput,
            input_variables,
            output_var,
        ),
        LogicalM::Bind { input, .. } => lemma_run_placed_above_cheaper_join(
            stats,
            *input,
            mlinput,
            input_variables,
            output_var,
        ),
        _ => {},
    }
}

/// When the first join below the selections, projections, subqueries and
/// binds already costs less than the RUN clause's input, the RUN clause goes
/// right above it, with the given variables.
pub proof fn lemma_run_placed_at_first_cheaper_join(
    stats: DatabaseStats,
    op: LogicalM,
    mlinput: LogicalM,
    input_variables: Seq<Seq<char>>,
    output_var: Seq<char>,
)
    requires
        spine_top(op) is Join,
        logical_cost(stats, spine_top(op)) < logical_cost(stats, mlinput),
    ensures
        spine_top(bubbled(stats, op, mlinput, input_variables, output_var)) == (LogicalM::MLPredict {
            input: Box::new(spine_top(op)),
            model_name: GetterM::RunMLClause(Box::new(mlinput)),
            input_variables,
            output_variable: output_var,
        }),
    decreases op,
{
    match op {
        LogicalM::Selection { predicate, .. } => lemma_run_placed_at_first_cheaper_join(
            stats,
            *predicate,
            mlinput,
            input_variables,
            output_var,
        ),
        LogicalM::Projection { predicate, .. } => lemma_run_placed_at_first_cheaper_join(
            stats,
            *predicate,
            mlinput,
            input_variables,
            output_var,
        ),
        LogicalM::Subquery { inner, .. } => lemma_run_placed_at_first_cheaper_join(
            stats,
            *inner,
            mlinput,
            input_variables,
            output_var,
        ),
        LogicalM::Bind { input, .. } => lemma_run_placed_at_first_cheaper_join(
            stats,
            *input,
            mlinput,
            input_variables,
            output_var,
        ),
        _ => {},
    }
}

/// The plan that the optimised search plans: with its first RUN clause moved
/// up, when it has one.
pub open spec fn ml_placed(stats: DatabaseStats, op: LogicalM) -> LogicalM {
    match ml_found(op) {
        Some(found) => bubbled(stats, op, found.0, found.2, found.3),
        None => op,
    }
}

/// Whether the estimates that the search computes fit in a `u64`: the cost
/// and cardinality of both sides of each join it plans.
pub open spec fn search_fits(stats: DatabaseStats, op: LogicalM) -> bool
    decreases op,
{
    match op {
        LogicalM::Join { left, right } => estimates_fit(stats, *left) && estimates_fit(stats, *right),
        LogicalM::Selection { predicate, .. } => search_fits(stats, *predicate),
        LogicalM::Projection { predicate, .. } => search_fits(stats, *predicate),
        LogicalM::Subquery { inner, .. } => search_fits(stats, *inner),
        LogicalM::Bind { input, .. } => search_fits(stats, *input),
        LogicalM::MLPredict { input, model_name, .. } => search_fits(stats, *input) && match model_name {
            GetterM::RunMLClause(retrieval) => search_fits(stats, *retrieval),
            GetterM::MLPredict(..) => true,
        },
        _ => true,
    }
}

/// A plan whose estimates all fit has the estimates the search computes fit.
pub proof fn lemma_fits_search(stats: DatabaseStats, op: LogicalM)
    requires
        estimates_fit(stats, op),
    ensures
        search_fits(stats, op),
    decreases op,
{
    match op {
        LogicalM::Selection { predicate, .. } => lemma_fits_search(stats, *predicate),
        LogicalM::Projection { predicate, .. } => lemma_fits_search(stats, *predicate),
        LogicalM::Subquery { inner, .. } => lemma_fits_search(stats, *inner),
        LogicalM::Bind { input, .. } => lemma_fits_search(stats, *input),
        LogicalM::MLPredict { input, model_name, .. } => {
            lemma_fits_search(stats, *input);
            match model_name {
                GetterM::RunMLClause(retrieval) => lemma_fits_search(stats, *retrieval),
                _ => {},
            }
        },
        _ => {},
    }
}

/// Whether the estimates that moving a RUN clause up computes fit in a
/// `u64`: the costs of each join down the spine and of `mlinput`.
pub open spec fn bubble_fits(stats: DatabaseStats, op: LogicalM, mlinput: LogicalM) -> bool
    decreases op,
{
    match op {
        LogicalM::Join { .. } => estimates_fit(stats, op) && estimates_fit(stats, mlinput),
        LogicalM::Selection { predicate, .. } => bubble_fits(stats, *predicate, mlinput),
        LogicalM::Projection { predicate, .. } => bubble_fits(stats, *predicate, mlinput),
        LogicalM::Subquery { inner, .. } => bubble_fits(stats, *inner, mlinput),
        LogicalM::Bind { input, .. } => bubble_fits(stats, *input, mlinput),
        _ => true,
    }
}

/// Plans whose estimates all fit can have a RUN clause moved up.
pub proof fn lemma_fits_bubble(stats: DatabaseStats, op: LogicalM, mlinput: LogicalM)
    requires
        estimates_fit(stats, op),
        estimates_fit(stats, mlinput),
    ensures
        bubble_fits(stats, op, mlinput),
    decreases op,
{
    match op {
        LogicalM::Selection { predicate, .. } => lemma_fits_bubble(stats, *predicate, mlinput),
        LogicalM::Projection { predicate, .. } => lemma_fits_bubble(stats, *predicate, mlinput),
        LogicalM::Subquery { inner, .. } => lemma_fits_bubble(stats, *inner, mlinput),
        LogicalM::Bind { input, .. } => lemma_fits_bubble(stats, *input, mlinput),
        _ => {},
    }
}

/// Without a RUN clause down the left spine, the optimised search plans the
/// plan as it is.
pub proof fn lemma_placed_without_run(stats: DatabaseStats, op: LogicalM)
    requires
        ml_found(op) is None,
    ensures
        ml_placed(stats, op) == op,
{
}

/// Looking up a key just inserted gives the inserted plan.
proof fn lemma_memo_insert_lookup(m: Seq<(Seq<char>, PhysicalM)>, key: Seq<char>, p: PhysicalM)
    requires
        memo_keys_distinct(memo_insert(m, key, p)),
    ensures
        memo_lookup(memo_insert(m, key, p), key) == Some(p),
{
    let n = memo_insert(m, key, p);
    if exists|i: int| 0 <= i < m.len() && m[i].0 == key {
        let at = key_position(m, key);
        assert(n == m.update(at, (key, p)));
        assert(n[at] == (key, p));
        let j = choose|j: int| 0 <= j < n.len() && n[j].0 == key;
        assert(j == at);
    } else {
        let at = m.len() as int;
        assert(n == m.push((key, p)));
        assert(n[at] == (key, p));
        let j = choose|j: int| 0 <= j < n.len() && n[j].0 == key;
        assert(j == at);
    }
}

/// The search keeps the memo's keys distinct.
pub proof fn lemma_search_distinct(
    stats: DatabaseStats,
    path: Seq<char>,
    ts: Seq<Triple>,
    dict: Seq<Seq<char>>,
    memo: Seq<(Seq<char>, PhysicalM)>,
    op: LogicalM,
)
    requires
        memo_keys_distinct(memo),
    ensures
        memo_keys_distinct(plan_search(stats, path, ts, dict, memo, op).1),
        memo_keys_distinct(candidate_search(stats, path, ts, dict, memo, op).1),
    decreases op,
{
    match op {
        LogicalM::Selection { predicate, .. } => lemma_search_distinct(stats, path, ts, dict, memo, *predicate),
        LogicalM::Projection { predicate, .. } => lemma_search_distinct(stats, path, ts, dict, memo, *predicate),
        LogicalM::Join { left, right } => {
            lemma_search_distinct(stats, path, ts, dict, memo, *left);
            lemma_search_distinct(stats, path, ts, dict, memo, *right);
            let ml = plan_search(stats, path, ts, dict, memo, *left).1;
            let mr = plan_search(stats, path, ts, dict, memo, *right).1;
            lemma_search_distinct(stats, path, ts, dict, ml, *right);
            lemma_search_distinct(stats, path, ts, dict, mr, *left);
        },
        LogicalM::Subquery { inner, .. } => lemma_search_distinct(stats, path, ts, dict, memo, *inner),
        LogicalM::Bind { input, .. } => lemma_search_distinct(stats, path, ts, dict, memo, *input),
        LogicalM::MLPredict { input, model_name, .. } => {
            lemma_search_distinct(stats, path, ts, dict, memo, *input);
            match model_name {
                GetterM::RunMLClause(retrieval) => {
                    let m1 = plan_search(stats, path, ts, dict, memo, *input).1;
                    lemma_search_distinct(stats, path, ts, dict, m1, *retrieval);
                },
                _ => {},
            }
        },
        _ => {},
    }
    let key = logical_text(op);
    match star_shortcut(op) {
        Some(p) => lemma_memo_insert_distinct(memo, key, p),
        None => {},
    }
    let (best, m) = candidate_search(stats, path, ts, dict, memo, op);
    lemma_memo_insert_distinct(m, key, best);
}

/// After a search, the memo holds the plan found under the plan's key.
pub proof fn lemma_search_memoized(
    stats: DatabaseStats,
    path: Seq<char>,
    ts: Seq<Triple>,
    dict: Seq<Seq<char>>,
    memo: Seq<(Seq<char>, PhysicalM)>,
    op: LogicalM,
)
    requires
        memo_keys_distinct(memo),
    ensures
        memo_lookup(plan_search(stats, path, ts, dict, memo, op).1, logical_text(op)) == Some(
            plan_search(stats, path, ts, dict, memo, op).0,
        ),
{
    lemma_search_distinct(stats, path, ts, dict, memo, op);
    let key = logical_text(op);
    match memo_lookup(memo, key) {
        Some(_) => {},
        None => match star_shortcut(op) {
            Some(p) => lemma_memo_insert_lookup(memo, key, p),
            None => {
                let (best, m) = candidate_search(stats, path, ts, dict, memo, op);
                lemma_memo_insert_lookup(m, key, best);
            },
        },
    }
}

/// Optimizing the same plan a second time, with the memo the first search
/// left, gives the same physical plan and leaves the memo as it was.
pub proof fn lemma_search_again(
    stats: DatabaseStats,
    path: Seq<char>,
    ts: Seq<Triple>,
    dict: Seq<Seq<char>>,
    memo: Seq<(Seq<char>, PhysicalM)>,
    op: LogicalM,
)
    requires
        memo_keys_distinct(memo),
    ensures
        ({
            let first = plan_search(stats, path, ts, dict, memo, op);
            plan_search(stats, path, ts, dict, first.1, op) == first
        }),
{
    lemma_search_memoized(stats, path, ts, dict, memo, op);
}

/// The best physical plan of `op` found without a memo: the star shortcut
/// where it applies, else the cheapest candidate built from the unmemoized
/// plans of its parts.
pub open spec fn unmemoized_plan(
    stats: DatabaseStats,
    path: Seq<char>,
    ts: Seq<Triple>,
    dict: Seq<Seq<char>>,
    op: LogicalM,
) -> PhysicalM
    decreases op, 1nat,
{
    match star_shortcut(op) {
        Some(p) => p,
        None => unmemoized_candidate(stats, path, ts, dict, op),
    }
}

/// The cheapest candidate plan for `op`, built from the unmemoized plans of
/// its parts.
pub open spec fn unmemoized_candidate(
    stats: DatabaseStats,
    path: Seq<char>,
    ts: Seq<Triple>,
    dict: Seq<Seq<char>>,
    op: LogicalM,
) -> PhysicalM
    decreases op, 0nat,
{
    match op {
        LogicalM::Scan { pattern } => best_scan(stats, pattern),
        LogicalM::Selection { predicate, condition } => PhysicalM::Filter {
            input: Box::new(unmemoized_plan(stats, path, ts, dict, *predicate)),
            condition,
        },
        LogicalM::Projection { predicate, variables } => PhysicalM::Projection {
            input: Box::new(unmemoized_plan(stats, path, ts, dict, *predicate)),
            variables,
        },
        LogicalM::Join { left, right } => {
            let pl = unmemoized_plan(stats, path, ts, dict, *left);
            let pr = unmemoized_plan(stats, path, ts, dict, *right);
            if logical_cost(stats, *left) <= logical_cost(stats, *right) {
                cheapest(stats, join_candidates(stats, *left, *right, pl, pr))
            } else {
                cheapest(stats, join_candidates(stats, *right, *left, pr, pl))
            }
        },
        LogicalM::Buffer { content, origin } => PhysicalM::InMemoryBuffer { content, origin },
        LogicalM::Subquery { inner, projected_vars } => PhysicalM::Subquery {
            inner: Box::new(unmemoized_plan(stats, path, ts, dict, *inner)),
            projected_vars,
        },
        LogicalM::Bind { input, function_name, arguments, output_variable } => PhysicalM::Bind {
            input: Box::new(unmemoized_plan(stats, path, ts, dict, *input)),
            function_name,
            arguments,
            output_variable,
        },
        LogicalM::Values { variables, values } => PhysicalM::Values { variables, values },
        LogicalM::MLPredict { input, model_name, input_variables, output_variable } => {
            let pi = unmemoized_plan(stats, path, ts, dict, *input);
            match model_name {
                GetterM::MLPredict(name) => PhysicalM::MLPredict {
                    input: Box::new(pi),
                    model_name: PhysGetterM::MLPredictPhysical(name),
                    model_path: path,
                    input_variables,
                    output_variable,
                },
                GetterM::RunMLClause(retrieval) => {
                    let rows = retrieved_models(ts, unmemoized_plan(stats, path, ts, dict, *retrieval));
                    PhysicalM::MLPredict {
                        input: Box::new(pi),
                        model_name: PhysGetterM::RunMLClausePhysical(rows, decode_rows(dict, rows)),
                        model_path: path,
                        input_variables,
                        output_variable,
                    }
                },
            }
        },
    }
}

/// Whether `s` is `op` or a plan inside it that the search plans on its own.
pub open spec fn is_part(s: LogicalM, op: LogicalM) -> bool
    decreases op,
{
    s == op || match op {
        LogicalM::Selection { predicate, .. } => is_part(s, *predicate),
        LogicalM::Projection { predicate, .. } => is_part(s, *predicate),
        LogicalM::Join { left, right } => is_part(s, *left) || is_part(s, *right),
        LogicalM::Subquery { inner, .. } => is_part(s, *inner),
        LogicalM::Bind { input, .. } => is_part(s, *input),
        LogicalM::MLPredict { input, model_name, .. } => is_part(s, *input) || match model_name {
            GetterM::RunMLClause(retrieval) => is_part(s, *retrieval),
            GetterM::MLPredict(_) => false,
        },
        _ => false,
    }
}

/// Parts of the plan that share a memo key have the same unmemoized plan.
pub open spec fn keys_coherent(
    stats: DatabaseStats,
    path: Seq<char>,
    ts: Seq<Triple>,
    dict: Seq<Seq<char>>,
    op: LogicalM,
) -> bool {
    forall|s: LogicalM, t: LogicalM|
        #![trigger is_part(s, op), is_part(t, op)]
        is_part(s, op) && is_part(t, op) && logical_text(s) == logical_text(t) ==> unmemoized_plan(
            stats,
            path,
            ts,
            dict,
            s,
        ) == unmemoized_plan(stats, path, ts, dict, t)
}

/// Under the key of each part of the plan, the memo holds only that part's
/// unmemoized plan.
pub open spec fn memo_agrees(
    stats: DatabaseStats,
    path: Seq<char>,
    ts: Seq<Triple>,
    dict: Seq<Seq<char>>,
    memo: Seq<(Seq<char>, PhysicalM)>,
    op: LogicalM,
) -> bool {
    forall|i: int, s: LogicalM|
        #![trigger memo[i], is_part(s, op)]
        0 <= i < memo.len() && is_part(s, op) && memo[i].0 == logical_text(s) ==> memo[i].1
            == unmemoized_plan(stats, path, ts, dict, s)
}

/// A part of a part is a part.
proof fn lemma_part_trans(a: LogicalM, b: LogicalM, c: LogicalM)
    requires
        is_part(a, b),
        is_part(b, c),
    ensures
        is_part(a, c),
    decreases c,
{
    if b != c {
        match c {
            LogicalM::Selection { predicate, .. } => lemma_part_trans(a, b, *predicate),
            LogicalM::Projection { predicate, .. } => lemma_part_trans(a, b, *predicate),
            LogicalM::Join { left, right } => {
                if is_part(b, *left) {
                    lemma_part_trans(a, b, *left);
                } else {
                    lemma_part_trans(a, b, *right);
                }
            },
            LogicalM::Subquery { inner, .. } => lemma_part_trans(a, b, *inner),
            LogicalM::Bind { input, .. } => lemma_part_trans(a, b, *input),
            LogicalM::MLPredict { input, model_name, .. } => {
                if is_part(b, *input) {
                    lemma_part_trans(a, b, *input);
                } else {
                    match model_name {
                        GetterM::RunMLClause(retrieval) => lemma_part_trans(a, b, *retrieval),
                        GetterM::MLPredict(_) => {},
                    }
                }
            },
            _ => {},
        }
    }
}

/// Memoizing the unmemoized plan of a part keeps the memo in agreement.
proof fn lemma_agrees_insert(
    stats: DatabaseStats,
    path: Seq<char>,
    ts: Seq<Triple>,
    dict: Seq<Seq<char>>,
    memo: Seq<(Seq<char>, PhysicalM)>,
    op: LogicalM,
    top: LogicalM,
)
    requires
        is_part(op, top),
        keys_coherent(stats, path, ts, dict, top),
        memo_agrees(stats, path, ts, dict, memo, top),
    ensures
        memo_agrees(
            stats,
            path,
            ts,
            dict,
            memo_insert(memo, logical_text(op), unmemoized_plan(stats, path, ts, dict, op)),
            top,
        ),
{
    let key = logical_text(op);
    let p = unmemoized_plan(stats, path, ts, dict, op);
    let n = memo_insert(memo, key, p);
    assert forall|i: int, s: LogicalM|
        0 <= i < n.len() && is_part(s, top) && n[i].0 == logical_text(s) implies n[i].1 == unmemoized_plan(
        stats,
        path,
        ts,
        dict,
        s,
    ) by {
        if n[i] == (key, p) {
            assert(is_part(op, top) && is_part(s, top));
        } else {
            assert(i < memo.len() && n[i] == memo[i]);
            assert(memo[i].0 == logical_text(s));
        }
    }
}

/// The memoized search finds the unmemoized plan of each part and keeps the
/// memo in agreement.
proof fn lemma_search_unmemoized(
    stats: DatabaseStats,
    path: Seq<char>,
    ts: Seq<Triple>,
    dict: Seq<Seq<char>>,
    memo: Seq<(Seq<char>, PhysicalM)>,
    op: LogicalM,
    top: LogicalM,
)
    requires
        is_part(op, top),
        keys_coherent(stats, path, ts, dict, top),
        memo_agrees(stats, path, ts, dict, memo, top),
    ensures
        plan_search(stats, path, ts, dict, memo, op).0 == unmemoized_plan(stats, path, ts, dict, op),
        memo_agrees(stats, path, ts, dict, plan_search(stats, path, ts, dict, memo, op).1, top),
    decreases op, 1nat,
{
    let key = logical_text(op);
    match memo_lookup(memo, key) {
        Some(p) => {
            let i = choose|i: int| 0 <= i < memo.len() && memo[i].0 == key;
            assert(memo[i].0 == logical_text(op) && is_part(op, top));
        },
        None => match star_shortcut(op) {
            Some(p) => lemma_agrees_insert(stats, path, ts, dict, memo, op, top),
            None => {
                lemma_candidate_unmemoized(stats, path, ts, dict, memo, op, top);
                let m = candidate_search(stats, path, ts, dict, memo, op).1;
                lemma_agrees_insert(stats, path, ts, dict, m, op, top);
            },
        },
    }
}

/// The candidate search builds the unmemoized candidate and keeps the memo in
/// agreement.
proof fn lemma_candidate_unmemoized(
    stats: DatabaseStats,
    path: Seq<char>,
    ts: Seq<Triple>,
    dict: Seq<Seq<char>>,
    memo: Seq<(Seq<char>, PhysicalM)>,
    op: LogicalM,
    top: LogicalM,
)
    requires
        is_part(op, top),
        keys_coherent(stats, path, ts, dict, top),
        memo_agrees(stats, path, ts, dict, memo, top),
    ensures
        candidate_search(stats, path, ts, dict, memo, op).0 == unmemoized_candidate(stats, path, ts, dict, op),
        memo_agrees(stats, path, ts, dict, candidate_search(stats, path, ts, dict, memo, op).1, top),
    decreases op, 0nat,
{
    match op {
        LogicalM::Selection { predicate, .. } => {
            assert(is_part(*predicate, *predicate));
            lemma_part_trans(*predicate, op, top);
            lemma_search_unmemoized(stats, path, ts, dict, memo, *predicate, top);
        },
        LogicalM::Projection { predicate, .. } => {
            assert(is_part(*predicate, *predicate));
            lemma_part_trans(*predicate, op, top);
            lemma_search_unmemoized(stats, path, ts, dict, memo, *predicate, top);
        },
        LogicalM::Join { left, right } => {
            assert(is_part(*left, *left));
            lemma_part_trans(*left, op, top);
            assert(is_part(*right, *right));
            lemma_part_trans(*right, op, top);
            if logical_cost(stats, *left) <= logical_cost(stats, *right) {
                lemma_search_unmemoized(stats, path, ts, dict, memo, *left, top);
                let m1 = plan_search(stats, path, ts, dict, memo, *left).1;
                lemma_search_unmemoized(stats, path, ts, dict, m1, *right, top);
            } else {
                lemma_search_unmemoized(stats, path, ts, dict, memo, *right, top);
                let m1 = plan_search(stats, path, ts, dict, memo, *right).1;
                lemma_search_unmemoized(stats, path, ts, dict, m1, *left, top);
            }
        },
        LogicalM::Subquery { inner, .. } => {
            assert(is_part(*inner, *inner));
            lemma_part_trans(*inner, op, top);
            lemma_search_unmemoized(stats, path, ts, dict, memo, *inner, top);
        },
        LogicalM::Bind { input, .. } => {
            assert(is_part(*input, *input));
            lemma_part_trans(*input, op, top);
            lemma_search_unmemoized(stats, path, ts, dict, memo, *input, top);
        },
        LogicalM::MLPredict { input, model_name, .. } => {
            assert(is_part(*input, *input));
            lemma_part_trans(*input, op, top);
            lemma_search_unmemoized(stats, path, ts, dict, memo, *input, top);
            match model_name {
                GetterM::RunMLClause(retrieval) => {
                    assert(is_part(*retrieval, *retrieval));
                    lemma_part_trans(*retrieval, op, top);
                    let m1 = plan_search(stats, path, ts, dict, memo, *input).1;
                    lemma_search_unmemoized(stats, path, ts, dict, m1, *retrieval, top);
                },
                GetterM::MLPredict(_) => {},
            }
        },
        _ => {},
    }
}

/// The memo only saves work: when parts of the plan that share a memo key
/// have one unmemoized plan, and the memo holds no other plan under their
/// keys, the search finds the plan that a search without any memo finds, so
/// the same plan as a search that starts from an empty memo.
pub proof fn lemma_memo_only_caches(
    stats: DatabaseStats,
    path: Seq<char>,
    ts: Seq<Triple>,
    dict: Seq<Seq<char>>,
    memo: Seq<(Seq<char>, PhysicalM)>,
    op: LogicalM,
)
    requires
        keys_coherent(stats, path, ts, dict, op),
        memo_agrees(stats, path, ts, dict, memo, op),
    ensures
        plan_search(stats, path, ts, dict, memo, op).0 == unmemoized_plan(stats, path, ts, dict, op),
        plan_search(stats, path, ts, dict, Seq::empty(), op).0 == plan_search(
            stats,
            path,
            ts,
            dict,
            memo,
            op,
        ).0,
{
    lemma_search_unmemoized(stats, path, ts, dict, memo, op, op);
    lemma_search_unmemoized(stats, path, ts, dict, Seq::empty(), op, op);
}

/// The candidate chosen is one of the candidates, and none costs less.
pub proof fn lemma_cheapest_is_least(stats: DatabaseStats, cands: Seq<PhysicalM>)
    requires
        cands.len() >= 1,
    ensures
        cands.contains(cheapest(stats, cands)),
        forall|i: int| 0 <= i < cands.len() ==> physical_cost(stats, cheapest(stats, cands)) <= physical_cost(
            stats,
            #[trigger] cands[i],
        ),
    decreases cands.len(),
{
    if cands.len() > 1 {
        let d = cands.drop_last();
        lemma_cheapest_is_least(stats, d);
        let m = cheapest(stats, d);
        assert(cands[cands.len() - 1] == cands.last());
        if physical_cost(stats, cands.last()) < physical_cost(stats, m) {
            assert forall|i: int| 0 <= i < cands.len() implies physical_cost(stats, cheapest(stats, cands))
                <= physical_cost(stats, #[trigger] cands[i]) by {
                if i < d.len() {
                    assert(cands[i] == d[i]);
                }
            }
        } else {
            let w = choose|w: int| 0 <= w < d.len() && d[w] == m;
            assert(cands[w] == m);
            assert forall|i: int| 0 <= i < cands.len() implies physical_cost(stats, cheapest(stats, cands))
                <= physical_cost(stats, #[trigger] cands[i]) by {
                if i < d.len() {
                    assert(cands[i] == d[i]);
                }
            }
        }
    } else {
        assert(cands[0] == cheapest(stats, cands));
    }
}

/// Whether a star-join plan scans a pattern: in a scan, in its star join, or
/// on either side of a parallel join.
pub open spec fn plan_scans(plan: PhysicalM, q: PatternM) -> bool
    decreases plan,
{
    match plan {
        PhysicalM::TableScan { pattern } => pattern == q,
        PhysicalM::IndexScan { pattern } => pattern == q,
        PhysicalM::StarJoin { patterns, .. } => patterns.contains(q),
        PhysicalM::ParallelJoin { left, right } => plan_scans(*left, q) || plan_scans(*right, q),
        _ => false,
    }
}

proof fn lemma_chain_scans_scans(base: PhysicalM, ps: Seq<PatternM>, q: PatternM)
    ensures
        plan_scans(chain_scans(base, ps), q) <==> plan_scans(base, q) || ps.contains(q),
    decreases ps.len(),
{
    if ps.len() > 0 {
        lemma_chain_scans_scans(base, ps.drop_last(), q);
        let prev = chain_scans(base, ps.drop_last());
        let scan = PhysicalM::IndexScan { pattern: ps.last() };
        assert(chain_scans(base, ps) == PhysicalM::ParallelJoin { left: Box::new(prev), right: Box::new(scan) });
        assert(plan_scans(scan, q) == (ps.last() == q));
        assert(plan_scans(chain_scans(base, ps), q) == (plan_scans(prev, q) || plan_scans(scan, q)));
        if ps.drop_last().contains(q) {
            let w = choose|w: int| 0 <= w < ps.drop_last().len() && ps.drop_last()[w] == q;
            assert(ps[w] == q);
        }
        if ps.contains(q) {
            let w = choose|w: int| 0 <= w < ps.len() && ps[w] == q;
            if w < ps.len() - 1 {
                assert(ps.drop_last()[w] == q);
            } else {
                assert(ps.last() == q);
            }
        }
        if ps.last() == q {
            assert(ps[ps.len() - 1] == q);
        }
    }
}

proof fn lemma_chain_stars_scans(base: PhysicalM, stars: Seq<StarM>, q: PatternM)
    ensures
        plan_scans(chain_stars(base, stars), q) <==> plan_scans(base, q) || star_patterns(stars).contains(q),
    decreases stars.len(),
{
    if stars.len() > 0 {
        lemma_chain_stars_scans(base, stars.drop_last(), q);
        lemma_chain_scans_scans(chain_stars(base, stars.drop_last()), stars.last().1, q);
        lemma_concat_contains(star_patterns(stars.drop_last()), stars.last().1, q);
    }
}

/// A concatenation holds what either part holds.
proof fn lemma_concat_contains(a: Seq<PatternM>, b: Seq<PatternM>, q: PatternM)
    ensures
        (a + b).contains(q) <==> a.contains(q) || b.contains(q),
{
    if a.contains(q) {
        let w = choose|w: int| 0 <= w < a.len() && a[w] == q;
        assert((a + b)[w] == q);
    }
    if b.contains(q) {
        let w = choose|w: int| 0 <= w < b.len() && b[w] == q;
        assert((a + b)[a.len() + w] == q);
    }
    if (a + b).contains(q) {
        let w = choose|w: int| 0 <= w < (a + b).len() && (a + b)[w] == q;
        if w < a.len() {
            assert(a[w] == q);
        } else {
            assert(b[w - a.len()] == q);
        }
    }
}

proof fn lemma_chain_unused_scans(base: PhysicalM, all: Seq<PatternM>, used: Set<int>, n: nat, q: PatternM)
    requires
        n <= all.len(),
    ensures
        plan_scans(base, q) ==> plan_scans(chain_unused(base, all, used, n), q),
        forall|i: int| 0 <= i < n && !used.contains(i) ==> plan_scans(chain_unused(base, all, used, n), #[trigger] all[i]),
    decreases n,
{
    if n > 0 {
        let prev = chain_unused(base, all, used, (n - 1) as nat);
        lemma_chain_unused_scans(base, all, used, (n - 1) as nat, q);
        assert forall|i: int| 0 <= i < n && !used.contains(i) implies plan_scans(
            chain_unused(base, all, used, n),
            #[trigger] all[i],
        ) by {
            lemma_chain_unused_scans(base, all, used, (n - 1) as nat, all[i]);
            if i < n - 1 {
                assert(plan_scans(prev, all[i]));
            }
            if !used.contains(n - 1) {
                let scan = PhysicalM::IndexScan { pattern: all[n - 1] };
                assert(chain_unused(base, all, used, n) == PhysicalM::ParallelJoin {
                    left: Box::new(prev),
                    right: Box::new(scan),
                });
                assert(plan_scans(scan, all[n - 1]));
            }
        }
    }
}

/// The patterns of the stars split into those of the first star and the rest.
proof fn lemma_star_patterns_first(s: Seq<StarM>, q: PatternM)
    requires
        s.len() >= 1,
    ensures
        star_patterns(s).contains(q) <==> s[0].1.contains(q) || star_patterns(s.drop_first()).contains(q),
    decreases s.len(),
{
    if s.len() == 1 {
        assert(s.drop_first() =~= Seq::<StarM>::empty());
        assert(s.drop_last() =~= Seq::<StarM>::empty());
        assert(s.last() == s[0]);
        assert(star_patterns(Seq::<StarM>::empty()) == Seq::<PatternM>::empty());
        assert(star_patterns(s) =~= Seq::<PatternM>::empty() + s[0].1);
        assert(star_patterns(s) =~= s[0].1);
    } else {
        let d = s.drop_last();
        lemma_star_patterns_first(d, q);
        assert(d[0] == s[0]);
        assert(d.drop_first() =~= s.drop_first().drop_last());
        assert(s.drop_first().last() == s.last());
        lemma_concat_contains(star_patterns(d), s.last().1, q);
        lemma_concat_contains(star_patterns(s.drop_first().drop_last()), s.drop_first().last().1, q);
    }
}

proof fn lemma_insert_patterns(t: Seq<StarM>, x: StarM, q: PatternM)
    ensures
        star_patterns(insert_by_key(t, x)).contains(q) <==> star_patterns(t).contains(q) || x.1.contains(q),
    decreases t.len(),
{
    if t.len() == 0 {
        assert(seq![x].drop_last() =~= Seq::<StarM>::empty());
        assert(seq![x].last() == x);
        assert(star_patterns(Seq::<StarM>::empty()) == Seq::<PatternM>::empty());
        assert(insert_by_key(t, x) == seq![x]);
        assert(star_patterns(seq![x]) == star_patterns(Seq::<StarM>::empty()) + x.1);
        lemma_concat_contains(Seq::empty(), x.1, q);
    } else if star_key(t.last()) >= star_key(x) {
        assert(t.push(x).drop_last() =~= t);
        assert(t.push(x).last() == x);
        lemma_concat_contains(star_patterns(t), x.1, q);
    } else {
        let u = insert_by_key(t.drop_last(), x);
        lemma_insert_patterns(t.drop_last(), x, q);
        assert(u.push(t.last()).drop_last() =~= u);
        assert(u.push(t.last()).last() == t.last());
        lemma_concat_contains(star_patterns(u), t.last().1, q);
        lemma_concat_contains(star_patterns(t.drop_last()), t.last().1, q);
    }
}

/// Sorting the stars keeps their patterns.
proof fn lemma_sorted_patterns(s: Seq<StarM>, q: PatternM)
    ensures
        star_patterns(sorted_by_key(s)).contains(q) <==> star_patterns(s).contains(q),
    decreases s.len(),
{
    if s.len() > 0 {
        lemma_sorted_patterns(s.drop_last(), q);
        lemma_insert_patterns(sorted_by_key(s.drop_last()), s.last(), q);
        lemma_concat_contains(star_patterns(s.drop_last()), s.last().1, q);
    }
}

/// A star-join plan built from stars scans every pattern of the plan it was
/// built for: those of the stars in its star join and index scans, the others
/// in index scans of their own.
pub proof fn lemma_star_join_covers(stars: Seq<StarM>, all: Seq<PatternM>, i: int)
    requires
        stars.len() >= 1,
        0 <= i < all.len(),
    ensures
        plan_scans(star_join_plan(stars, all), all[i]),
{
    let sorted = sorted_by_key(stars);
    lemma_sorted_len(stars);
    let q = all[i];
    let base = PhysicalM::StarJoin { join_var: sorted[0].0, patterns: sorted[0].1 };
    let used = marks(all, star_patterns(stars));
    let chained = chain_stars(base, sorted.drop_first());
    lemma_chain_unused_scans(chained, all, used, all.len(), q);
    if used.contains(i) {
        reveal(marks);
        let flat = star_patterns(stars);
        let k = choose|k: int| 0 <= k < flat.len() && first_pos(all, flat[k]) == Some(i);
        lemma_first_pos_bound(all, flat[k]);
        assert(flat.contains(q));
        lemma_sorted_patterns(stars, q);
        lemma_star_patterns_first(sorted, q);
        lemma_chain_stars_scans(base, sorted.drop_first(), q);
    }
}

} // verus!
