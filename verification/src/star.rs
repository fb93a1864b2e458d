//! Star-shaped join detection: grouping the patterns of a join tree around
//! variables they share.

use vstd::prelude::*;
use crate::text::str_equal;
use crate::terms::{Term, TermM, TriplePattern, PatternM, copy_pattern, pattern_has_variable};
use crate::ml_clause::is_var;

verus! {

/// Lexicographic order on strings by code point (the order of `String`'s `Ord`).
pub open spec fn seq_lt(a: Seq<char>, b: Seq<char>) -> bool
    decreases a.len(),
{
    if a.len() == 0 {
        b.len() > 0
    } else if b.len() == 0 {
        false
    } else if a[0] != b[0] {
        (a[0] as int) < (b[0] as int)
    } else {
        seq_lt(a.drop_first(), b.drop_first())
    }
}

/// The lexicographic order is irreflexive and transitive, and orders any two
/// distinct strings.
pub proof fn lemma_seq_lt_order(a: Seq<char>, b: Seq<char>, c: Seq<char>)
    ensures
        !seq_lt(a, a),
        seq_lt(a, b) && seq_lt(b, c) ==> seq_lt(a, c),
        a != b ==> seq_lt(a, b) || seq_lt(b, a),
        seq_lt(a, b) ==> !seq_lt(b, a),
    decreases a.len(),
{
    if a.len() > 0 {
        lemma_seq_lt_order(a.drop_first(), a.drop_first(), a.drop_first());
        if b.len() > 0 {
            if c.len() > 0 {
                lemma_seq_lt_order(a.drop_first(), b.drop_first(), c.drop_first());
            } else {
                lemma_seq_lt_order(a.drop_first(), b.drop_first(), b.drop_first());
            }
            if a != b && a[0] == b[0] {
                assert(a.drop_first() != b.drop_first()) by {
                    if a.drop_first() == b.drop_first() {
                        assert(a =~= seq![a[0]] + a.drop_first());
                        assert(b =~= seq![b[0]] + b.drop_first());
                    }
                }
            }
        }
    } else {
        if b.len() == 0 {
            assert(a =~= b);
        }
    }
}

/// Whether `a` comes before `b` character by character.
pub fn str_lt(a: &str, b: &str) -> (r: bool)
    ensures
        r == seq_lt(a@, b@),
{
    let n = a.unicode_len();
    let m = b.unicode_len();
    let mut i: usize = 0;
    assert(a@.skip(0) =~= a@);
    assert(b@.skip(0) =~= b@);
    while i < n && i < m
        invariant
            n == a@.len(),
            m == b@.len(),
            i <= n,
            i <= m,
            seq_lt(a@, b@) == seq_lt(a@.skip(i as int), b@.skip(i as int)),
        decreases n - i,
    {
        let x = a.get_char(i);
        let y = b.get_char(i);
        assert(a@.skip(i as int)[0] == x);
        assert(b@.skip(i as int)[0] == y);
        if x != y {
            return (x as u32) < (y as u32);
        }
        assert(a@.skip(i as int).drop_first() =~= a@.skip(i + 1));
        assert(b@.skip(i as int).drop_first() =~= b@.skip(i + 1));
        i = i + 1;
    }
    i == n && i < m
}

/// The term at flat position `t` (three per pattern, subject first).
pub open spec fn term_at(ps: Seq<PatternM>, t: int) -> TermM {
    let p = ps[t / 3];
    if t % 3 == 0 {
        p.0
    } else if t % 3 == 1 {
        p.1
    } else {
        p.2
    }
}

/// The indices of the patterns among the first `t` positions in which variable
/// `v` occurs, each pattern once, in increasing order.
pub open spec fn occ_upto(ps: Seq<PatternM>, v: Seq<char>, t: nat) -> Seq<nat>
    decreases t,
{
    if t == 0 {
        Seq::empty()
    } else {
        let prev = occ_upto(ps, v, (t - 1) as nat);
        let i = ((t - 1) / 3) as nat;
        if is_var(term_at(ps, t - 1), v) && !(prev.len() > 0 && prev.last() == i) {
            prev.push(i)
        } else {
            prev
        }
    }
}

/// The indices of the patterns in which variable `v` occurs, each once.
pub open spec fn occurrences(ps: Seq<PatternM>, v: Seq<char>) -> Seq<nat> {
    occ_upto(ps, v, 3 * ps.len())
}

/// Star order: variables in more patterns first, then by name.
pub open spec fn star_before(ps: Seq<PatternM>, a: Seq<char>, b: Seq<char>) -> bool {
    occurrences(ps, a).len() > occurrences(ps, b).len() || (occurrences(ps, a).len()
        == occurrences(ps, b).len() && seq_lt(a, b))
}

/// `order` lists each variable that occurs in at least two patterns exactly
/// once, in star order.
pub open spec fn is_star_order(ps: Seq<PatternM>, order: Seq<Seq<char>>) -> bool {
    &&& forall|i: int, j: int| 0 <= i < j < order.len() ==> star_before(ps, order[i], order[j])
    &&& forall|i: int| 0 <= i < order.len() ==> occurrences(ps, #[trigger] order[i]).len() >= 2
    &&& forall|v: Seq<char>| occurrences(ps, v).len() >= 2 ==> order.contains(v)
}

/// Greedy grouping along the star order: a variable that occurs in at least two
/// patterns not yet taken takes those patterns, each once.
pub open spec fn greedy(ps: Seq<PatternM>, order: Seq<Seq<char>>) -> (Set<nat>, Seq<(Seq<char>, Seq<PatternM>)>)
    decreases order.len(),
{
    if order.len() == 0 {
        (Set::empty(), Seq::empty())
    } else {
        let (used, stars) = greedy(ps, order.drop_last());
        let v = order.last();
        let avail = unused(occurrences(ps, v), used);
        if avail.len() >= 2 {
            (used + avail.to_set(), stars.push((v, avail.map_values(|i: nat| ps[i as int]))))
        } else {
            (used, stars)
        }
    }
}

/// The stars of a list of patterns, if there are at least three patterns and
/// some variable gathers two or more of them.
pub open spec fn stars_of(ps: Seq<PatternM>, order: Seq<Seq<char>>) -> Option<Seq<(Seq<char>, Seq<PatternM>)>> {
    if ps.len() < 3 {
        None
    } else if greedy(ps, order).1.len() == 0 {
        None
    } else {
        Some(greedy(ps, order).1)
    }
}

/// The indices of `idxs` not in `used`, in order, repeats kept.
pub open spec fn unused(idxs: Seq<nat>, used: Set<nat>) -> Seq<nat>
    decreases idxs.len(),
{
    if idxs.len() == 0 {
        Seq::empty()
    } else if used.contains(idxs.last()) {
        unused(idxs.drop_last(), used)
    } else {
        unused(idxs.drop_last(), used).push(idxs.last())
    }
}

/// Indices as natural numbers.
pub open spec fn idx_model(v: Seq<usize>) -> Seq<nat> {
    v.map_values(|x: usize| x as nat)
}

/// Occurrence lists only hold indices of patterns.
pub proof fn lemma_occ_bounded(ps: Seq<PatternM>, v: Seq<char>, t: nat)
    requires
        t <= 3 * ps.len(),
    ensures
        forall|k: int| 0 <= k < occ_upto(ps, v, t).len() ==> #[trigger] occ_upto(ps, v, t)[k] < ps.len(),
    decreases t,
{
    if t > 0 {
        lemma_occ_bounded(ps, v, (t - 1) as nat);
        let prev = occ_upto(ps, v, (t - 1) as nat);
        assert((t - 1) / 3 < ps.len());
        if is_var(term_at(ps, t - 1), v) && !(prev.len() > 0 && prev.last() == ((t - 1) / 3) as nat) {
            assert(occ_upto(ps, v, t) == prev.push(((t - 1) / 3) as nat));
            assert forall|k: int| 0 <= k < occ_upto(ps, v, t).len() implies #[trigger] occ_upto(ps, v, t)[k] < ps.len() by {
                if k < prev.len() {
                    assert(occ_upto(ps, v, t)[k] == prev[k]);
                }
            }
        }
    }
}

fn copy_indices(v: &Vec<usize>) -> (r: Vec<usize>)
    ensures
        r@ == v@,
{
    let mut r: Vec<usize> = Vec::new();
    let mut i: usize = 0;
    while i < v.len()
        invariant
            i <= v@.len(),
            r@ == v@.take(i as int),
        decreases v@.len() - i,
    {
        r.push(v[i]);
        assert(v@.take(i + 1) =~= v@.take(i as int).push(v@[i as int]));
        i = i + 1;
    }
    assert(v@.take(v@.len() as int) =~= v@);
    r
}

/// Occurrence lists of the variables among the first `t` positions: one entry
/// per variable met, in order of first occurrence.
pub open spec fn occ_table(ps: Seq<PatternM>, entries: Seq<(String, Vec<usize>)>, t: nat) -> bool {
    &&& forall|i: int, j: int| 0 <= i < j < entries.len() ==> entries[i].0@ != entries[j].0@
    &&& forall|k: int| 0 <= k < entries.len() ==> idx_model(#[trigger] entries[k].1@) == occ_upto(
        ps,
        entries[k].0@,
        t,
    )
    &&& forall|v: Seq<char>| #[trigger] occ_upto(ps, v, t).len() > 0 ==> exists|k: int|
        0 <= k < entries.len() && #[trigger] entries[k].0@ == v
}

/// The term at position `pos` of pattern `idx`.
fn term_at_pos(patterns: &Vec<TriplePattern>, idx: usize, pos: usize) -> (r: &Term)
    requires
        idx < patterns@.len(),
        pos < 3,
    ensures
        r@ == term_at(patterns.deep_view(), 3 * idx + pos),
{
    let p = &patterns[idx];
    assert(patterns.deep_view()[idx as int] == p@);
    assert((3 * idx + pos) / 3 == idx);
    assert((3 * idx + pos) % 3 == pos);
    if pos == 0 {
        &p.0
    } else if pos == 1 {
        &p.1
    } else {
        &p.2
    }
}

/// Records the occurrence at position `pos` of pattern `idx`.
fn record_position(
    entries: &mut Vec<(String, Vec<usize>)>,
    patterns: &Vec<TriplePattern>,
    idx: usize,
    pos: usize,
    Ghost(t): Ghost<nat>,
)
    requires
        idx < patterns@.len(),
        pos < 3,
        t == 3 * idx + pos,
        occ_table(patterns.deep_view(), old(entries)@, t),
    ensures
        occ_table(patterns.deep_view(), final(entries)@, t + 1),
{
    let ghost ps = patterns.deep_view();
    assert((t as int) / 3 == idx);
    let term = term_at_pos(patterns, idx, pos);
    let ghost before = entries@;
    match term {
        Term::Variable(var) => {
            let mut k: usize = 0;
            while k < entries.len() && !str_equal(entries[k].0.as_str(), var.as_str())
                invariant
                    k <= entries@.len(),
                    entries@ == before,
                    forall|m: int| 0 <= m < k ==> entries@[m].0@ != var@,
                decreases entries@.len() - k,
            {
                k = k + 1;
            }
            if k < entries.len() && entries[k].1.len() > 0 && entries[k].1[entries[k].1.len() - 1] == idx {
                proof {
                    let prev = occ_upto(ps, var@, t as nat);
                    assert(idx_model(before[k as int].1@) == prev);
                    assert(prev.last() == idx as nat);
                    assert(before[k as int].0@ == var@);
                    assert forall|m: int| 0 <= m < entries@.len() implies idx_model(#[trigger] entries@[m].1@)
                        == occ_upto(ps, entries@[m].0@, (t + 1) as nat) by {
                        if m != k {
                            assert(!is_var(term_at(ps, t as int), before[m].0@));
                        }
                    }
                    assert forall|v: Seq<char>| #[trigger] occ_upto(ps, v, (t + 1) as nat).len() > 0 implies exists|kk: int|
                        0 <= kk < entries@.len() && #[trigger] entries@[kk].0@ == v by {
                        assert(occ_upto(ps, v, (t + 1) as nat) == occ_upto(ps, v, t as nat));
                        let kk = choose|kk: int| 0 <= kk < before.len() && #[trigger] before[kk].0@ == v;
                        assert(entries@[kk].0@ == v);
                    }
                }
            } else if k < entries.len() {
                let mut list = copy_indices(&entries[k].1);
                list.push(idx);
                let key = entries[k].0.clone();
                entries.set(k, (key, list));
                proof {
                    assert(before[k as int].0@ == var@);
                    assert forall|m: int| 0 <= m < entries@.len() implies idx_model(#[trigger] entries@[m].1@)
                        == occ_upto(ps, entries@[m].0@, (t + 1) as nat) by {
                        if m == k {
                            assert(idx_model(entries@[m].1@) =~= idx_model(before[m].1@).push(idx as nat));
                        } else {
                            assert(entries@[m] == before[m]);
                            assert(!is_var(term_at(ps, t as int), before[m].0@));
                        }
                    }
                    assert forall|v: Seq<char>| #[trigger] occ_upto(ps, v, (t + 1) as nat).len() > 0 implies exists|kk: int|
                        0 <= kk < entries@.len() && #[trigger] entries@[kk].0@ == v by {
                        if v == var@ {
                            assert(entries@[k as int].0@ == v);
                        } else {
                            assert(occ_upto(ps, v, (t + 1) as nat) == occ_upto(ps, v, t as nat));
                            let kk = choose|kk: int| 0 <= kk < before.len() && #[trigger] before[kk].0@ == v;
                            assert(entries@[kk].0@ == v);
                        }
                    }
                }
            } else {
                let list = vec![idx];
                entries.push((var.clone(), list));
                proof {
                    assert(occ_upto(ps, var@, t as nat).len() == 0) by {
                        if occ_upto(ps, var@, t as nat).len() > 0 {
                            let kk = choose|kk: int| 0 <= kk < before.len() && #[trigger] before[kk].0@ == var@;
                        }
                    }
                    assert forall|m: int| 0 <= m < entries@.len() implies idx_model(#[trigger] entries@[m].1@)
                        == occ_upto(ps, entries@[m].0@, (t + 1) as nat) by {
                        if m == before.len() {
                            assert(idx_model(entries@[m].1@) =~= occ_upto(ps, var@, t as nat).push(idx as nat));
                        } else {
                            assert(entries@[m] == before[m]);
                            assert(!is_var(term_at(ps, t as int), before[m].0@));
                        }
                    }
                    assert forall|v: Seq<char>| #[trigger] occ_upto(ps, v, (t + 1) as nat).len() > 0 implies exists|kk: int|
                        0 <= kk < entries@.len() && #[trigger] entries@[kk].0@ == v by {
                        if v == var@ {
                            assert(entries@[before.len() as int].0@ == v);
                        } else {
                            assert(occ_upto(ps, v, (t + 1) as nat) == occ_upto(ps, v, t as nat));
                            let kk = choose|kk: int| 0 <= kk < before.len() && #[trigger] before[kk].0@ == v;
                            assert(entries@[kk].0@ == v);
                        }
                    }
                }
            }
        },
        _ => {
            proof {
                assert forall|m: int| 0 <= m < entries@.len() implies idx_model(#[trigger] entries@[m].1@)
                    == occ_upto(ps, entries@[m].0@, (t + 1) as nat) by {
                    assert(!is_var(term_at(ps, t as int), entries@[m].0@));
                }
                assert forall|v: Seq<char>| #[trigger] occ_upto(ps, v, (t + 1) as nat).len() > 0 implies exists|kk: int|
                    0 <= kk < entries@.len() && #[trigger] entries@[kk].0@ == v by {
                    assert(occ_upto(ps, v, (t + 1) as nat) == occ_upto(ps, v, t as nat));
                }
            }
        },
    }
}

/// Every variable of the patterns with its occurrence list, in order of first occurrence.
fn variable_occurrences(patterns: &Vec<TriplePattern>) -> (r: Vec<(String, Vec<usize>)>)
    ensures
        forall|i: int, j: int| 0 <= i < j < r@.len() ==> r@[i].0@ != r@[j].0@,
        forall|k: int| 0 <= k < r@.len() ==> idx_model(#[trigger] r@[k].1@) == occurrences(
            patterns.deep_view(),
            r@[k].0@,
        ),
        forall|v: Seq<char>| #[trigger] occurrences(patterns.deep_view(), v).len() > 0 ==> exists|k: int|
            0 <= k < r@.len() && #[trigger] r@[k].0@ == v,
{
    let ghost ps = patterns.deep_view();
    let n = patterns.len();
    let mut entries: Vec<(String, Vec<usize>)> = Vec::new();
    let mut idx: usize = 0;
    while idx < n
        invariant
            ps == patterns.deep_view(),
            n == patterns@.len(),
            idx <= n,
            occ_table(ps, entries@, (3 * idx) as nat),
        decreases n - idx,
    {
        let mut pos: usize = 0;
        while pos < 3
            invariant
                ps == patterns.deep_view(),
                idx < n,
                n == patterns@.len(),
                pos <= 3,
                occ_table(ps, entries@, (3 * idx + pos) as nat),
            decreases 3 - pos,
        {
            record_position(&mut entries, patterns, idx, pos, Ghost((3 * idx + pos) as nat));
            pos = pos + 1;
        }
        idx = idx + 1;
    }
    entries
}

/// The star order is a strict total order on distinct variables.
pub proof fn lemma_star_before_order(ps: Seq<PatternM>, a: Seq<char>, b: Seq<char>, c: Seq<char>)
    ensures
        !star_before(ps, a, a),
        star_before(ps, a, b) && star_before(ps, b, c) ==> star_before(ps, a, c),
        a != b ==> star_before(ps, a, b) || star_before(ps, b, a),
        star_before(ps, a, b) ==> !star_before(ps, b, a),
{
    lemma_seq_lt_order(a, b, c);
}

/// Two lists of variables, each strictly in star order, that hold the same
/// variables are the same list.
pub proof fn lemma_sorted_unique(ps: Seq<PatternM>, s1: Seq<Seq<char>>, s2: Seq<Seq<char>>)
    requires
        forall|i: int, j: int| 0 <= i < j < s1.len() ==> star_before(ps, s1[i], s1[j]),
        forall|i: int, j: int| 0 <= i < j < s2.len() ==> star_before(ps, s2[i], s2[j]),
        forall|v: Seq<char>| s1.contains(v) <==> s2.contains(v),
    ensures
        s1 == s2,
    decreases s1.len(),
{
    if s1.len() == 0 {
        if s2.len() > 0 {
            assert(s2.contains(s2[0]));
        }
        assert(s1 =~= s2);
    } else {
        if s2.len() == 0 {
            assert(s1.contains(s1[0]));
        }
        let a = s1[0];
        let b = s2[0];
        if a != b {
            assert(s1.contains(a));
            let j = choose|j: int| 0 <= j < s2.len() && s2[j] == a;
            assert(s2.contains(b));
            let k = choose|k: int| 0 <= k < s1.len() && s1[k] == b;
            lemma_star_before_order(ps, a, b, a);
            assert(star_before(ps, b, a));
            assert(star_before(ps, a, b));
        }
        let t1 = s1.drop_first();
        let t2 = s2.drop_first();
        assert forall|v: Seq<char>| t1.contains(v) <==> t2.contains(v) by {
            if t1.contains(v) {
                let i = choose|i: int| 0 <= i < t1.len() && t1[i] == v;
                assert(s1[i + 1] == v);
                lemma_star_before_order(ps, a, a, a);
                assert(star_before(ps, s1[0], s1[i + 1]));
                assert(s1.contains(v));
                let j = choose|j: int| 0 <= j < s2.len() && s2[j] == v;
                assert(j != 0);
                assert(t2[j - 1] == v);
            }
            if t2.contains(v) {
                let i = choose|i: int| 0 <= i < t2.len() && t2[i] == v;
                assert(s2[i + 1] == v);
                lemma_star_before_order(ps, b, b, b);
                assert(star_before(ps, s2[0], s2[i + 1]));
                assert(s2.contains(v));
                let j = choose|j: int| 0 <= j < s1.len() && s1[j] == v;
                assert(j != 0);
                assert(t1[j - 1] == v);
            }
        }
        assert forall|i: int, j: int| 0 <= i < j < t1.len() implies star_before(ps, t1[i], t1[j]) by {
            assert(star_before(ps, s1[i + 1], s1[j + 1]));
        }
        assert forall|i: int, j: int| 0 <= i < j < t2.len() implies star_before(ps, t2[i], t2[j]) by {
            assert(star_before(ps, s2[i + 1], s2[j + 1]));
        }
        lemma_sorted_unique(ps, t1, t2);
        assert(s1 =~= seq![a] + t1);
        assert(s2 =~= seq![b] + t2);
    }
}

/// There is one star order of the variables of a list of patterns.
pub proof fn lemma_star_order_unique(ps: Seq<PatternM>, o1: Seq<Seq<char>>, o2: Seq<Seq<char>>)
    requires
        is_star_order(ps, o1),
        is_star_order(ps, o2),
    ensures
        o1 == o2,
{
    assert forall|v: Seq<char>| o1.contains(v) <==> o2.contains(v) by {
        if o1.contains(v) {
            let i = choose|i: int| 0 <= i < o1.len() && o1[i] == v;
            assert(occurrences(ps, o1[i]).len() >= 2);
        }
        if o2.contains(v) {
            let i = choose|i: int| 0 <= i < o2.len() && o2[i] == v;
            assert(occurrences(ps, o2[i]).len() >= 2);
        }
    }
    lemma_sorted_unique(ps, o1, o2);
}

/// The star order of the variables of a list of patterns.
pub open spec fn star_order_of(ps: Seq<PatternM>) -> Seq<Seq<char>> {
    choose|o: Seq<Seq<char>>| is_star_order(ps, o)
}

/// The stars of a list of patterns, taken greedily in star order.
pub open spec fn star_query(ps: Seq<PatternM>) -> Option<Seq<(Seq<char>, Seq<PatternM>)>> {
    stars_of(ps, star_order_of(ps))
}

/// Whether `x` goes before `y` in star order (`x`, `y` with their occurrence lists).
fn star_before_exec(x: &(String, Vec<usize>), y: &(String, Vec<usize>)) -> (r: bool)
    ensures
        r == (x.1@.len() > y.1@.len() || (x.1@.len() == y.1@.len() && seq_lt(x.0@, y.0@))),
{
    x.1.len() > y.1.len() || (x.1.len() == y.1.len() && str_lt(x.0.as_str(), y.0.as_str()))
}

/// The names of a list of (name, occurrences) entries.
pub open spec fn entry_names(es: Seq<(String, Vec<usize>)>) -> Seq<Seq<char>> {
    es.map_values(|e: (String, Vec<usize>)| e.0@)
}

/// Entries in strict star order, each with its true occurrence list of length two or more.
pub open spec fn star_sorted(ps: Seq<PatternM>, s: Seq<(String, Vec<usize>)>) -> bool {
    &&& forall|a: int, b: int| 0 <= a < b < s.len() ==> star_before(ps, s[a].0@, s[b].0@)
    &&& forall|k: int| 0 <= k < s.len() ==> idx_model(#[trigger] s[k].1@) == occurrences(ps, s[k].0@)
    &&& forall|k: int| 0 <= k < s.len() ==> occurrences(ps, #[trigger] s[k].0@).len() >= 2
}

/// Inserts an entry at its place in star order.
fn insert_in_star_order(
    sorted: &mut Vec<(String, Vec<usize>)>,
    entry: &(String, Vec<usize>),
    Ghost(ps): Ghost<Seq<PatternM>>,
)
    requires
        star_sorted(ps, old(sorted)@),
        idx_model(entry.1@) == occurrences(ps, entry.0@),
        entry.1@.len() >= 2,
        !entry_names(old(sorted)@).contains(entry.0@),
    ensures
        star_sorted(ps, final(sorted)@),
        forall|v: Seq<char>| #[trigger] entry_names(final(sorted)@).contains(v) <==> (entry_names(
            old(sorted)@,
        ).contains(v) || v == entry.0@),
{
    let ghost before = sorted@;
    let ghost x = entry.0@;
    let mut j: usize = 0;
    let mut found = false;
    while j < sorted.len() && !found
        invariant
            j <= sorted@.len(),
            sorted@ == before,
            star_sorted(ps, before),
            x == entry.0@,
            idx_model(entry.1@) == occurrences(ps, entry.0@),
            forall|m: int| 0 <= m < j ==> !star_before(ps, x, #[trigger] sorted@[m].0@),
            found ==> j < sorted@.len() && star_before(ps, x, sorted@[j as int].0@),
        decreases sorted@.len() - j + (if found { 0int } else { 1int }),
    {
        proof {
            assert(idx_model(sorted@[j as int].1@).len() == sorted@[j as int].1@.len());
            assert(idx_model(entry.1@).len() == entry.1@.len());
        }
        let b = star_before_exec(entry, &sorted[j]);
        proof {
            let y = sorted@[j as int];
            assert(idx_model(y.1@) == occurrences(ps, y.0@));
            assert(occurrences(ps, y.0@).len() == y.1@.len());
            assert(occurrences(ps, x).len() == entry.1@.len());
            assert(b == star_before(ps, x, y.0@));
        }
        if b {
            found = true;
        } else {
            j = j + 1;
        }
    }
    let copy = (entry.0.clone(), copy_indices(&entry.1));
    sorted.insert(j, copy);
    proof {
        assert(sorted@ == before.insert(j as int, sorted@[j as int]));
        assert forall|m: int| 0 <= m < j implies star_before(ps, #[trigger] before[m].0@, x) by {
            assert(!star_before(ps, x, before[m].0@));
            assert(entry_names(before)[m] == before[m].0@);
            lemma_star_before_order(ps, x, before[m].0@, x);
        }
        assert forall|a: int, b: int| 0 <= a < b < sorted@.len() implies star_before(
            ps,
            sorted@[a].0@,
            sorted@[b].0@,
        ) by {
            if b < j {
                assert(sorted@[a] == before[a] && sorted@[b] == before[b]);
            } else if b == j {
                assert(sorted@[a] == before[a]);
            } else if a == j {
                assert(sorted@[b] == before[b - 1]);
                if b - 1 > j {
                    lemma_star_before_order(ps, x, before[j as int].0@, before[b - 1].0@);
                }
            } else if a < j {
                assert(sorted@[a] == before[a] && sorted@[b] == before[b - 1]);
            } else {
                assert(sorted@[a] == before[a - 1] && sorted@[b] == before[b - 1]);
            }
        }
        assert forall|k: int| 0 <= k < sorted@.len() implies idx_model(#[trigger] sorted@[k].1@) == occurrences(
            ps,
            sorted@[k].0@,
        ) by {
            if k < j {
                assert(sorted@[k] == before[k]);
            } else if k > j {
                assert(sorted@[k] == before[k - 1]);
            }
        }
        assert forall|k: int| 0 <= k < sorted@.len() implies occurrences(ps, #[trigger] sorted@[k].0@).len() >= 2 by {
            if k < j {
                assert(sorted@[k] == before[k]);
            } else if k > j {
                assert(sorted@[k] == before[k - 1]);
            }
        }
        assert forall|v: Seq<char>| #[trigger] entry_names(sorted@).contains(v) <==> (entry_names(before).contains(v)
            || v == x) by {
            if entry_names(sorted@).contains(v) {
                let k = choose|k: int| 0 <= k < sorted@.len() && entry_names(sorted@)[k] == v;
                if k < j {
                    assert(sorted@[k] == before[k]);
                    assert(entry_names(before)[k] == v);
                } else if k > j {
                    assert(sorted@[k] == before[k - 1]);
                    assert(entry_names(before)[k - 1] == v);
                }
            }
            if entry_names(before).contains(v) {
                let k = choose|k: int| 0 <= k < before.len() && entry_names(before)[k] == v;
                if k < j {
                    assert(sorted@[k] == before[k]);
                    assert(entry_names(sorted@)[k] == v);
                } else {
                    assert(sorted@[k + 1] == before[k]);
                    assert(entry_names(sorted@)[k + 1] == v);
                }
            }
            if v == x {
                assert(entry_names(sorted@)[j as int] == v);
            }
        }
    }
}

/// The variables that occur in at least two patterns, in star order.
fn star_order(patterns: &Vec<TriplePattern>) -> (r: Vec<(String, Vec<usize>)>)
    ensures
        is_star_order(patterns.deep_view(), entry_names(r@)),
        star_sorted(patterns.deep_view(), r@),
{
    let ghost ps = patterns.deep_view();
    let entries = variable_occurrences(patterns);
    let mut sorted: Vec<(String, Vec<usize>)> = Vec::new();
    let mut i: usize = 0;
    while i < entries.len()
        invariant
            ps == patterns.deep_view(),
            i <= entries@.len(),
            forall|a: int, b: int| 0 <= a < b < entries@.len() ==> entries@[a].0@ != entries@[b].0@,
            forall|k: int| 0 <= k < entries@.len() ==> idx_model(#[trigger] entries@[k].1@) == occurrences(ps, entries@[k].0@),
            star_sorted(ps, sorted@),
            forall|v: Seq<char>| #[trigger] entry_names(sorted@).contains(v) ==> exists|e: int| 0 <= e < i && entries@[e].0@ == v,
            forall|e: int| 0 <= e < i && occurrences(ps, #[trigger] entries@[e].0@).len() >= 2 ==> entry_names(sorted@).contains(entries@[e].0@),
        decreases entries@.len() - i,
    {
        let ghost before = sorted@;
        let entry = &entries[i];
        assert(idx_model(entry.1@).len() == entry.1@.len());
        if entry.1.len() >= 2 {
            proof {
                if entry_names(before).contains(entry.0@) {
                    let e = choose|e: int| 0 <= e < i && entries@[e].0@ == entry.0@;
                }
            }
            insert_in_star_order(&mut sorted, entry, Ghost(ps));
        }
        proof {
            assert forall|v: Seq<char>| #[trigger] entry_names(sorted@).contains(v) implies exists|e: int| 0 <= e < i + 1 && entries@[e].0@ == v by {
                if entry_names(before).contains(v) {
                    let e = choose|e: int| 0 <= e < i && entries@[e].0@ == v;
                } else {
                    assert(entries@[i as int].0@ == v);
                }
            }
        }
        i = i + 1;
    }
    proof {
        let order = entry_names(sorted@);
        assert forall|v: Seq<char>| occurrences(ps, v).len() >= 2 implies order.contains(v) by {
            let e = choose|e: int| 0 <= e < entries@.len() && #[trigger] entries@[e].0@ == v;
        }
        assert forall|a: int, b: int| 0 <= a < b < order.len() implies star_before(ps, order[a], order[b]) by {
            assert(order[a] == sorted@[a].0@ && order[b] == sorted@[b].0@);
        }
        assert forall|k: int| 0 <= k < order.len() implies occurrences(ps, #[trigger] order[k]).len() >= 2 by {
            assert(order[k] == sorted@[k].0@);
        }
    }
    sorted
}

/// Groups the patterns into stars around the variables they share: `None` for
/// fewer than three patterns or when no variable gathers two of them.
pub fn star_groups(patterns: &Vec<TriplePattern>) -> (r: Option<Vec<(String, Vec<TriplePattern>)>>)
    ensures
        match r {
            Some(v) => {
                &&& star_query(patterns.deep_view()) == Some(v.deep_view())
                &&& grouped_by_positions(patterns.deep_view(), v.deep_view(), star_positions(patterns.deep_view()))
                &&& forall|a: int, b: int|
                    0 <= a < b < v@.len() ==> occurrences(patterns.deep_view(), #[trigger] v.deep_view()[a].0).len()
                        >= occurrences(patterns.deep_view(), #[trigger] v.deep_view()[b].0).len()
            },
            None => star_query(patterns.deep_view()) is None,
        },
{
    let ghost ps = patterns.deep_view();
    let n = patterns.len();
    let order = star_order(patterns);
    let ghost names = entry_names(order@);
    if n < 3 {
        return None;
    }
    let mut used: Vec<bool> = Vec::new();
    let mut u: usize = 0;
    while u < n
        invariant
            u <= n,
            used@.len() == u,
            forall|i: int| 0 <= i < u ==> !used@[i],
        decreases n - u,
    {
        used.push(false);
        u = u + 1;
    }
    let mut stars: Vec<(String, Vec<TriplePattern>)> = Vec::new();
    let mut k: usize = 0;
    while k < order.len()
        invariant
            ps == patterns.deep_view(),
            n == patterns@.len(),
            names == entry_names(order@),
            star_sorted(ps, order@),
            k <= order@.len(),
            used@.len() == n,
            forall|i: int| 0 <= i < n ==> used@[i] == greedy(ps, names.take(k as int)).0.contains(i as nat),
            stars.deep_view() == greedy(ps, names.take(k as int)).1,
        decreases order@.len() - k,
    {
        let ghost used_set = greedy(ps, names.take(k as int)).0;
        let ghost v = names[k as int];
        let ghost occ = occurrences(ps, v);
        proof {
            assert(names.take(k + 1).drop_last() =~= names.take(k as int));
            assert(names.take(k + 1).last() == v);
            assert(idx_model(order@[k as int].1@) == occ);
            lemma_occ_bounded(ps, v, 3 * ps.len());
        }
        let idxs = &order[k].1;
        let mut avail: Vec<usize> = Vec::new();
        let mut m: usize = 0;
        while m < idxs.len()
            invariant
                m <= idxs@.len(),
                idx_model(idxs@) == occ,
                used@.len() == n,
                n == ps.len(),
                forall|i: int| 0 <= i < occ.len() ==> #[trigger] occ[i] < ps.len(),
                forall|i: int| 0 <= i < n ==> used@[i] == used_set.contains(i as nat),
                idx_model(avail@) == unused(occ.take(m as int), used_set),
                forall|i: int| 0 <= i < avail@.len() ==> #[trigger] avail@[i] < n,
            decreases idxs@.len() - m,
        {
            let x = idxs[m];
            assert(occ[m as int] == x as nat);
            assert(occ.take(m + 1).drop_last() =~= occ.take(m as int));
            assert(occ.take(m + 1).last() == x as nat);
            if !used[x] {
                avail.push(x);
                assert(idx_model(avail@) =~= unused(occ.take(m as int), used_set).push(x as nat));
            }
            m = m + 1;
        }
        assert(occ.take(idxs@.len() as int) =~= occ);
        let ghost avail_m = idx_model(avail@);
        if avail.len() >= 2 {
            let mut sp: Vec<TriplePattern> = Vec::new();
            let mut q: usize = 0;
            while q < avail.len()
                invariant
                    q <= avail@.len(),
                    avail_m == idx_model(avail@),
                    forall|i: int| 0 <= i < avail@.len() ==> #[trigger] avail@[i] < n,
                    used@.len() == n,
                    n == patterns@.len(),
                    ps == patterns.deep_view(),
                    forall|i: int| 0 <= i < n ==> used@[i] == (used_set + avail_m.take(q as int).to_set()).contains(i as nat),
                    sp.deep_view() == avail_m.take(q as int).map_values(|i: nat| ps[i as int]),
                decreases avail@.len() - q,
            {
                let a = avail[q];
                let ghost before_sp = sp.deep_view();
                sp.push(copy_pattern(&patterns[a]));
                used.set(a, true);
                proof {
                    assert(avail_m.take(q + 1) =~= avail_m.take(q as int).push(a as nat));
                    assert(sp.deep_view() =~= before_sp.push(ps[a as int]));
                    assert(avail_m.take(q + 1).map_values(|i: nat| ps[i as int]) =~= avail_m.take(q as int).map_values(
                        |i: nat| ps[i as int],
                    ).push(ps[a as int]));
                    assert forall|i: int| 0 <= i < n implies used@[i] == (used_set + avail_m.take(q + 1).to_set()).contains(
                        i as nat,
                    ) by {
                        avail_m.take(q as int).lemma_push_to_set_commute(a as nat);
                        assert(avail_m.take(q + 1).to_set() =~= avail_m.take(q as int).to_set().insert(a as nat));
                    }
                }
                q = q + 1;
            }
            assert(avail_m.take(avail@.len() as int) =~= avail_m);
            let ghost before_stars = stars.deep_view();
            stars.push((order[k].0.clone(), sp));
            assert(stars.deep_view() =~= before_stars.push((v, avail_m.map_values(|i: nat| ps[i as int]))));
        }
        k = k + 1;
    }
    assert(names.take(order@.len() as int) =~= names);
    proof {
        assert(is_star_order(ps, names));
        lemma_star_order_unique(ps, star_order_of(ps), names);
        lemma_star_query_grouping(ps);
        lemma_stars_by_occurrences(ps, names);
    }
    if stars.len() == 0 {
        None
    } else {
        Some(stars)
    }
}

/// Indices left unused are among the indices given.
proof fn lemma_unused_bounded(idxs: Seq<nat>, used: Set<nat>, n: nat)
    requires
        forall|j: int| 0 <= j < idxs.len() ==> #[trigger] idxs[j] < n,
    ensures
        forall|k: int| 0 <= k < unused(idxs, used).len() ==> #[trigger] unused(idxs, used)[k] < n,
    decreases idxs.len(),
{
    if idxs.len() > 0 {
        let d = idxs.drop_last();
        assert forall|j: int| 0 <= j < d.len() implies #[trigger] d[j] < n by {
            assert(d[j] == idxs[j]);
        }
        lemma_unused_bounded(d, used, n);
        assert(idxs[idxs.len() - 1] < n);
        let prev = unused(d, used);
        if !used.contains(idxs.last()) {
            assert forall|k: int| 0 <= k < prev.push(idxs.last()).len() implies #[trigger] prev.push(
                idxs.last(),
            )[k] < n by {
                if k < prev.len() {
                    assert(prev.push(idxs.last())[k] == prev[k]);
                }
            }
        }
    }
}

/// Every star of the greedy grouping gathers at least two patterns, each one
/// of the grouped patterns.
proof fn lemma_greedy_stars(ps: Seq<PatternM>, order: Seq<Seq<char>>)
    ensures
        forall|k: int| 0 <= k < greedy(ps, order).1.len() ==> (#[trigger] greedy(ps, order).1[k]).1.len() >= 2,
        forall|k: int, j: int|
            0 <= k < greedy(ps, order).1.len() && 0 <= j < greedy(ps, order).1[k].1.len() ==> ps.contains(
                #[trigger] greedy(ps, order).1[k].1[j],
            ),
    decreases order.len(),
{
    if order.len() > 0 {
        lemma_greedy_stars(ps, order.drop_last());
        let (used, stars) = greedy(ps, order.drop_last());
        let v = order.last();
        let occ = occurrences(ps, v);
        lemma_occ_bounded(ps, v, 3 * ps.len());
        lemma_unused_bounded(occ, used, ps.len());
        let avail = unused(occ, used);
        if avail.len() >= 2 {
            let star = (v, avail.map_values(|i: nat| ps[i as int]));
            let all = stars.push(star);
            assert forall|k: int, j: int| 0 <= k < all.len() && 0 <= j < all[k].1.len() implies ps.contains(
                #[trigger] all[k].1[j],
            ) by {
                if k < stars.len() {
                    assert(all[k] == stars[k]);
                } else {
                    assert(all[k] == star);
                    assert(avail[j] < ps.len());
                    assert(all[k].1[j] == ps[avail[j] as int]);
                }
            }
            assert forall|k: int| 0 <= k < all.len() implies (#[trigger] all[k]).1.len() >= 2 by {
                if k < stars.len() {
                    assert(all[k] == stars[k]);
                }
            }
        }
    }
}

/// A star query needs at least three patterns, and each star it finds gathers
/// at least two of the plan's patterns.
pub proof fn lemma_star_query_stars(ps: Seq<PatternM>)
    ensures
        star_query(ps) is Some ==> ps.len() >= 3,
        star_query(ps) matches Some(stars) ==> stars.len() >= 1 && forall|k: int|
            0 <= k < stars.len() ==> (#[trigger] stars[k]).1.len() >= 2,
        star_query(ps) matches Some(stars) ==> forall|k: int, j: int|
            0 <= k < stars.len() && 0 <= j < stars[k].1.len() ==> ps.contains(#[trigger] stars[k].1[j]),
{
    lemma_greedy_stars(ps, star_order_of(ps));
}

/// An occurrence list is strictly increasing, lists only patterns before
/// position `t`, and each listed pattern holds the variable.
pub proof fn lemma_occ_shape(ps: Seq<PatternM>, v: Seq<char>, t: nat)
    requires
        t <= 3 * ps.len(),
    ensures
        forall|a: int, b: int|
            0 <= a < b < occ_upto(ps, v, t).len() ==> occ_upto(ps, v, t)[a] < occ_upto(ps, v, t)[b],
        forall|a: int| 0 <= a < occ_upto(ps, v, t).len() ==> 3 * #[trigger] occ_upto(ps, v, t)[a] < t,
        forall|a: int|
            0 <= a < occ_upto(ps, v, t).len() ==> pattern_has_variable(
                ps[#[trigger] occ_upto(ps, v, t)[a] as int],
                v,
            ),
    decreases t,
{
    if t > 0 {
        lemma_occ_shape(ps, v, (t - 1) as nat);
        let prev = occ_upto(ps, v, (t - 1) as nat);
        let i = ((t - 1) / 3) as nat;
        let cur = occ_upto(ps, v, t);
        if is_var(term_at(ps, t - 1), v) && !(prev.len() > 0 && prev.last() == i) {
            assert(cur == prev.push(i));
            assert(pattern_has_variable(ps[i as int], v));
            if prev.len() > 0 {
                assert(prev.last() == prev[prev.len() - 1]);
                assert(prev.last() < i);
            }
            assert forall|a: int, b: int| 0 <= a < b < cur.len() implies cur[a] < cur[b] by {
                if b == prev.len() {
                    assert(cur[a] == prev[a]);
                    assert(prev[a] <= prev[prev.len() - 1]);
                } else {
                    assert(cur[a] == prev[a] && cur[b] == prev[b]);
                }
            }
            assert forall|a: int| 0 <= a < cur.len() implies 3 * #[trigger] cur[a] < t by {
                if a < prev.len() {
                    assert(cur[a] == prev[a]);
                }
            }
            assert forall|a: int| 0 <= a < cur.len() implies pattern_has_variable(ps[#[trigger] cur[a] as int], v) by {
                if a < prev.len() {
                    assert(cur[a] == prev[a]);
                }
            }
        }
    }
}

/// The indices left unused of a strictly increasing list are strictly
/// increasing, unused, and from the list.
proof fn lemma_unused_shape(idxs: Seq<nat>, used: Set<nat>)
    requires
        forall|a: int, b: int| 0 <= a < b < idxs.len() ==> idxs[a] < idxs[b],
    ensures
        forall|a: int, b: int|
            0 <= a < b < unused(idxs, used).len() ==> unused(idxs, used)[a] < unused(idxs, used)[b],
        forall|a: int| 0 <= a < unused(idxs, used).len() ==> !used.contains(#[trigger] unused(idxs, used)[a]),
        forall|a: int| 0 <= a < unused(idxs, used).len() ==> idxs.contains(#[trigger] unused(idxs, used)[a]),
    decreases idxs.len(),
{
    if idxs.len() > 0 {
        let d = idxs.drop_last();
        lemma_unused_shape(d, used);
        let u0 = unused(d, used);
        let u = unused(idxs, used);
        assert forall|a: int| 0 <= a < u0.len() implies idxs.contains(#[trigger] u0[a]) && u0[a] < idxs.last() by {
            let w = choose|w: int| 0 <= w < d.len() && d[w] == u0[a];
            assert(idxs[w] == u0[a]);
            assert(idxs[idxs.len() - 1] == idxs.last());
        }
        if !used.contains(idxs.last()) {
            assert(u == u0.push(idxs.last()));
            assert(idxs[idxs.len() - 1] == idxs.last());
            assert forall|a: int, b: int| 0 <= a < b < u.len() implies u[a] < u[b] by {
                assert(u[a] == u0[a]);
                if b < u0.len() {
                    assert(u[b] == u0[b]);
                }
            }
            assert forall|a: int| 0 <= a < u.len() implies !used.contains(#[trigger] u[a]) && idxs.contains(u[a]) by {
                if a < u0.len() {
                    assert(u[a] == u0[a]);
                }
            }
        }
    }
}

/// The pattern indices of each star of the greedy grouping.
pub open spec fn greedy_positions(ps: Seq<PatternM>, order: Seq<Seq<char>>) -> Seq<Seq<nat>>
    decreases order.len(),
{
    if order.len() == 0 {
        Seq::empty()
    } else {
        let prev = greedy_positions(ps, order.drop_last());
        let avail = unused(occurrences(ps, order.last()), greedy(ps, order.drop_last()).0);
        if avail.len() >= 2 {
            prev.push(avail)
        } else {
            prev
        }
    }
}

/// `pos` gives, for each star, the indices of its patterns in `ps`: at least
/// two distinct patterns per star, each holding the star's variable, and no
/// pattern in two stars.
pub open spec fn grouped_by_positions(ps: Seq<PatternM>, stars: Seq<(Seq<char>, Seq<PatternM>)>, pos: Seq<Seq<nat>>) -> bool {
    &&& pos.len() == stars.len()
    &&& forall|k: int| 0 <= k < stars.len() ==> (#[trigger] stars[k]).1 == pos[k].map_values(|i: nat| ps[i as int])
    &&& forall|k: int| 0 <= k < pos.len() ==> (#[trigger] pos[k]).len() >= 2
    &&& forall|k: int, a: int, b: int| 0 <= k < pos.len() && 0 <= a < b < pos[k].len() ==> #[trigger] pos[k][a] < #[trigger] pos[k][b]
    &&& forall|k: int, a: int| 0 <= k < pos.len() && 0 <= a < pos[k].len() ==> #[trigger] pos[k][a] < ps.len()
    &&& forall|k: int, a: int|
        0 <= k < pos.len() && 0 <= a < pos[k].len() ==> pattern_has_variable(ps[#[trigger] pos[k][a] as int], stars[k].0)
    &&& forall|k1: int, k2: int, a: int, b: int|
        0 <= k1 < pos.len() && 0 <= k2 < pos.len() && k1 != k2 && 0 <= a < pos[k1].len() && 0 <= b < pos[k2].len()
            ==> #[trigger] pos[k1][a] != #[trigger] pos[k2][b]
}

/// The greedy grouping groups by positions, and marks every grouped position used.
proof fn lemma_greedy_positions(ps: Seq<PatternM>, order: Seq<Seq<char>>)
    ensures
        grouped_by_positions(ps, greedy(ps, order).1, greedy_positions(ps, order)),
        forall|k: int, a: int|
            0 <= k < greedy_positions(ps, order).len() && 0 <= a < greedy_positions(ps, order)[k].len()
                ==> greedy(ps, order).0.contains(#[trigger] greedy_positions(ps, order)[k][a]),
    decreases order.len(),
{
    if order.len() > 0 {
        let o = order.drop_last();
        lemma_greedy_positions(ps, o);
        let (used, stars) = greedy(ps, o);
        let pos = greedy_positions(ps, o);
        let v = order.last();
        let occ = occurrences(ps, v);
        lemma_occ_shape(ps, v, 3 * ps.len());
        lemma_unused_shape(occ, used);
        let avail = unused(occ, used);
        if avail.len() >= 2 {
            let nstars = stars.push((v, avail.map_values(|i: nat| ps[i as int])));
            let npos = pos.push(avail);
            let nused = used + avail.to_set();
            assert(greedy(ps, order) == (nused, nstars));
            assert forall|a: int| 0 <= a < avail.len() implies #[trigger] avail[a] < ps.len()
                && pattern_has_variable(ps[avail[a] as int], v) by {
                let w = choose|w: int| 0 <= w < occ.len() && occ[w] == avail[a];
                assert(3 * occ[w] < 3 * ps.len());
            }
            assert forall|k: int| 0 <= k < nstars.len() implies (#[trigger] nstars[k]).1 == npos[k].map_values(
                |i: nat| ps[i as int],
            ) by {
                if k < stars.len() {
                    assert(nstars[k] == stars[k] && npos[k] == pos[k]);
                }
            }
            assert forall|k: int| 0 <= k < npos.len() implies (#[trigger] npos[k]).len() >= 2 by {
                if k < pos.len() {
                    assert(npos[k] == pos[k]);
                }
            }
            assert forall|k: int, a: int, b: int| 0 <= k < npos.len() && 0 <= a < b < npos[k].len() implies #[trigger] npos[k][a]
                < #[trigger] npos[k][b] by {
                if k < pos.len() {
                    assert(npos[k] == pos[k]);
                }
            }
            assert forall|k: int, a: int| 0 <= k < npos.len() && 0 <= a < npos[k].len() implies #[trigger] npos[k][a]
                < ps.len() by {
                if k < pos.len() {
                    assert(npos[k] == pos[k]);
                }
            }
            assert forall|k: int, a: int| 0 <= k < npos.len() && 0 <= a < npos[k].len() implies pattern_has_variable(
                ps[#[trigger] npos[k][a] as int],
                nstars[k].0,
            ) by {
                if k < pos.len() {
                    assert(npos[k] == pos[k] && nstars[k] == stars[k]);
                }
            }
            assert forall|k: int, a: int| 0 <= k < npos.len() && 0 <= a < npos[k].len() implies nused.contains(
                #[trigger] npos[k][a],
            ) by {
                if k < pos.len() {
                    assert(npos[k] == pos[k]);
                    assert(used.contains(pos[k][a]));
                } else {
                    assert(avail.contains(avail[a]));
                }
            }
            assert forall|k1: int, k2: int, a: int, b: int|
                0 <= k1 < npos.len() && 0 <= k2 < npos.len() && k1 != k2 && 0 <= a < npos[k1].len() && 0 <= b
                    < npos[k2].len() implies #[trigger] npos[k1][a] != #[trigger] npos[k2][b] by {
                if k1 < pos.len() && k2 < pos.len() {
                    assert(npos[k1] == pos[k1] && npos[k2] == pos[k2]);
                } else if k1 < pos.len() {
                    assert(npos[k1] == pos[k1]);
                    assert(used.contains(pos[k1][a]));
                    assert(!used.contains(avail[b]));
                } else {
                    assert(npos[k2] == pos[k2]);
                    assert(used.contains(pos[k2][b]));
                    assert(!used.contains(avail[a]));
                }
            }
        } else {
            assert(greedy(ps, order) == (used, stars));
        }
    }
}

/// The pattern indices of the stars of a list of patterns.
pub open spec fn star_positions(ps: Seq<PatternM>) -> Seq<Seq<nat>> {
    greedy_positions(ps, star_order_of(ps))
}

/// Each star that a star query finds gathers at least two distinct patterns
/// of the list, each holding the star's variable, and no pattern is in two stars.
pub proof fn lemma_star_query_grouping(ps: Seq<PatternM>)
    ensures
        star_query(ps) matches Some(stars) ==> grouped_by_positions(ps, stars, star_positions(ps)),
{
    lemma_greedy_positions(ps, star_order_of(ps));
}

/// Along a list of variables in strict star order, the greedy grouping takes
/// its stars in that order.
proof fn lemma_greedy_in_order(ps: Seq<PatternM>, order: Seq<Seq<char>>)
    requires
        forall|i: int, j: int| 0 <= i < j < order.len() ==> star_before(ps, order[i], order[j]),
    ensures
        forall|a: int| 0 <= a < greedy(ps, order).1.len() ==> order.contains(#[trigger] greedy(ps, order).1[a].0),
        forall|a: int, b: int|
            0 <= a < b < greedy(ps, order).1.len() ==> star_before(
                ps,
                #[trigger] greedy(ps, order).1[a].0,
                #[trigger] greedy(ps, order).1[b].0,
            ),
    decreases order.len(),
{
    if order.len() > 0 {
        let d = order.drop_last();
        assert forall|i: int, j: int| 0 <= i < j < d.len() implies star_before(ps, d[i], d[j]) by {
            assert(d[i] == order[i] && d[j] == order[j]);
        }
        lemma_greedy_in_order(ps, d);
        let prev = greedy(ps, d).1;
        let cur = greedy(ps, order).1;
        let v = order.last();
        assert forall|a: int| 0 <= a < cur.len() implies order.contains(#[trigger] cur[a].0) by {
            if a < prev.len() {
                assert(cur[a] == prev[a]);
                let i = choose|i: int| 0 <= i < d.len() && d[i] == prev[a].0;
                assert(order[i] == d[i]);
            } else {
                assert(cur[a].0 == v);
                assert(order[order.len() - 1] == v);
            }
        }
        assert forall|a: int, b: int| 0 <= a < b < cur.len() implies star_before(
            ps,
            #[trigger] cur[a].0,
            #[trigger] cur[b].0,
        ) by {
            assert(cur[a] == prev[a]);
            if b < prev.len() {
                assert(cur[b] == prev[b]);
            } else {
                assert(cur[b].0 == v);
                let i = choose|i: int| 0 <= i < d.len() && d[i] == prev[a].0;
                assert(order[i] == d[i]);
                assert(order[order.len() - 1] == v);
            }
        }
    }
}

/// Stars are taken in order of the number of patterns their variables occur
/// in, most first: an earlier star's variable occurs in at least as many
/// patterns as a later one's, and when as many, its name comes first.
pub proof fn lemma_stars_by_occurrences(ps: Seq<PatternM>, order: Seq<Seq<char>>)
    requires
        is_star_order(ps, order),
    ensures
        stars_of(ps, order) matches Some(stars) ==> forall|a: int, b: int|
            0 <= a < b < stars.len() ==> occurrences(ps, #[trigger] stars[a].0).len() >= occurrences(
                ps,
                #[trigger] stars[b].0,
            ).len() && (occurrences(ps, stars[a].0).len() == occurrences(ps, stars[b].0).len() ==> seq_lt(
                stars[a].0,
                stars[b].0,
            )),
{
    lemma_greedy_in_order(ps, order);
}

} // verus!
