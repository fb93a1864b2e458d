//! The triple store that plans are built against, and the statistics the
//! cost model reads.

use vstd::prelude::*;
use crate::terms::Triple;
use crate::dictionary::{Dictionary, PrefixMap};

verus! {

/// Encoded triples, the dictionary that encodes their terms, and the query prefixes.
pub struct SparqlDatabase {
    pub triples: Vec<Triple>,
    pub dictionary: Dictionary,
    pub prefixes: PrefixMap,
}

impl SparqlDatabase {
    /// The dictionary and the prefix table are well formed.
    pub open spec fn wf(&self) -> bool {
        self.dictionary.wf() && self.prefixes.wf()
    }

    /// An empty database.
    pub fn new() -> (db: SparqlDatabase)
        ensures
            db.wf(),
            db.triples@.len() == 0,
            db.dictionary@.len() == 0,
            db.prefixes@.len() == 0,
    {
        SparqlDatabase { triples: Vec::new(), dictionary: Dictionary::new(), prefixes: PrefixMap::new() }
    }

    /// Replaces the prefix table.
    pub fn set_prefixes(&mut self, prefixes: PrefixMap)
        ensures
            final(self).prefixes == prefixes,
            final(self).triples == old(self).triples,
            final(self).dictionary == old(self).dictionary,
    {
        self.prefixes = prefixes;
    }

    /// Adds a triple of already-encoded ids.
    pub fn add_triple(&mut self, triple: Triple)
        ensures
            final(self).triples@ == old(self).triples@.push(triple),
            final(self).prefixes == old(self).prefixes,
            final(self).dictionary == old(self).dictionary,
    {
        self.triples.push(triple);
    }
}

/// Parts per million that stand for a selectivity of 1.
pub const PPM: u64 = 1000000;

/// Selectivity of a join whose predicate the statistics do not know (one tenth).
pub const DEFAULT_JOIN_SELECTIVITY_PPM: u64 = 100000;

/// Selectivity the statistics give a filter condition (one half).
pub const DEFAULT_FILTER_SELECTIVITY_PPM: u64 = 500000;

/// How many triples of `ts` have predicate `p`.
pub open spec fn predicate_count(ts: Seq<Triple>, p: u32) -> nat
    decreases ts.len(),
{
    if ts.len() == 0 {
        0
    } else {
        predicate_count(ts.drop_last(), p) + (if ts.last().predicate == p { 1nat } else { 0nat })
    }
}

/// Whether the listed predicates are distinct.
pub open spec fn predicates_distinct(counts: Seq<(u32, u64)>) -> bool {
    forall|i: int, j: int| 0 <= i < j < counts.len() ==> counts[i].0 != counts[j].0
}

/// The count that a list records for a predicate (0 when it records none).
pub open spec fn recorded_count(counts: Seq<(u32, u64)>, p: u32) -> nat
    decreases counts.len(),
{
    if counts.len() == 0 {
        0
    } else if counts.last().0 == p {
        counts.last().1 as nat
    } else {
        recorded_count(counts.drop_last(), p)
    }
}

/// Statistics of a database that the cost model reads.
pub struct DatabaseStats {
    pub total_triples: u64,
    /// Number of triples per predicate id, one entry per predicate.
    pub predicate_counts: Vec<(u32, u64)>,
    /// Fraction of rows, in parts per million, that a filter condition keeps.
    pub filter_selectivity_ppm: u64,
}

impl DatabaseStats {
    /// Statistics of an empty database.
    pub fn new() -> (s: DatabaseStats)
        ensures
            s.total_triples == 0,
            s.predicate_counts@.len() == 0,
            s.filter_selectivity_ppm == DEFAULT_FILTER_SELECTIVITY_PPM,
    {
        DatabaseStats {
            total_triples: 0,
            predicate_counts: Vec::new(),
            filter_selectivity_ppm: DEFAULT_FILTER_SELECTIVITY_PPM,
        }
    }

    /// The counts are consistent with a list of triples.
    pub open spec fn describes(&self, ts: Seq<Triple>) -> bool {
        &&& self.total_triples == ts.len()
        &&& forall|p: u32| #[trigger] recorded_count(self.predicate_counts@, p) == predicate_count(ts, p)
        &&& self.filter_selectivity_ppm == DEFAULT_FILTER_SELECTIVITY_PPM
    }

    /// Counts the triples of the database, in total and per predicate.
    pub fn gather_stats_fast(database: &SparqlDatabase) -> (s: DatabaseStats)
        requires
            database.triples@.len() <= u64::MAX,
        ensures
            s.describes(database.triples@),
            predicates_distinct(s.predicate_counts@),
    {
        let ts = &database.triples;
        let mut counts: Vec<(u32, u64)> = Vec::new();
        let mut i: usize = 0;
        while i < ts.len()
            invariant
                i <= ts@.len(),
                ts@.len() <= u64::MAX,
                forall|p: u32| #[trigger] recorded_count(counts@, p) == predicate_count(
                    ts@.subrange(0, i as int),
                    p,
                ),
                forall|k: int| 0 <= k < counts@.len() ==> counts@[k].1 <= i,
                predicates_distinct(counts@),
            decreases ts@.len() - i,
        {
            let p = ts[i].predicate;
            let ghost before = counts@;
            let ghost prefix = ts@.subrange(0, i as int);
            let ghost next = ts@.subrange(0, i + 1);
            assert(next.drop_last() =~= prefix);
            assert(next.last() == ts@[i as int]);
            let mut k: usize = 0;
            while k < counts.len() && counts[k].0 != p
                invariant
                    k <= counts@.len(),
                    counts@ == before,
                    forall|m: int| 0 <= m < k ==> counts@[m].0 != p,
                decreases counts@.len() - k,
            {
                k = k + 1;
            }
            let found = k < counts.len();
            if found {
                let c = counts[k].1;
                counts.set(k, (p, c + 1));
                proof {
                    assert(before[k as int].0 == p);
                    assert(before[k as int].1 == c);
                    assert(c <= i);
                    lemma_recorded_update(before, k as int);
                    assert(counts@ == before.update(k as int, (before[k as int].0, (before[k as int].1 + 1) as u64)));
                    assert forall|q: u32| #[trigger] recorded_count(counts@, q) == predicate_count(next, q) by {
                        assert(predicate_count(next, q) == predicate_count(prefix, q) + (if q == p { 1nat } else { 0nat }));
                        assert(recorded_count(before, q) == predicate_count(prefix, q));
                        assert(recorded_count(before.update(k as int, (before[k as int].0, (before[k as int].1 + 1) as u64)), q)
                            == recorded_count(before, q) + (if q == before[k as int].0 { 1nat } else { 0nat }));
                    }
                    assert(predicates_distinct(counts@));
                }
            } else {
                counts.push((p, 1));
                proof {
                    assert(counts@.drop_last() =~= before);
                    assert forall|q: u32| #[trigger] recorded_count(counts@, q) == predicate_count(next, q) by {
                        lemma_recorded_absent(before, p);
                        assert(predicate_count(next, q) == predicate_count(prefix, q) + (if q == p { 1nat } else { 0nat }));
                        assert(recorded_count(before, q) == predicate_count(prefix, q));
                        assert(counts@.last() == (p, 1u64));
                        if q != p {
                            assert(recorded_count(counts@, q) == recorded_count(counts@.drop_last(), q));
                        }
                    }
                    assert(predicates_distinct(counts@));
                }
            }
            i = i + 1;
        }
        assert(ts@.subrange(0, ts@.len() as int) =~= ts@);
        DatabaseStats {
            total_triples: ts.len() as u64,
            predicate_counts: counts,
            filter_selectivity_ppm: DEFAULT_FILTER_SELECTIVITY_PPM,
        }
    }
}

/// Adding one to the count of an entry adds one to what it records for its predicate.
pub proof fn lemma_recorded_update(counts: Seq<(u32, u64)>, k: int)
    requires
        predicates_distinct(counts),
        0 <= k < counts.len(),
        counts[k].1 < u64::MAX,
    ensures
        recorded_count(counts, counts[k].0) == counts[k].1,
        forall|q: u32| #[trigger] recorded_count(counts.update(k, (counts[k].0, (counts[k].1 + 1) as u64)), q)
            == recorded_count(counts, q) + (if q == counts[k].0 { 1nat } else { 0nat }),
    decreases counts.len(),
{
    let p = counts[k].0;
    let v = (p, (counts[k].1 + 1) as u64);
    let up = counts.update(k, v);
    if k == counts.len() - 1 {
        assert(up.drop_last() =~= counts.drop_last());
        assert(up.last() == v);
        assert forall|q: u32| #[trigger] recorded_count(up, q) == recorded_count(counts, q) + (if q == p { 1nat } else { 0nat }) by {
            if q != p {
                assert(recorded_count(up, q) == recorded_count(up.drop_last(), q));
                assert(recorded_count(counts, q) == recorded_count(counts.drop_last(), q));
            }
        }
    } else {
        let d = counts.drop_last();
        assert(predicates_distinct(d));
        lemma_recorded_update(d, k);
        assert(up.drop_last() =~= d.update(k, v));
        assert(counts.last().0 != p);
        assert(up.last() == counts.last());
        assert forall|q: u32| #[trigger] recorded_count(up, q) == recorded_count(counts, q) + (if q == p { 1nat } else { 0nat }) by {
            if counts.last().0 != q {
                assert(recorded_count(up, q) == recorded_count(up.drop_last(), q));
                assert(recorded_count(counts, q) == recorded_count(d, q));
                assert(recorded_count(up.drop_last(), q) == recorded_count(d, q) + (if q == p { 1nat } else { 0nat }));
            }
        }
    }
}

/// A recorded count fits in a `u64`.
pub proof fn lemma_recorded_bounded(counts: Seq<(u32, u64)>, p: u32)
    ensures
        recorded_count(counts, p) <= u64::MAX,
    decreases counts.len(),
{
    if counts.len() > 0 {
        lemma_recorded_bounded(counts.drop_last(), p);
    }
}

/// A predicate that no entry names has no recorded count.
pub proof fn lemma_recorded_absent(counts: Seq<(u32, u64)>, p: u32)
    requires
        forall|m: int| 0 <= m < counts.len() ==> counts[m].0 != p,
    ensures
        recorded_count(counts, p) == 0,
    decreases counts.len(),
{
    if counts.len() > 0 {
        lemma_recorded_absent(counts.drop_last(), p);
    }
}

} // verus!
