//! The rule-application helpers of the probabilistic reasoner: resolving rule
//! premises under a binding, and absorbing the facts that each inference round
//! derives until a fixpoint is reached.

use vstd::prelude::*;
use crate::text::{find_char, substring};
use crate::terms::{Term, TermM, TriplePattern, PatternM, Triple};
use crate::operators::{IdRow, IdRowM};
use crate::execution::{lookup, lookup_id};

verus! {

/// The id a term takes under a binding: a variable's bound id, a constant's
/// own id; a quoted triple has none.
pub open spec fn term_value(t: TermM, binding: IdRowM) -> Option<u32> {
    match t {
        TermM::Variable(v) => lookup(binding, v),
        TermM::Constant(c) => Some(c),
        TermM::QuotedTriple(_) => None,
    }
}

/// The triple a pattern becomes under a binding, if all three terms resolve.
pub open spec fn resolved_triple(p: PatternM, binding: IdRowM) -> Option<Triple> {
    match (term_value(p.0, binding), term_value(p.1, binding), term_value(p.2, binding)) {
        (Some(s), Some(p), Some(o)) => Some(Triple { subject: s, predicate: p, object: o }),
        _ => None,
    }
}

/// The triples of the premises that resolve under a binding, in order.
pub open spec fn resolved_triples(premises: Seq<PatternM>, binding: IdRowM) -> Seq<Triple>
    decreases premises.len(),
{
    if premises.len() == 0 {
        Seq::empty()
    } else {
        let prev = resolved_triples(premises.drop_last(), binding);
        match resolved_triple(premises.last(), binding) {
            Some(t) => prev.push(t),
            None => prev,
        }
    }
}

/// The id a term takes under a binding.
pub fn resolve_term(term: &Term, bindings: &IdRow) -> (r: Option<u32>)
    ensures
        r == term_value(term@, bindings.deep_view()),
{
    match term {
        Term::Variable(v) => lookup_id(bindings, v.as_str()),
        Term::Constant(c) => Some(*c),
        Term::QuotedTriple(_) => None,
    }
}

/// Resolves premise patterns to concrete triples using a binding; patterns
/// with a term that does not resolve are left out.
pub fn resolve_premise_triples(premises: &Vec<TriplePattern>, bindings: &IdRow) -> (r: Vec<Triple>)
    ensures
        r@ == resolved_triples(premises.deep_view(), bindings.deep_view()),
{
    let ghost pm = premises.deep_view();
    let ghost b = bindings.deep_view();
    let mut out: Vec<Triple> = Vec::new();
    let mut i: usize = 0;
    while i < premises.len()
        invariant
            i <= premises@.len(),
            pm == premises.deep_view(),
            b == bindings.deep_view(),
            out@ == resolved_triples(pm.take(i as int), b),
        decreases premises@.len() - i,
    {
        assert(pm.take(i + 1).drop_last() =~= pm.take(i as int));
        assert(pm.take(i + 1).last() == pm[i as int]);
        assert(pm[i as int] == premises@[i as int]@);
        let pat = &premises[i];
        let s = resolve_term(&pat.0, bindings);
        let p = resolve_term(&pat.1, bindings);
        let o = resolve_term(&pat.2, bindings);
        match (s, p, o) {
            (Some(s), Some(p), Some(o)) => {
                out.push(Triple { subject: s, predicate: p, object: o });
            },
            _ => {},
        }
        i = i + 1;
    }
    assert(pm.take(premises@.len() as int) =~= pm);
    out
}

/// Result of a single probabilistic inference round.
pub struct ProbInferResult {
    /// Newly derived triples (not previously known).
    pub new_facts: Vec<Triple>,
    /// Whether any existing triple's probability was updated this round.
    pub probability_changed: bool,
}

/// The facts after a round's derivations are absorbed: each derived fact not
/// yet known is appended, in order.
pub open spec fn absorbed(known: Seq<Triple>, derived: Seq<Triple>) -> Seq<Triple>
    decreases derived.len(),
{
    if derived.len() == 0 {
        known
    } else {
        let k = absorbed(known, derived.drop_last());
        if k.contains(derived.last()) {
            k
        } else {
            k.push(derived.last())
        }
    }
}

/// The state of a materialisation between rounds: every fact known so far,
/// those that inference added coming after position `start`.
pub struct InferenceProgress {
    all_facts: Vec<Triple>,
    start: usize,
}

impl InferenceProgress {
    /// Every fact known so far.
    pub closed spec fn known(&self) -> Seq<Triple> {
        self.all_facts@
    }

    /// Number of facts known before inference began.
    pub closed spec fn start_len(&self) -> nat {
        self.start as nat
    }

    /// The facts known before inference began come first.
    pub closed spec fn wf(&self) -> bool {
        self.start <= self.all_facts@.len()
    }

    /// Starts from the facts of the store.
    pub fn new(initial: Vec<Triple>) -> (p: InferenceProgress)
        ensures
            p.wf(),
            p.known() == initial@,
            p.start_len() == initial@.len(),
    {
        let start = initial.len();
        InferenceProgress { all_facts: initial, start }
    }

    /// Every fact known so far.
    pub fn facts(&self) -> (r: &Vec<Triple>)
        ensures
            r@ == self.known(),
    {
        &self.all_facts
    }

    /// Absorbs the result of one round and says whether another round is
    /// needed: when facts were derived or a probability changed.
    pub fn absorb(&mut self, result: ProbInferResult) -> (more: bool)
        requires
            old(self).wf(),
        ensures
            final(self).wf(),
            final(self).known() == absorbed(old(self).known(), result.new_facts@),
            final(self).start_len() == old(self).start_len(),
            more == (result.new_facts@.len() > 0 || result.probability_changed),
    {
        let has_new_facts = result.new_facts.len() > 0;
        let ghost k0 = self.all_facts@;
        let ghost d = result.new_facts@;
        let ghost s0 = self.start;
        let mut i: usize = 0;
        while i < result.new_facts.len()
            invariant
                i <= d.len(),
                d == result.new_facts@,
                self.start == s0,
                self.start <= self.all_facts@.len(),
                self.all_facts@ == absorbed(k0, d.take(i as int)),
            decreases d.len() - i,
        {
            assert(d.take(i + 1).drop_last() =~= d.take(i as int));
            assert(d.take(i + 1).last() == d[i as int]);
            let fact = result.new_facts[i];
            let known = contains_triple(&self.all_facts, fact);
            if !known {
                self.all_facts.push(fact);
            }
            i = i + 1;
        }
        assert(d.take(d.len() as int) =~= d);
        has_new_facts || result.probability_changed
    }

    /// The facts that inference added, in the order they were derived.
    pub fn into_inferred(self) -> (r: Vec<Triple>)
        requires
            self.wf(),
        ensures
            r@ == self.known().skip(self.start_len() as int),
    {
        let mut all = self.all_facts;
        let inferred = all.split_off(self.start);
        inferred
    }
}

/// Absorbing keeps every fact known before, in place.
pub proof fn lemma_absorbed_keeps(known: Seq<Triple>, derived: Seq<Triple>)
    ensures
        absorbed(known, derived).len() >= known.len(),
        absorbed(known, derived).take(known.len() as int) == known,
    decreases derived.len(),
{
    if derived.len() > 0 {
        lemma_absorbed_keeps(known, derived.drop_last());
        let k = absorbed(known, derived.drop_last());
        assert(k.push(derived.last()).take(known.len() as int) =~= k.take(known.len() as int));
    }
}

/// After absorbing, every derived fact is known, and every known fact was
/// known before or derived.
pub proof fn lemma_absorbed_contents(known: Seq<Triple>, derived: Seq<Triple>, t: Triple)
    ensures
        derived.contains(t) ==> absorbed(known, derived).contains(t),
        absorbed(known, derived).contains(t) ==> known.contains(t) || derived.contains(t),
    decreases derived.len(),
{
    if derived.len() > 0 {
        let d0 = derived.drop_last();
        lemma_absorbed_contents(known, d0, t);
        let k = absorbed(known, d0);
        if derived.contains(t) {
            let i = choose|i: int| 0 <= i < derived.len() && derived[i] == t;
            if i < d0.len() {
                assert(d0[i] == t);
                let w = choose|w: int| 0 <= w < k.len() && k[w] == t;
                assert(k.push(derived.last())[w] == t);
            } else {
                assert(derived.last() == t);
                if !k.contains(t) {
                    assert(k.push(t)[k.len() as int] == t);
                }
            }
        }
        if absorbed(known, derived).contains(t) {
            let a = absorbed(known, derived);
            let w = choose|w: int| 0 <= w < a.len() && a[w] == t;
            if w < k.len() {
                assert(k[w] == t);
                if d0.contains(t) {
                    let i = choose|i: int| 0 <= i < d0.len() && d0[i] == t;
                    assert(derived[i] == t);
                }
            } else {
                assert(derived[derived.len() - 1] == t);
            }
        }
    }
}

/// Absorbing never adds a fact twice, nor a fact already known.
pub proof fn lemma_absorbed_fresh(known: Seq<Triple>, derived: Seq<Triple>)
    ensures
        forall|i: int, j: int|
            0 <= i < j < absorbed(known, derived).len() && j >= known.len() ==> absorbed(known, derived)[i]
                != absorbed(known, derived)[j],
    decreases derived.len(),
{
    if derived.len() > 0 {
        let d0 = derived.drop_last();
        lemma_absorbed_fresh(known, d0);
        lemma_absorbed_keeps(known, d0);
        let k = absorbed(known, d0);
        let a = absorbed(known, derived);
        assert forall|i: int, j: int| 0 <= i < j < a.len() && j >= known.len() implies a[i] != a[j] by {
            if j < k.len() {
                assert(a[i] == k[i] && a[j] == k[j]);
            } else {
                assert(a[j] == derived.last());
                assert(a[i] == k[i]);
                assert(!k.contains(derived.last()));
            }
        }
    }
}

/// A round that derives nothing leaves the facts as they are.
pub proof fn lemma_absorbed_nothing(known: Seq<Triple>)
    ensures
        absorbed(known, Seq::empty()) == known,
{
}

/// The text between the first two double quotes of a literal, such as the
/// number of `"0.7"^^<...double>`.
pub open spec fn quoted_text(s: Seq<char>) -> Option<Seq<char>> {
    match crate::text::first_index_of(s, '"') {
        Some(a) => match crate::text::first_index_of(s.skip(a + 1), '"') {
            Some(b) => Some(s.subrange(a + 1, a + 1 + b)),
            None => None,
        },
        None => None,
    }
}

/// The text between the first two double quotes of a literal.
pub fn quoted_number_text(s: &str) -> (r: Option<String>)
    ensures
        match r {
            Some(t) => quoted_text(s@) == Some(t@),
            None => quoted_text(s@) is None,
        },
{
    match find_char(s, '"') {
        Some(a) => {
            let n = s.unicode_len();
            let rest = substring(s, a + 1, n);
            assert(rest@ =~= s@.skip(a + 1));
            match find_char(rest.as_str(), '"') {
                Some(b) => {
                    let t = substring(s, a + 1, a + 1 + b);
                    Some(t)
                },
                None => None,
            }
        },
        None => None,
    }
}

/// Semi-naive bookkeeping of the probabilistic strategy: where the facts that
/// the next round treats as new (its delta) begin.
pub struct ProbabilisticSemiNaiveStrategy {
    pub start_idx_for_delta: usize,
}

impl ProbabilisticSemiNaiveStrategy {
    /// A strategy whose first delta is every fact.
    pub fn new() -> (s: ProbabilisticSemiNaiveStrategy)
        ensures
            s.start_idx_for_delta == 0,
    {
        ProbabilisticSemiNaiveStrategy { start_idx_for_delta: 0 }
    }

    /// The facts added since the previous round; the next delta starts after them.
    pub fn next_delta(&mut self, all_facts: &Vec<Triple>) -> (delta: Vec<Triple>)
        requires
            old(self).start_idx_for_delta <= all_facts@.len(),
        ensures
            delta@ == all_facts@.subrange(old(self).start_idx_for_delta as int, all_facts@.len() as int),
            final(self).start_idx_for_delta == all_facts@.len(),
    {
        let end_idx = all_facts.len();
        let mut delta: Vec<Triple> = Vec::new();
        let mut i = self.start_idx_for_delta;
        let ghost start = self.start_idx_for_delta;
        while i < end_idx
            invariant
                start <= i <= end_idx,
                end_idx == all_facts@.len(),
                delta@ == all_facts@.subrange(start as int, i as int),
            decreases end_idx - i,
        {
            delta.push(all_facts[i]);
            assert(all_facts@.subrange(start as int, i + 1) =~= all_facts@.subrange(start as int, i as int).push(
                all_facts@[i as int],
            ));
            i = i + 1;
        }
        self.start_idx_for_delta = end_idx;
        delta
    }
}

/// Consecutive deltas over facts that only grow at the end tile them: the
/// delta of one round followed by that of the next is every fact added
/// since the first began, each once.
pub proof fn lemma_deltas_tile(facts: Seq<Triple>, s0: int, s1: int, s2: int)
    requires
        0 <= s0 <= s1 <= s2 <= facts.len(),
    ensures
        facts.subrange(s0, s1) + facts.subrange(s1, s2) == facts.subrange(s0, s2),
{
    assert(facts.subrange(s0, s1) + facts.subrange(s1, s2) =~= facts.subrange(s0, s2));
}

/// How a round meets a conclusion it derives.
#[derive(Debug, PartialEq, Eq, Structural)]
pub enum Conclusion {
    /// Neither known nor derived before in this round: recorded as new.
    Fresh,
    /// Not known, but already derived in this round.
    RederivedThisRound,
    /// Known from earlier rounds.
    AlreadyKnown,
}

/// Classifies a derived fact against the known facts and the facts the round
/// has derived so far, recording it among the latter when it is fresh.
pub fn classify_conclusion(known: &Vec<Triple>, new_facts: &mut Vec<Triple>, fact: Triple) -> (c: Conclusion)
    ensures
        known@.contains(fact) ==> c == Conclusion::AlreadyKnown && final(new_facts)@ == old(new_facts)@,
        !known@.contains(fact) && old(new_facts)@.contains(fact) ==> c == Conclusion::RederivedThisRound
            && final(new_facts)@ == old(new_facts)@,
        !known@.contains(fact) && !old(new_facts)@.contains(fact) ==> c == Conclusion::Fresh && final(new_facts)@
            == old(new_facts)@.push(fact),
{
    let is_new = !contains_triple(known, fact);
    if is_new && !contains_triple(new_facts, fact) {
        new_facts.push(fact);
        Conclusion::Fresh
    } else if is_new {
        Conclusion::RederivedThisRound
    } else {
        Conclusion::AlreadyKnown
    }
}

/// Whether a list of facts holds `fact`.
fn contains_triple(facts: &Vec<Triple>, fact: Triple) -> (r: bool)
    ensures
        r == facts@.contains(fact),
{
    let mut i: usize = 0;
    while i < facts.len()
        invariant
            i <= facts@.len(),
            forall|k: int| 0 <= k < i ==> facts@[k] != fact,
        decreases facts@.len() - i,
    {
        if facts[i] == fact {
            return true;
        }
        i = i + 1;
    }
    false
}

} // verus!
