use lib::reasoning::{classify_conclusion, Conclusion, ProbabilisticSemiNaiveStrategy, quoted_number_text, resolve_premise_triples, resolve_term, InferenceProgress, ProbInferResult};
use lib::terms::{Term, Triple};

fn t(s: u32, p: u32, o: u32) -> Triple {
    Triple { subject: s, predicate: p, object: o }
}

#[test]
fn premises_resolve_under_binding() {
    let premises = vec![
        (Term::Variable("?x".to_string()), Term::Constant(5), Term::Variable("?y".to_string())),
        (Term::Variable("?x".to_string()), Term::Constant(6), Term::Variable("?z".to_string())),
        (Term::Constant(9), Term::Constant(6), Term::Variable("?y".to_string())),
    ];
    let binding = vec![("?x".to_string(), 1), ("?y".to_string(), 2)];
    // the second premise has an unbound ?z and is left out
    assert_eq!(resolve_premise_triples(&premises, &binding), vec![t(1, 5, 2), t(9, 6, 2)]);
}

#[test]
fn terms_resolve_to_ids() {
    let binding = vec![("?x".to_string(), 7)];
    assert_eq!(resolve_term(&Term::Variable("?x".to_string()), &binding), Some(7));
    assert_eq!(resolve_term(&Term::Variable("?w".to_string()), &binding), None);
    assert_eq!(resolve_term(&Term::Constant(3), &binding), Some(3));
    let quoted = Term::QuotedTriple(Box::new((Term::Constant(1), Term::Constant(2), Term::Constant(3))));
    assert_eq!(resolve_term(&quoted, &binding), None);
}

#[test]
fn rounds_absorb_until_fixpoint() {
    let mut progress = InferenceProgress::new(vec![t(1, 2, 3)]);
    let more = progress.absorb(ProbInferResult {
        new_facts: vec![t(1, 2, 3), t(4, 5, 6), t(4, 5, 6)],
        probability_changed: false,
    });
    assert!(more);
    assert_eq!(progress.facts(), &vec![t(1, 2, 3), t(4, 5, 6)]);
    assert!(progress.absorb(ProbInferResult { new_facts: Vec::new(), probability_changed: true }));
    assert!(!progress.absorb(ProbInferResult { new_facts: Vec::new(), probability_changed: false }));
    assert_eq!(progress.into_inferred(), vec![t(4, 5, 6)]);
}

#[test]
fn quoted_literal_number() {
    assert_eq!(
        quoted_number_text("\"0.7\"^^<http://www.w3.org/2001/XMLSchema#double>"),
        Some("0.7".to_string())
    );
    assert_eq!(quoted_number_text("0.7"), None);
    assert_eq!(quoted_number_text("\"open"), None);
}

#[test]
fn deltas_follow_the_growing_facts() {
    let mut strategy = ProbabilisticSemiNaiveStrategy::new();
    let mut facts = vec![t(1, 1, 1), t(2, 2, 2)];
    assert_eq!(strategy.next_delta(&facts), vec![t(1, 1, 1), t(2, 2, 2)]);
    assert!(strategy.next_delta(&facts).is_empty());
    facts.push(t(3, 3, 3));
    assert_eq!(strategy.next_delta(&facts), vec![t(3, 3, 3)]);
    assert_eq!(strategy.start_idx_for_delta, 3);
}

#[test]
fn conclusions_are_classified() {
    let known = vec![t(1, 1, 1)];
    let mut new_facts = Vec::new();
    assert_eq!(classify_conclusion(&known, &mut new_facts, t(1, 1, 1)), Conclusion::AlreadyKnown);
    assert!(new_facts.is_empty());
    assert_eq!(classify_conclusion(&known, &mut new_facts, t(2, 2, 2)), Conclusion::Fresh);
    assert_eq!(new_facts, vec![t(2, 2, 2)]);
    assert_eq!(classify_conclusion(&known, &mut new_facts, t(2, 2, 2)), Conclusion::RederivedThisRound);
    assert_eq!(new_facts, vec![t(2, 2, 2)]);
}
