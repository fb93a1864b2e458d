use lib::database::SparqlDatabase;
use lib::dictionary::PrefixMap;
use lib::optimizer::Streamertail;
use lib::plan::resolve_with_prefixes;
use lib::terms::{count_bound_terms, pattern_contains_variable, Term};

fn create_test_optimizer() -> Streamertail {
    let database = SparqlDatabase::new();
    Streamertail::new(&database)
}

#[test]
fn test_count_bound_variables_all_vars() {
    let optimizer = create_test_optimizer();
    let pattern = (
        Term::Variable("s".to_string()),
        Term::Variable("p".to_string()),
        Term::Variable("o".to_string()),
    );
    assert_eq!(optimizer.count_bound_variables(&pattern), 0);
}

#[test]
fn test_count_bound_variables_some_vars() {
    let optimizer = create_test_optimizer();
    let pattern = (
        Term::Constant(1),
        Term::Variable("p".to_string()),
        Term::Variable("o".to_string()),
    );
    assert_eq!(optimizer.count_bound_variables(&pattern), 1);
}

#[test]
fn test_count_bound_variables_no_vars() {
    let optimizer = create_test_optimizer();
    let pattern = (Term::Constant(1), Term::Constant(2), Term::Constant(3));
    assert_eq!(optimizer.count_bound_variables(&pattern), 3);
}

#[test]
fn test_pattern_contains_variable() {
    let pattern = (
        Term::Variable("s".to_string()),
        Term::Constant(1),
        Term::Variable("o".to_string()),
    );

    assert!(pattern_contains_variable(&pattern, "s"));
    assert!(pattern_contains_variable(&pattern, "o"));
    assert!(!pattern_contains_variable(&pattern, "p"));
}

#[test]
fn test_count_bound_terms() {
    let pattern1 = (
        Term::Variable("s".to_string()),
        Term::Variable("p".to_string()),
        Term::Variable("o".to_string()),
    );
    assert_eq!(count_bound_terms(&pattern1), 0);

    let pattern2 = (
        Term::Constant(1),
        Term::Variable("p".to_string()),
        Term::Constant(2),
    );
    assert_eq!(count_bound_terms(&pattern2), 2);

    let pattern3 = (Term::Constant(1), Term::Constant(2), Term::Constant(3));
    assert_eq!(count_bound_terms(&pattern3), 3);
}

#[test]
fn test_resolve_with_prefixes() {
    let mut prefixes = PrefixMap::new();
    prefixes.insert("ex".to_string(), "http://example.org/".to_string());

    let resolved = resolve_with_prefixes("ex:test", &prefixes);
    assert_eq!(resolved, "http://example.org/test");

    let unresolved = resolve_with_prefixes("http://other.org/test", &prefixes);
    assert_eq!(unresolved, "http://other.org/test");
}

#[test]
fn cached_stats_and_selected_variables() {
    let mut database = SparqlDatabase::new();
    database.add_triple(lib::terms::Triple { subject: 1, predicate: 2, object: 3 });
    database.set_prefixes(PrefixMap::new());
    let stats = std::sync::Arc::new(lib::database::DatabaseStats::gather_stats_fast(&database));
    let mut optimizer = Streamertail::with_cached_stats(stats);
    assert_eq!(optimizer.get_stats().total_triples, 1);
    assert_eq!(optimizer.model_path, "ml/examples/models");
    optimizer.set_selected_variables(vec!["?a".to_string()]);
    assert_eq!(optimizer.selected_variables, vec!["?a".to_string()]);
    assert!(optimizer.memo.is_empty());
}
