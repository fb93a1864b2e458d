use lib::database::SparqlDatabase;
use lib::dictionary::{Dictionary, PrefixMap};
use lib::operators::LogicalOperator;
use lib::plan::{build_logical_plan, convert_pattern_to_triple, estimate_operator_selectivity, process_variables};
use lib::query::{Condition, FilterExpression, MLClause};
use lib::terms::Term;

fn var(n: &str) -> Term {
    Term::Variable(n.to_string())
}

fn parsed(variables: &[&str]) -> Vec<(String, String)> {
    let mut selected: Vec<(String, String)> = Vec::new();
    let mut aggregation: Vec<(String, String, String)> = Vec::new();
    let vars = variables.iter().map(|v| ("VAR".to_string(), v.to_string(), None)).collect();
    process_variables(&mut selected, &mut aggregation, vars);
    selected
}

fn triples(ps: &[(&str, &str, &str)]) -> Vec<(String, String, String)> {
    ps.iter().map(|(s, p, o)| (s.to_string(), p.to_string(), o.to_string())).collect()
}

fn scan(s: &str, p: &str, o: &str, prefixes: &PrefixMap, db: &mut SparqlDatabase) -> LogicalOperator {
    LogicalOperator::scan(convert_pattern_to_triple(s, p, o, prefixes, db))
}

const BUILDING: [(&str, &str, &str); 7] = [
    ("?building", "hvac:temperature", "?temp"),
    ("?building", "hvac:humidity", "?humid"),
    ("?building", "hvac:occupancy", "?occ"),
    ("?building", "hvac:sunlight", "?sun"),
    ("?building", "hvac:windSpeed", "?wind"),
    ("?building", "hvac:hour", "?hour"),
    ("?building", "hvac:dayOfWeek", "?day"),
];

const RUN_INPUTS: [&str; 7] = ["?temp", "?humid", "?occ", "?sun", "?wind", "?hour", "?day"];

fn hvac_prefixes() -> PrefixMap {
    let mut prefixes = PrefixMap::new();
    prefixes.insert("hvac".to_string(), "http://example.org#".to_string());
    prefixes.insert("hvac".to_string(), "https://housingass.org/measures".to_string());
    prefixes
}

fn ml_clause() -> MLClause {
    MLClause {
        run: RUN_INPUTS.iter().map(|s| s.to_string()).collect(),
        on: "?r".to_string(),
        to: "?energyPrediction".to_string(),
    }
}

fn building_chain(prefixes: &PrefixMap, database: &mut SparqlDatabase) -> LogicalOperator {
    let mut op = scan(BUILDING[0].0, BUILDING[0].1, BUILDING[0].2, prefixes, database);
    for (s, p, o) in BUILDING.iter().skip(1) {
        op = LogicalOperator::join(op, scan(s, p, o, prefixes, database));
    }
    op
}

#[test]
fn test_ml_logical_plan_creation() {
    let database = &mut SparqlDatabase::new();
    let parsed_prefixes = hvac_prefixes();
    let mut patterns: Vec<(&str, &str, &str)> = BUILDING.to_vec();
    patterns.push(("?x", "hvac:hasValue", "?energyPrediction"));
    patterns.push(("?building", "hvac:madeBy", "hvac:trumptower"));
    let produced_logical_operator = build_logical_plan(
        parsed(&["?building", "?energyPrediction"]),
        triples(&patterns),
        Vec::new(),
        &parsed_prefixes,
        database,
        &Vec::new(),
        None,
        Some(ml_clause()),
    );

    let mut ml_retrieval_logical_op = scan("?r", "rdf:type", "mls:Run", &parsed_prefixes, database);
    ml_retrieval_logical_op =
        LogicalOperator::join(ml_retrieval_logical_op, scan("?r", "mls:hasOutput", "?mlmodel", &parsed_prefixes, database));
    ml_retrieval_logical_op =
        LogicalOperator::join(ml_retrieval_logical_op, scan("?mlmodel", "rdf:type", "mls:Model", &parsed_prefixes, database));
    ml_retrieval_logical_op = LogicalOperator::projection(ml_retrieval_logical_op, vec!["?mlmodel".to_string()]);

    let mut expected_logical_operator = building_chain(&parsed_prefixes, database);
    expected_logical_operator = LogicalOperator::run_ml_clause_lo(
        expected_logical_operator,
        ml_retrieval_logical_op,
        RUN_INPUTS.iter().map(|s| s.to_string()).collect(),
        "?energyPrediction".to_string(),
    );
    expected_logical_operator = LogicalOperator::join(
        expected_logical_operator,
        scan("?x", "hvac:hasValue", "?energyPrediction", &parsed_prefixes, database),
    );
    expected_logical_operator = LogicalOperator::join(
        expected_logical_operator,
        scan("?building", "hvac:madeBy", "hvac:trumptower", &parsed_prefixes, database),
    );
    expected_logical_operator = LogicalOperator::projection(
        expected_logical_operator,
        vec!["?building".to_string(), "?energyPrediction".to_string()],
    );

    assert_eq!(format!("{expected_logical_operator:?}"), format!("{produced_logical_operator:?}"));
}

#[test]
fn test_ml_logical_plan_creation_with_ml() {
    let database = &mut SparqlDatabase::new();
    let parsed_prefixes = hvac_prefixes();
    let mut patterns: Vec<(&str, &str, &str)> = BUILDING.to_vec();
    patterns.push(("?r", "rdf:type", "mls:Run"));
    patterns.push(("?r", "mls:hasOutput", "?ml"));
    patterns.push(("?ml", "rdf:type", "mls:Model"));
    patterns.push(("?x", "hvac:hasValue", "?energyPrediction"));
    patterns.push(("?building", "hvac:madeBy", "hvac:trumptower"));
    let produced_logical_operator = build_logical_plan(
        parsed(&["?building", "?energyPrediction"]),
        triples(&patterns),
        Vec::new(),
        &parsed_prefixes,
        database,
        &Vec::new(),
        None,
        Some(ml_clause()),
    );

    let mut expected_logical_operator = building_chain(&parsed_prefixes, database);
    let mut ml_retrieval_logical_op = expected_logical_operator.duplicate();
    ml_retrieval_logical_op =
        LogicalOperator::join(ml_retrieval_logical_op, scan("?r", "rdf:type", "mls:Run", &parsed_prefixes, database));
    ml_retrieval_logical_op =
        LogicalOperator::join(ml_retrieval_logical_op, scan("?r", "mls:hasOutput", "?ml", &parsed_prefixes, database));
    ml_retrieval_logical_op =
        LogicalOperator::join(ml_retrieval_logical_op, scan("?ml", "rdf:type", "mls:Model", &parsed_prefixes, database));
    ml_retrieval_logical_op = LogicalOperator::projection(ml_retrieval_logical_op, vec!["?ml".to_string()]);

    expected_logical_operator = LogicalOperator::run_ml_clause_lo(
        expected_logical_operator,
        ml_retrieval_logical_op,
        RUN_INPUTS.iter().map(|s| s.to_string()).collect(),
        "?energyPrediction".to_string(),
    );
    for (s, p, o) in [
        ("?r", "rdf:type", "mls:Run"),
        ("?r", "mls:hasOutput", "?ml"),
        ("?ml", "rdf:type", "mls:Model"),
        ("?x", "hvac:hasValue", "?energyPrediction"),
        ("?building", "hvac:madeBy", "hvac:trumptower"),
    ] {
        expected_logical_operator =
            LogicalOperator::join(expected_logical_operator, scan(s, p, o, &parsed_prefixes, database));
    }
    expected_logical_operator = LogicalOperator::projection(
        expected_logical_operator,
        vec!["?building".to_string(), "?energyPrediction".to_string()],
    );

    assert_eq!(format!("{expected_logical_operator:?}"), format!("{produced_logical_operator:?}"));
}

#[test]
fn plan_without_patterns_scans_default_and_filters() {
    let database = &mut SparqlDatabase::new();
    let prefixes = PrefixMap::new();
    let filter = FilterExpression::Comparison("?a".to_string(), ">".to_string(), "1".to_string());
    let plan = build_logical_plan(
        parsed(&["?a"]),
        triples(&[("?a", "ex:p", "?b")]),
        vec![filter],
        &prefixes,
        database,
        &Vec::new(),
        None,
        None,
    );
    let text = format!("{plan:?}");
    assert!(text.starts_with("Projection { predicate: Selection { predicate: Scan"));
    assert_eq!(database.dictionary.len(), 1);
}

#[test]
fn operator_selectivity_ranks() {
    let database = SparqlDatabase::new();
    let all_bound = LogicalOperator::scan((Term::Constant(1), Term::Constant(2), Term::Constant(3)));
    assert_eq!(estimate_operator_selectivity(&all_bound, &database), 1);
    let free = LogicalOperator::scan((var("?a"), var("?b"), var("?c")));
    assert_eq!(estimate_operator_selectivity(&free, &database), 4);
    let sel = LogicalOperator::selection(
        LogicalOperator::scan((var("?a"), Term::Constant(2), var("?c"))),
        Condition::from_filter(FilterExpression::Comparison("?a".to_string(), "=".to_string(), "1".to_string())),
    );
    assert_eq!(estimate_operator_selectivity(&sel, &database), 13);
    let join = LogicalOperator::join(
        LogicalOperator::scan((var("?a"), Term::Constant(2), Term::Constant(3))),
        LogicalOperator::scan((var("?a"), var("?b"), var("?c"))),
    );
    assert_eq!(estimate_operator_selectivity(&join, &database), 2 + 4 + 5);
    let values = LogicalOperator::values(vec!["?x".to_string()], vec![vec![None], vec![None], vec![None]]);
    assert_eq!(estimate_operator_selectivity(&values, &database), 3);
    let run = LogicalOperator::run_ml_clause_lo(
        LogicalOperator::scan((var("?a"), var("?b"), var("?c"))),
        LogicalOperator::scan((var("?m"), var("?p"), var("?q"))),
        vec!["?a".to_string(), "?b".to_string()],
        "?o".to_string(),
    );
    assert_eq!(estimate_operator_selectivity(&run, &database), 4 + 50 + 20);
}

#[test]
fn dictionary_encodes_once_and_decodes() {
    let mut dict = Dictionary::new();
    let a = dict.encode("http://example.org/a");
    let b = dict.encode("http://example.org/b");
    assert_eq!(dict.encode("http://example.org/a"), a);
    assert_ne!(a, b);
    assert_eq!(dict.len(), 2);
    assert_eq!(dict.decode(b).map(|s| s.as_str()), Some("http://example.org/b"));
    assert!(dict.decode(7).is_none());
}

#[test]
fn prefix_insert_overwrites() {
    let mut prefixes = PrefixMap::new();
    prefixes.insert("ex".to_string(), "http://one/".to_string());
    prefixes.insert("ex".to_string(), "http://two/".to_string());
    assert_eq!(prefixes.get("ex").map(|s| s.as_str()), Some("http://two/"));
    assert!(prefixes.get("other").is_none());
}

#[test]
fn subquery_plan_projects_its_variables() {
    let database = &mut SparqlDatabase::new();
    let mut prefixes = PrefixMap::new();
    prefixes.insert("ex".to_string(), "http://example.org/".to_string());
    let sub = lib::query::SubQuery {
        variables: vec![("VAR".to_string(), "?s".to_string(), None)],
        patterns: vec![("?s".to_string(), "ex:p".to_string(), "?o".to_string())],
        filters: Vec::new(),
        binds: Vec::new(),
        ml_run_clause: None,
    };
    let plan = lib::plan::build_logical_plan_from_subquery(&sub, &prefixes, database);
    match &plan {
        LogicalOperator::Subquery { inner, projected_vars } => {
            assert_eq!(projected_vars, &vec!["?s".to_string()]);
            assert!(matches!(**inner, LogicalOperator::Projection { .. }));
        },
        _ => panic!("expected a subquery"),
    }
    assert_eq!(database.dictionary.decode(0).map(|s| s.as_str()), Some("http://example.org/p"));
}
