use lib::database::SparqlDatabase;
use lib::operators::{LogicalOperator, ModelGetter, ModelGetterPhysical, PhysicalOperator};
use lib::optimizer::Streamertail;
use lib::query::{Condition, FilterExpression};
use lib::serialize::serialize_physical_plan;
use lib::terms::{Term, Triple};
use lib::dictionary::PrefixMap;
use lib::execution::execute_with_ids;
use lib::plan::convert_pattern_to_triple;

fn pattern(s: &str, p: u32, o: &str) -> (Term, Term, Term) {
    (Term::Variable(s.to_string()), Term::Constant(p), Term::Variable(o.to_string()))
}

fn machine_db() -> SparqlDatabase {
    let mut db = SparqlDatabase::new();
    // predicates 10, 11, 12 describe machines 1 and 2
    for (s, p, o) in [(1, 10, 100), (1, 11, 101), (1, 12, 102), (2, 10, 103), (2, 11, 104)] {
        db.add_triple(Triple { subject: s, predicate: p, object: o });
    }
    db
}

fn machine_star() -> LogicalOperator {
    let j = LogicalOperator::join(
        LogicalOperator::scan(pattern("?m", 10, "?t")),
        LogicalOperator::scan(pattern("?m", 11, "?h")),
    );
    LogicalOperator::join(j, LogicalOperator::scan(pattern("?m", 12, "?p")))
}

#[test]
fn star_detected_around_shared_variable() {
    let db = machine_db();
    let optimizer = Streamertail::new(&db);
    let stars = optimizer.is_star_query(&machine_star()).expect("a star");
    assert_eq!(stars.len(), 1);
    assert_eq!(stars[0].0, "?m");
    assert_eq!(stars[0].1.len(), 3);
}

#[test]
fn no_star_for_two_patterns_or_no_shared_variable() {
    let db = machine_db();
    let optimizer = Streamertail::new(&db);
    let two = LogicalOperator::join(
        LogicalOperator::scan(pattern("?m", 10, "?t")),
        LogicalOperator::scan(pattern("?m", 11, "?h")),
    );
    assert!(optimizer.is_star_query(&two).is_none());
    let j = LogicalOperator::join(
        LogicalOperator::scan(pattern("?a", 10, "?b")),
        LogicalOperator::scan(pattern("?c", 11, "?d")),
    );
    let unshared = LogicalOperator::join(j, LogicalOperator::scan(pattern("?e", 12, "?f")));
    assert!(optimizer.is_star_query(&unshared).is_none());
}

#[test]
fn star_join_plan_puts_constant_richer_star_first() {
    let db = machine_db();
    let optimizer = Streamertail::new(&db);
    // ?x gathers two patterns with constants, ?y two without
    let stars = vec![
        ("?y".to_string(), vec![
            (Term::Variable("?y".to_string()), Term::Variable("?p".to_string()), Term::Variable("?q".to_string())),
            (Term::Variable("?y".to_string()), Term::Variable("?r".to_string()), Term::Variable("?s".to_string())),
        ]),
        ("?x".to_string(), vec![pattern("?x", 10, "?a"), pattern("?x", 11, "?b")]),
    ];
    let plan = LogicalOperator::scan(pattern("?z", 12, "?w"));
    let built = optimizer.build_star_join_from_patterns(stars, &plan);
    // the ?x star is the star join; ?y's patterns and the unused scan follow as parallel joins
    let mut node = &built;
    let mut joins = 0;
    while let PhysicalOperator::ParallelJoin { left, .. } = node {
        joins += 1;
        node = &**left;
    }
    assert_eq!(joins, 3);
    match node {
        PhysicalOperator::StarJoin { join_var, patterns } => {
            assert_eq!(join_var, "?x");
            assert_eq!(patterns.len(), 2);
        },
        _ => panic!("expected a star join"),
    }
    match &built {
        PhysicalOperator::ParallelJoin { right, .. } => {
            assert_eq!(
                serialize_physical_plan(right),
                "IndexScan((Variable(\"?z\"), Constant(12), Variable(\"?w\")))"
            );
        },
        _ => panic!("expected a parallel join"),
    }
}

#[test]
fn star_join_with_no_stars_scans_everything() {
    let db = machine_db();
    let optimizer = Streamertail::new(&db);
    let built = optimizer.build_star_join_from_patterns(Vec::new(), &machine_star());
    assert_eq!(
        serialize_physical_plan(&built),
        "TableScan((Variable(\"?s\"), Variable(\"?p\"), Variable(\"?o\")))"
    );
}

#[test]
fn best_plan_of_star_is_star_join() {
    let db = machine_db();
    let mut optimizer = Streamertail::new(&db);
    let plan = optimizer.find_best_plan(&machine_star(), &db);
    assert!(serialize_physical_plan(&plan).starts_with("StarJoin(\"?m\""));
}

#[test]
fn best_plan_again_is_same_and_memo_unchanged() {
    let db = machine_db();
    let mut optimizer = Streamertail::new(&db);
    let q = LogicalOperator::projection(
        LogicalOperator::join(
            LogicalOperator::scan(pattern("?a", 10, "?b")),
            LogicalOperator::scan(pattern("?b", 11, "?c")),
        ),
        vec!["?a".to_string()],
    );
    let first = serialize_physical_plan(&optimizer.find_best_plan(&q, &db));
    let memo_len = optimizer.memo.len();
    let second = serialize_physical_plan(&optimizer.find_best_plan(&q, &db));
    assert_eq!(first, second);
    assert_eq!(optimizer.memo.len(), memo_len);
}

#[test]
fn memo_from_earlier_plans_does_not_change_the_choice() {
    let db = machine_db();
    let left = || LogicalOperator::scan(pattern("?a", 10, "?b"));
    let right = || LogicalOperator::scan(pattern("?b", 11, "?c"));
    let q = LogicalOperator::projection(LogicalOperator::join(left(), right()), vec!["?a".to_string()]);
    let mut warmed = Streamertail::new(&db);
    warmed.find_best_plan(&left(), &db);
    warmed.find_best_plan(&LogicalOperator::join(right(), left()), &db);
    assert!(warmed.memo.len() >= 3);
    let mut fresh = Streamertail::new(&db);
    assert_eq!(
        serialize_physical_plan(&warmed.find_best_plan(&q, &db)),
        serialize_physical_plan(&fresh.find_best_plan(&q, &db))
    );
}

#[test]
fn scans_choose_index_or_table() {
    let db = machine_db();
    let mut optimizer = Streamertail::new(&db);
    let bound = optimizer.find_best_plan(&LogicalOperator::scan(pattern("?a", 10, "?b")), &db);
    assert!(matches!(bound, PhysicalOperator::IndexScan { .. }));
    let free = optimizer.find_best_plan(
        &LogicalOperator::scan((
            Term::Variable("?a".to_string()),
            Term::Variable("?b".to_string()),
            Term::Variable("?c".to_string()),
        )),
        &db,
    );
    assert!(matches!(free, PhysicalOperator::TableScan { .. }));
}

#[test]
fn small_join_tie_goes_to_optimized_hash_join() {
    let mut db = SparqlDatabase::new();
    db.add_triple(Triple { subject: 1, predicate: 10, object: 2 });
    db.add_triple(Triple { subject: 2, predicate: 11, object: 3 });
    let mut optimizer = Streamertail::new(&db);
    let q = LogicalOperator::join(
        LogicalOperator::scan(pattern("?a", 10, "?b")),
        LogicalOperator::scan(pattern("?b", 11, "?c")),
    );
    // both index scans cost 1: a hash join costs 1 + 1, a nested loop 1 * 1 + 1 + 1
    let plan = optimizer.find_best_plan(&q, &db);
    assert!(matches!(plan, PhysicalOperator::OptimizedHashJoin { .. }));
}

#[test]
fn larger_join_prefers_optimized_hash_join() {
    let mut db = SparqlDatabase::new();
    for i in 0..3 {
        db.add_triple(Triple { subject: i, predicate: 10, object: i + 1 });
        db.add_triple(Triple { subject: i, predicate: 11, object: i + 2 });
    }
    let mut optimizer = Streamertail::new(&db);
    let q = LogicalOperator::join(
        LogicalOperator::scan(pattern("?a", 10, "?b")),
        LogicalOperator::scan(pattern("?b", 11, "?c")),
    );
    // 3 * 3 > 3 + 3
    let plan = optimizer.find_best_plan(&q, &db);
    assert!(matches!(plan, PhysicalOperator::OptimizedHashJoin { .. }));
}

#[test]
fn selection_and_projection_over_star() {
    let db = machine_db();
    let mut optimizer = Streamertail::new(&db);
    let cond = || Condition::from_filter(FilterExpression::Comparison("?t".to_string(), ">".to_string(), "1".to_string()));
    let sel = LogicalOperator::selection(machine_star(), cond());
    let plan = optimizer.find_best_plan(&sel, &db);
    match &plan {
        PhysicalOperator::Filter { input, .. } => assert!(matches!(**input, PhysicalOperator::StarJoin { .. })),
        _ => panic!("expected a filter"),
    }
    let proj = LogicalOperator::projection(LogicalOperator::selection(machine_star(), cond()), vec!["?m".to_string()]);
    let plan = optimizer.find_best_plan(&proj, &db);
    match &plan {
        PhysicalOperator::Projection { input, .. } => assert!(matches!(**input, PhysicalOperator::Filter { .. })),
        _ => panic!("expected a projection"),
    }
}

#[test]
fn run_clause_retrieves_models() {
    let mut db = SparqlDatabase::new();
    let model = db.dictionary.encode("rf_temperature_predictor");
    let model_type = db.dictionary.encode("mls:Model");
    let rdf_type = db.dictionary.encode("rdf:type");
    let temp = db.dictionary.encode("sensor:temperature");
    let machine = db.dictionary.encode("machine101");
    let value = db.dictionary.encode("22.5");
    db.add_triple(Triple { subject: model, predicate: rdf_type, object: model_type });
    db.add_triple(Triple { subject: machine, predicate: temp, object: value });
    let mut optimizer = Streamertail::new(&db);
    optimizer.set_model_path("models".to_string());
    let retrieval = LogicalOperator::projection(
        LogicalOperator::scan((Term::Variable("?mlmodel".to_string()), Term::Constant(rdf_type), Term::Constant(model_type))),
        vec!["?mlmodel".to_string()],
    );
    let q = LogicalOperator::run_ml_clause_lo(
        LogicalOperator::scan(pattern("?machine", temp, "?temperature")),
        retrieval,
        vec!["?temperature".to_string()],
        "?prediction".to_string(),
    );
    let plan = optimizer.find_best_plan(&q, &db);
    match &plan {
        PhysicalOperator::MLPredict { model_name, model_path, .. } => {
            assert_eq!(model_path, "models");
            match model_name {
                ModelGetterPhysical::RunMLClausePhysical(ids, names) => {
                    assert_eq!(ids.len(), 1);
                    assert_eq!(ids[0], vec![("?mlmodel".to_string(), model)]);
                    assert_eq!(names[0], vec![("?mlmodel".to_string(), "rf_temperature_predictor".to_string())]);
                },
                _ => panic!("expected retrieved models"),
            }
        },
        _ => panic!("expected an ML operator"),
    }
}

#[test]
fn named_model_keeps_its_name() {
    let db = machine_db();
    let mut optimizer = Streamertail::new(&db);
    let q = LogicalOperator::MLPredict {
        input: Box::new(LogicalOperator::scan(pattern("?m", 10, "?t"))),
        model_name: ModelGetter::MLPredict("forest".to_string()),
        input_variables: vec!["?t".to_string()],
        output_variable: "?y".to_string(),
    };
    let plan = optimizer.find_best_plan(&q, &db);
    match &plan {
        PhysicalOperator::MLPredict { model_name: ModelGetterPhysical::MLPredictPhysical(n), model_path, .. } => {
            assert_eq!(n, "forest");
            assert_eq!(model_path, "ml/examples/models");
        },
        _ => panic!("expected a named model"),
    }
}

#[test]
fn update_stats_forgets_memo() {
    let db = machine_db();
    let mut optimizer = Streamertail::new(&db);
    let _ = optimizer.find_best_plan(&machine_star(), &db);
    assert!(optimizer.memo.len() > 0);
    optimizer.update_stats(&db);
    assert_eq!(optimizer.memo.len(), 0);
    assert_eq!(optimizer.get_stats().total_triples, 5);
}

#[test]
fn bubble_up_places_run_above_cheaper_join() {
    let db = machine_db();
    let mut optimizer = Streamertail::new(&db);
    let run = LogicalOperator::run_ml_clause_lo(
        LogicalOperator::join(
            LogicalOperator::scan(pattern("?m", 10, "?t")),
            LogicalOperator::scan(pattern("?m", 11, "?h")),
        ),
        LogicalOperator::scan(pattern("?r", 12, "?model")),
        vec!["?t".to_string()],
        "?y".to_string(),
    );
    let q = LogicalOperator::projection(
        LogicalOperator::join(run, LogicalOperator::scan(pattern("?x", 12, "?y"))),
        vec!["?m".to_string()],
    );
    let found = optimizer.ml_exists(&q).expect("a RUN clause");
    assert_eq!(found.3, "?y");
    let plan = optimizer.find_best_plan_recursive_optimised(&q, &db);
    assert!(matches!(plan, PhysicalOperator::Projection { .. }));
}

#[test]
fn one_pattern_naming_a_variable_twice_is_no_star() {
    let db = machine_db();
    let optimizer = Streamertail::new(&db);
    let j = LogicalOperator::join(
        LogicalOperator::scan((Term::Variable("?x".to_string()), Term::Constant(1), Term::Variable("?x".to_string()))),
        LogicalOperator::scan((Term::Constant(2), Term::Constant(3), Term::Constant(4))),
    );
    let q = LogicalOperator::join(j, LogicalOperator::scan((Term::Constant(5), Term::Constant(6), Term::Constant(7))));
    assert!(optimizer.is_star_query(&q).is_none());
}

#[test]
fn values_plans_with_other_rows_are_not_confused() {
    let db = machine_db();
    let mut optimizer = Streamertail::new(&db);
    let a = LogicalOperator::values(vec!["?x".to_string()], vec![vec![Some("a".to_string())]]);
    let b = LogicalOperator::values(vec!["?x".to_string()], vec![vec![Some("b".to_string())]]);
    let _ = optimizer.find_best_plan(&a, &db);
    let planned = format!("{:?}", optimizer.find_best_plan(&b, &db));
    let mut fresh = Streamertail::new(&db);
    assert_eq!(planned, format!("{:?}", fresh.find_best_plan(&b, &db)));
    assert!(planned.contains("\"b\""));
}

fn add(db: &mut SparqlDatabase, prefixes: &PrefixMap, s: &str, p: &str, o: &str) {
    let s = lib::plan::resolve_with_prefixes(s, prefixes);
    let p = lib::plan::resolve_with_prefixes(p, prefixes);
    let o = lib::plan::resolve_with_prefixes(o, prefixes);
    let subject = db.dictionary.encode(&s);
    let predicate = db.dictionary.encode(&p);
    let object = db.dictionary.encode(&o);
    db.add_triple(Triple { subject, predicate, object });
}

#[test]
fn test_physical_plan_creation_runmlclause() {
    let database = &mut SparqlDatabase::new();
    let mut optimizer = Streamertail::new(&SparqlDatabase::new());

    let mut prefixes = PrefixMap::new();
    prefixes.insert("rdf".to_string(), "http://www.w3.org/1999/02/22-rdf-syntax-ns#".to_string());
    prefixes.insert("mls".to_string(), "http://www.w3.org/2016/10/mls/".to_string());
    prefixes.insert("sensor".to_string(), "http://sensordom.org".to_string());

    for (s, p, o) in [
        ("http://example.org#machine101", "rdf:type", "http://example.org#Room"),
        ("http://example.org#machine101", "sensor:temperature", "22.5"),
        ("http://example.org#machine101", "sensor:humidity", "45.0"),
        ("http://example.org#machine101", "sensor:pressure", "21.0"),
        ("http://example.org#machine102", "rdf:type", "http://example.org#Room"),
        ("http://example.org#machine102", "sensor:temperature", "23.0"),
        ("http://example.org#machine102", "sensor:humidity", "52.0"),
        ("http://example.org#machine101", "sensor:pressure", "22.0"),
        ("http://example.org#machineML", "rdf:type", "mls:Run"),
        ("http://example.org#machineML", "mls:hasOutput", "rf_temperature_predictor"),
        ("rf_temperature_predictor", "rdf:type", "mls:Model"),
        ("http://example.org#machineML2", "rdf:type", "mls:Run"),
        ("http://example.org#machineML2", "mls:hasOutput", "gb_temperature_predictor"),
        ("gb_temperature_predictor", "rdf:type", "mls:Model"),
    ] {
        add(database, &prefixes, s, p, o);
    }
    database.set_prefixes(prefixes);
    let prefixes = {
        let mut p = PrefixMap::new();
        p.insert("rdf".to_string(), "http://www.w3.org/1999/02/22-rdf-syntax-ns#".to_string());
        p.insert("mls".to_string(), "http://www.w3.org/2016/10/mls/".to_string());
        p.insert("sensor".to_string(), "http://sensordom.org".to_string());
        p
    };

    let input_scan1 = LogicalOperator::scan(convert_pattern_to_triple("?machine", "sensor:temperature", "?temperature", &prefixes, database));
    let input_scan2 = LogicalOperator::scan(convert_pattern_to_triple("?machine", "sensor:humidity", "?humidity", &prefixes, database));
    let input_scan3 = LogicalOperator::scan(convert_pattern_to_triple("?machine", "sensor:pressure", "?pressure", &prefixes, database));
    let mut inputlogicalop = LogicalOperator::join(input_scan1, input_scan2);
    inputlogicalop = LogicalOperator::join(inputlogicalop, input_scan3);
    let star_join_input_lo = inputlogicalop.duplicate();

    let mlscan1 = LogicalOperator::scan(convert_pattern_to_triple("?r", "rdf:type", "mls:Run", &prefixes, database));
    let mlscan2 = LogicalOperator::scan(convert_pattern_to_triple("?r", "mls:hasOutput", "?mlmodel", &prefixes, database));
    let mlscan3 = LogicalOperator::scan(convert_pattern_to_triple("?mlmodel", "rdf:type", "mls:Model", &prefixes, database));

    let mut mllogicalop = LogicalOperator::join(mlscan1, mlscan2);
    mllogicalop = LogicalOperator::join(mllogicalop, mlscan3);
    let star_join_ml_lo = mllogicalop.duplicate();
    mllogicalop = LogicalOperator::projection(mllogicalop, vec!["?mlmodel".to_string()]);

    let inputs = || vec!["?temperature".to_string(), "?humidity".to_string(), "?pressure".to_string()];
    inputlogicalop = LogicalOperator::run_ml_clause_lo(inputlogicalop, mllogicalop.duplicate(), inputs(), "?brokenPrediction".to_string());
    inputlogicalop = LogicalOperator::join(
        inputlogicalop,
        LogicalOperator::scan(convert_pattern_to_triple("?x", "hvac:hasValue", "brokenPrediction", &prefixes, database)),
    );
    inputlogicalop = LogicalOperator::projection(inputlogicalop, vec!["?machine".to_string(), "?brokenPrediction".to_string()]);

    let star_option = optimizer.is_star_query(&star_join_input_lo);
    assert!(star_option.is_some());
    let star = star_option.unwrap();
    let star_physical = optimizer.build_star_join_from_patterns(star, &star_join_input_lo);

    let star_ml_option = optimizer.is_star_query(&mllogicalop);
    assert!(star_ml_option.is_some());
    let star_ml_val = star_ml_option.unwrap();
    let mut star_ml = optimizer.build_star_join_from_patterns(star_ml_val, &star_join_ml_lo);
    star_ml = PhysicalOperator::projection(star_ml, vec!["?mlmodel".to_string()]);

    let model_path = optimizer.model_path.clone();
    let models = execute_with_ids(&star_ml, database).expect("rows");
    let namelist: Vec<Vec<(String, String)>> = models
        .iter()
        .map(|row| row.iter().map(|(var, id)| (var.clone(), database.dictionary.decode(*id).unwrap().to_string())).collect())
        .collect();
    assert_eq!(models.len(), 2);

    let left_phys = optimizer.choose_best_scan(&convert_pattern_to_triple("?x", "hvac:hasValue", "brokenPrediction", &prefixes, database));
    let mut expected_physical_operator = PhysicalOperator::run_ml_clause(star_physical, models, namelist, model_path, inputs(), "?brokenPrediction".to_string());
    expected_physical_operator = PhysicalOperator::optimized_hash_join(left_phys, expected_physical_operator);
    expected_physical_operator = PhysicalOperator::projection(expected_physical_operator, vec!["?machine".to_string(), "?brokenPrediction".to_string()]);

    let produced_physical_operator = optimizer.find_best_plan_recursive(&inputlogicalop, database);

    assert_eq!(format!("{expected_physical_operator:?}"), format!("{produced_physical_operator:?}"));
}
