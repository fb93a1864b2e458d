use lib::database::SparqlDatabase;
use lib::execution::execute_with_ids;
use lib::operators::{LogicalOperator, PhysicalOperator};
use lib::optimizer::Streamertail;
use lib::query::{Condition, FilterExpression};
use lib::terms::{Term, Triple};

fn db() -> SparqlDatabase {
    let mut db = SparqlDatabase::new();
    let names = ["alice", "bob", "carol", "knows", "age", "30"];
    for n in names {
        db.dictionary.encode(n);
    }
    // alice knows bob, bob knows carol, alice age 30
    db.add_triple(Triple { subject: 0, predicate: 3, object: 1 });
    db.add_triple(Triple { subject: 1, predicate: 3, object: 2 });
    db.add_triple(Triple { subject: 0, predicate: 4, object: 5 });
    db
}

fn var(n: &str) -> Term {
    Term::Variable(n.to_string())
}

#[test]
fn scan_binds_variables_and_checks_constants() {
    let mut database = db();
    let optimizer = Streamertail::new(&database);
    let plan = PhysicalOperator::index_scan((var("?a"), Term::Constant(3), var("?b")));
    let rows = optimizer.execute_plan(&plan, &mut database).expect("rows");
    assert_eq!(rows.len(), 2);
    assert_eq!(rows[0], vec![("?a".to_string(), "alice".to_string()), ("?b".to_string(), "bob".to_string())]);
    assert_eq!(rows[1], vec![("?a".to_string(), "bob".to_string()), ("?b".to_string(), "carol".to_string())]);
}

#[test]
fn repeated_variable_must_match_itself() {
    let database = db();
    let plan = PhysicalOperator::table_scan((var("?x"), var("?p"), var("?x")));
    let rows = execute_with_ids(&plan, &database).expect("rows");
    assert!(rows.is_empty());
}

#[test]
fn join_merges_compatible_rows() {
    let database = db();
    let plan = PhysicalOperator::hash_join(
        PhysicalOperator::index_scan((var("?a"), Term::Constant(3), var("?b"))),
        PhysicalOperator::index_scan((var("?b"), Term::Constant(3), var("?c"))),
    );
    let rows = execute_with_ids(&plan, &database).expect("rows");
    assert_eq!(rows, vec![vec![("?a".to_string(), 0), ("?b".to_string(), 1), ("?c".to_string(), 2)]]);
}

#[test]
fn projection_keeps_listed_variables() {
    let database = db();
    let plan = PhysicalOperator::projection(
        PhysicalOperator::StarJoin {
            join_var: "?a".to_string(),
            patterns: vec![
                (var("?a"), Term::Constant(3), var("?b")),
                (var("?a"), Term::Constant(4), var("?age")),
            ],
        },
        vec!["?age".to_string()],
    );
    let rows = execute_with_ids(&plan, &database).expect("rows");
    assert_eq!(rows, vec![vec![("?age".to_string(), 5)]]);
}

#[test]
fn plans_with_other_operators_are_not_evaluated() {
    let mut database = db();
    let optimizer = Streamertail::new(&database);
    let plan = PhysicalOperator::filter(
        PhysicalOperator::index_scan((var("?a"), Term::Constant(3), var("?b"))),
        Condition::from_filter(FilterExpression::Comparison("?a".to_string(), "=".to_string(), "x".to_string())),
    );
    assert!(optimizer.execute_plan(&plan, &mut database).is_none());
}

#[test]
fn optimize_and_execute_runs_best_plan() {
    let mut database = db();
    let mut optimizer = Streamertail::new(&database);
    let q = LogicalOperator::join(
        LogicalOperator::scan((var("?a"), Term::Constant(3), var("?b"))),
        LogicalOperator::scan((var("?a"), Term::Constant(4), var("?age"))),
    );
    let rows = optimizer.optimize_and_execute(&q, &mut database).expect("rows");
    assert_eq!(rows.len(), 1);
    assert!(rows[0].contains(&("?age".to_string(), "30".to_string())));
    assert!(rows[0].contains(&("?b".to_string(), "bob".to_string())));
}
