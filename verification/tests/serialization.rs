use lib::operators::{LogicalOperator, ModelGetterPhysical, PhysicalOperator};
use lib::query::{ArithmeticExpression, Condition, FilterExpression};
use lib::serialize::{
    serialize_arith_expr, serialize_filter_expression, serialize_logical_plan, serialize_physical_plan,
};
use lib::terms::{Term, Triple};

fn pattern(s: &str, p: u32, o: &str) -> (Term, Term, Term) {
    (Term::Variable(s.to_string()), Term::Constant(p), Term::Variable(o.to_string()))
}

#[test]
fn scan_key_matches_debug_of_terms() {
    let p = pattern("?s", 1, "?o");
    let expected = format!("Scan({:?},{:?},{:?})", p.0, p.1, p.2);
    let plan = LogicalOperator::scan(p);
    assert_eq!(serialize_logical_plan(&plan), expected);
    assert_eq!(serialize_logical_plan(&plan), "Scan(Variable(\"?s\"),Constant(1),Variable(\"?o\"))");
}

#[test]
fn join_projection_and_values_keys() {
    let join = LogicalOperator::join(
        LogicalOperator::scan(pattern("?a", 1, "?b")),
        LogicalOperator::scan(pattern("?b", 2, "?c")),
    );
    let proj = LogicalOperator::projection(join, vec!["?a".to_string()]);
    assert_eq!(
        serialize_logical_plan(&proj),
        "Projection([\"?a\"],[Join([Scan(Variable(\"?a\"),Constant(1),Variable(\"?b\"))],[Scan(Variable(\"?b\"),Constant(2),Variable(\"?c\"))])])"
    );
    let values = LogicalOperator::values(
        vec!["?x".to_string()],
        vec![vec![Some("a".to_string())], vec![None]],
    );
    assert_eq!(serialize_logical_plan(&values), "Values([\"?x\"], [[Some(\"a\")], [None]])");
    let other = LogicalOperator::values(
        vec!["?x".to_string()],
        vec![vec![Some("b".to_string())], vec![None]],
    );
    assert_ne!(serialize_logical_plan(&values), serialize_logical_plan(&other));
}

#[test]
fn selection_bind_and_ml_keys() {
    let sel = LogicalOperator::selection(
        LogicalOperator::scan(pattern("?x", 3, "?v")),
        Condition::from_filter(FilterExpression::Comparison(
            "?v".to_string(),
            ">".to_string(),
            "5".to_string(),
        )),
    );
    assert_eq!(
        serialize_logical_plan(&sel),
        "Selection([Scan(Variable(\"?x\"),Constant(3),Variable(\"?v\"))], ?v>'5')"
    );
    let bind = LogicalOperator::bind(
        LogicalOperator::scan(pattern("?x", 3, "?v")),
        "CONCAT".to_string(),
        vec!["?v".to_string()],
        "?w".to_string(),
    );
    assert_eq!(
        serialize_logical_plan(&bind),
        "Bind(Scan(Variable(\"?x\"),Constant(3),Variable(\"?v\")), CONCAT([\"?v\"]), ?w)"
    );
    let ml = LogicalOperator::MLPredict {
        input: Box::new(LogicalOperator::scan(pattern("?x", 3, "?v"))),
        model_name: lib::operators::ModelGetter::MLPredict("model".to_string()),
        input_variables: vec!["?v".to_string()],
        output_variable: "?out".to_string(),
    };
    assert_eq!(
        serialize_logical_plan(&ml),
        "MLPredict(Scan(Variable(\"?x\"),Constant(3),Variable(\"?v\")), model=model, inputs=[\"?v\"], output=?out)"
    );
    let run = LogicalOperator::run_ml_clause_lo(
        LogicalOperator::scan(pattern("?x", 3, "?v")),
        LogicalOperator::scan(pattern("?m", 4, "?k")),
        vec!["?v".to_string()],
        "?out".to_string(),
    );
    assert_eq!(
        serialize_logical_plan(&run),
        "MLPredict(Scan(Variable(\"?x\"),Constant(3),Variable(\"?v\")), model=Scan(Variable(\"?m\"),Constant(4),Variable(\"?k\")), inputs=[\"?v\"], output=?out)"
    );
}

#[test]
fn buffer_and_subquery_keys() {
    let buffer = LogicalOperator::Buffer {
        content: vec![Triple { subject: 1, predicate: 2, object: 3 }],
        origin: "window".to_string(),
    };
    assert_eq!(
        serialize_logical_plan(&buffer),
        "Buffer(\"window\",[Triple { subject: 1, predicate: 2, object: 3 }])"
    );
    let sub = LogicalOperator::subquery(LogicalOperator::scan(pattern("?a", 1, "?b")), vec!["?a".to_string()]);
    assert_eq!(
        serialize_logical_plan(&sub),
        "Subquery([\"?a\"],[Scan(Variable(\"?a\"),Constant(1),Variable(\"?b\"))])"
    );
}

#[test]
fn filter_and_arithmetic_texts() {
    let arith = ArithmeticExpression::Add(
        Box::new(ArithmeticExpression::Operand("?a".to_string())),
        Box::new(ArithmeticExpression::Multiply(
            Box::new(ArithmeticExpression::Operand("2".to_string())),
            Box::new(ArithmeticExpression::Operand("?b".to_string())),
        )),
    );
    assert_eq!(serialize_arith_expr(&arith), "(?a + (2 * ?b))");
    let f = FilterExpression::Or(
        Box::new(FilterExpression::And(
            Box::new(FilterExpression::Comparison("?a".to_string(), "=".to_string(), "1".to_string())),
            Box::new(FilterExpression::Not(Box::new(FilterExpression::FunctionCall(
                "isIRI".to_string(),
                vec!["?a".to_string(), "?b".to_string()],
            )))),
        )),
        Box::new(FilterExpression::ArithmeticExpr(ArithmeticExpression::Subtract(
            Box::new(ArithmeticExpression::Operand("?x".to_string())),
            Box::new(ArithmeticExpression::Operand("1".to_string())),
        ))),
    );
    assert_eq!(
        serialize_filter_expression(&f),
        "((?a='1' AND NOT(isIRI(?a, ?b))) OR ARITH((?x - 1)))"
    );
}

#[test]
fn physical_join_quotes_its_sides() {
    let left = PhysicalOperator::index_scan(pattern("?s", 1, "?o"));
    let right = PhysicalOperator::table_scan(pattern("?o", 2, "?z"));
    let left_text = serialize_physical_plan(&left);
    let right_text = serialize_physical_plan(&right);
    assert_eq!(left_text, "IndexScan((Variable(\"?s\"), Constant(1), Variable(\"?o\")))");
    assert_eq!(right_text, "TableScan((Variable(\"?o\"), Constant(2), Variable(\"?z\")))");
    let join = PhysicalOperator::hash_join(left, right);
    let expected = format!("HashJoin([{:?}], [{:?}])", left_text, right_text);
    assert_eq!(serialize_physical_plan(&join), expected);
    assert!(serialize_physical_plan(&join).contains("\\\"?s\\\""));
    let nested = PhysicalOperator::nested_loop_join(
        PhysicalOperator::index_scan(pattern("?a", 1, "?b")),
        PhysicalOperator::index_scan(pattern("?b", 2, "?c")),
    );
    assert!(serialize_physical_plan(&nested).starts_with("NestedJoin(["));
}

#[test]
fn physical_leaves_and_wrappers() {
    let star = PhysicalOperator::StarJoin {
        join_var: "?s".to_string(),
        patterns: vec![pattern("?s", 1, "?a")],
    };
    assert_eq!(
        serialize_physical_plan(&star),
        "StarJoin(\"?s\", [(Variable(\"?s\"), Constant(1), Variable(\"?a\"))])"
    );
    let buffer = PhysicalOperator::InMemoryBuffer {
        content: vec![Triple { subject: 4, predicate: 5, object: 6 }],
        origin: "w".to_string(),
    };
    assert_eq!(
        serialize_physical_plan(&buffer),
        "InMemoryBuffer([Triple { subject: 4, predicate: 5, object: 6 }], \"w\")"
    );
    let values = PhysicalOperator::values(
        vec!["?x".to_string(), "?y".to_string()],
        vec![vec![Some("a".to_string()), None]],
    );
    assert_eq!(serialize_physical_plan(&values), "Values([\"?x\", \"?y\"], [[Some(\"a\"), None]])");
    let projection = PhysicalOperator::projection(PhysicalOperator::index_scan(pattern("?s", 1, "?a")), vec!["?s".to_string()]);
    assert_eq!(
        serialize_physical_plan(&projection),
        "Projection([\"?s\"],[IndexScan((Variable(\"?s\"), Constant(1), Variable(\"?a\")))])"
    );
    let filter = PhysicalOperator::filter(
        PhysicalOperator::index_scan(pattern("?s", 1, "?a")),
        Condition::from_filter(FilterExpression::Comparison("?a".to_string(), "<".to_string(), "3".to_string())),
    );
    assert_eq!(
        serialize_physical_plan(&filter),
        "Filter([IndexScan((Variable(\"?s\"), Constant(1), Variable(\"?a\")))], ?a<'3')"
    );
}

#[test]
fn physical_ml_operator_text() {
    let input = PhysicalOperator::index_scan(pattern("?s", 1, "?a"));
    let input_text = serialize_physical_plan(&input);
    let run = PhysicalOperator::run_ml_clause(
        input,
        vec![vec![("?m".to_string(), 7)]],
        vec![vec![("?m".to_string(), "model_a".to_string())]],
        "models".to_string(),
        vec!["?a".to_string()],
        "?out".to_string(),
    );
    let model_text = "RunMLClausePhysical([{\"?m\": 7}], [{\"?m\": \"model_a\"}])";
    let expected = format!(
        "MLPredict([{:?}], {:?}, {:?}, [\"?a\"], {:?})",
        input_text, model_text, "models", "?out"
    );
    assert_eq!(serialize_physical_plan(&run), expected);
    match &run {
        PhysicalOperator::MLPredict { model_name: ModelGetterPhysical::RunMLClausePhysical(ids, names), .. } => {
            assert_eq!(ids.len(), 1);
            assert_eq!(names[0][0].1, "model_a");
        },
        _ => panic!("expected an ML operator"),
    }
}
