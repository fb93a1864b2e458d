//! Logical and physical query plans, their mathematical values, and builders.

use vstd::prelude::*;
use crate::terms::{TriplePattern, PatternM, Triple, copy_pattern, copy_patterns, copy_strings};
use crate::query::{Condition, FilterM, copy_condition};

verus! {

/// Where a plan's ML models come from: a named model, or the models that a
/// retrieval sub-plan finds (a RUN clause).
#[derive(Debug)]
pub enum ModelGetter {
    MLPredict(String),
    RunMLClause(Box<LogicalOperator>),
}

/// A logical query plan.
#[derive(Debug)]
pub enum LogicalOperator {
    Scan { pattern: TriplePattern },
    Selection { predicate: Box<LogicalOperator>, condition: Condition },
    Projection { predicate: Box<LogicalOperator>, variables: Vec<String> },
    Join { left: Box<LogicalOperator>, right: Box<LogicalOperator> },
    Buffer { content: Vec<Triple>, origin: String },
    Subquery { inner: Box<LogicalOperator>, projected_vars: Vec<String> },
    Bind {
        input: Box<LogicalOperator>,
        function_name: String,
        arguments: Vec<String>,
        output_variable: String,
    },
    Values { variables: Vec<String>, values: Vec<Vec<Option<String>>> },
    MLPredict {
        input: Box<LogicalOperator>,
        model_name: ModelGetter,
        input_variables: Vec<String>,
        output_variable: String,
    },
}

/// One solution row: variable names with dictionary ids, each name once
/// (`row_names_distinct`), as the rows that plans produce are.
pub type IdRow = Vec<(String, u32)>;

/// One solution row: variable names with decoded values.
pub type NameRow = Vec<(String, String)>;

/// The models an ML operator uses in a physical plan.
#[derive(Debug)]
pub enum ModelGetterPhysical {
    MLPredictPhysical(String),
    RunMLClausePhysical(Vec<IdRow>, Vec<NameRow>),
}

/// A physical (executable) query plan.
#[derive(Debug)]
pub enum PhysicalOperator {
    TableScan { pattern: TriplePattern },
    IndexScan { pattern: TriplePattern },
    Filter { input: Box<PhysicalOperator>, condition: Condition },
    Projection { input: Box<PhysicalOperator>, variables: Vec<String> },
    HashJoin { left: Box<PhysicalOperator>, right: Box<PhysicalOperator> },
    OptimizedHashJoin { left: Box<PhysicalOperator>, right: Box<PhysicalOperator> },
    NestedLoopJoin { left: Box<PhysicalOperator>, right: Box<PhysicalOperator> },
    ParallelJoin { left: Box<PhysicalOperator>, right: Box<PhysicalOperator> },
    StarJoin { join_var: String, patterns: Vec<TriplePattern> },
    InMemoryBuffer { content: Vec<Triple>, origin: String },
    Bind {
        input: Box<PhysicalOperator>,
        function_name: String,
        arguments: Vec<String>,
        output_variable: String,
    },
    MLPredict {
        input: Box<PhysicalOperator>,
        model_name: ModelGetterPhysical,
        model_path: String,
        input_variables: Vec<String>,
        output_variable: String,
    },
    Values { variables: Vec<String>, values: Vec<Vec<Option<String>>> },
    Subquery { inner: Box<PhysicalOperator>, projected_vars: Vec<String> },
}

/// The value of a model source.
pub enum GetterM {
    MLPredict(Seq<char>),
    RunMLClause(Box<LogicalM>),
}

/// The value of a logical plan: strings as character sequences, vectors as sequences.
pub enum LogicalM {
    Scan { pattern: PatternM },
    Selection { predicate: Box<LogicalM>, condition: FilterM },
    Projection { predicate: Box<LogicalM>, variables: Seq<Seq<char>> },
    Join { left: Box<LogicalM>, right: Box<LogicalM> },
    Buffer { content: Seq<Triple>, origin: Seq<char> },
    Subquery { inner: Box<LogicalM>, projected_vars: Seq<Seq<char>> },
    Bind {
        input: Box<LogicalM>,
        function_name: Seq<char>,
        arguments: Seq<Seq<char>>,
        output_variable: Seq<char>,
    },
    Values { variables: Seq<Seq<char>>, values: Seq<Seq<Option<Seq<char>>>> },
    MLPredict {
        input: Box<LogicalM>,
        model_name: GetterM,
        input_variables: Seq<Seq<char>>,
        output_variable: Seq<char>,
    },
}

/// The value of a solution row.
pub type IdRowM = Seq<(Seq<char>, u32)>;

/// Whether a row names each variable once.
pub open spec fn row_names_distinct(row: IdRowM) -> bool {
    forall|i: int, j: int| 0 <= i < j < row.len() ==> row[i].0 != row[j].0
}

/// The value of a decoded row.
pub type NameRowM = Seq<(Seq<char>, Seq<char>)>;

/// The value of the models of a physical ML operator.
pub enum PhysGetterM {
    MLPredictPhysical(Seq<char>),
    RunMLClausePhysical(Seq<IdRowM>, Seq<NameRowM>),
}

/// The value of a physical plan.
pub enum PhysicalM {
    TableScan { pattern: PatternM },
    IndexScan { pattern: PatternM },
    Filter { input: Box<PhysicalM>, condition: FilterM },
    Projection { input: Box<PhysicalM>, variables: Seq<Seq<char>> },
    HashJoin { left: Box<PhysicalM>, right: Box<PhysicalM> },
    OptimizedHashJoin { left: Box<PhysicalM>, right: Box<PhysicalM> },
    NestedLoopJoin { left: Box<PhysicalM>, right: Box<PhysicalM> },
    ParallelJoin { left: Box<PhysicalM>, right: Box<PhysicalM> },
    StarJoin { join_var: Seq<char>, patterns: Seq<PatternM> },
    InMemoryBuffer { content: Seq<Triple>, origin: Seq<char> },
    Bind {
        input: Box<PhysicalM>,
        function_name: Seq<char>,
        arguments: Seq<Seq<char>>,
        output_variable: Seq<char>,
    },
    MLPredict {
        input: Box<PhysicalM>,
        model_name: PhysGetterM,
        model_path: Seq<char>,
        input_variables: Seq<Seq<char>>,
        output_variable: Seq<char>,
    },
    Values { variables: Seq<Seq<char>>, values: Seq<Seq<Option<Seq<char>>>> },
    Subquery { inner: Box<PhysicalM>, projected_vars: Seq<Seq<char>> },
}

/// The value of a logical plan.
pub open spec fn logical_model(op: LogicalOperator) -> LogicalM
    decreases op,
{
    match op {
        LogicalOperator::Scan { pattern } => LogicalM::Scan { pattern: pattern@ },
        LogicalOperator::Selection { predicate, condition } => LogicalM::Selection {
            predicate: Box::new(logical_model(*predicate)),
            condition: condition@,
        },
        LogicalOperator::Projection { predicate, variables } => LogicalM::Projection {
            predicate: Box::new(logical_model(*predicate)),
            variables: variables.deep_view(),
        },
        LogicalOperator::Join { left, right } => LogicalM::Join {
            left: Box::new(logical_model(*left)),
            right: Box::new(logical_model(*right)),
        },
        LogicalOperator::Buffer { content, origin } => LogicalM::Buffer {
            content: content@,
            origin: origin@,
        },
        LogicalOperator::Subquery { inner, projected_vars } => LogicalM::Subquery {
            inner: Box::new(logical_model(*inner)),
            projected_vars: projected_vars.deep_view(),
        },
        LogicalOperator::Bind { input, function_name, arguments, output_variable } => LogicalM::Bind {
            input: Box::new(logical_model(*input)),
            function_name: function_name@,
            arguments: arguments.deep_view(),
            output_variable: output_variable@,
        },
        LogicalOperator::Values { variables, values } => LogicalM::Values {
            variables: variables.deep_view(),
            values: values.deep_view(),
        },
        LogicalOperator::MLPredict { input, model_name, input_variables, output_variable } =>
            LogicalM::MLPredict {
            input: Box::new(logical_model(*input)),
            model_name: match model_name {
                ModelGetter::MLPredict(s) => GetterM::MLPredict(s@),
                ModelGetter::RunMLClause(lo) => GetterM::RunMLClause(Box::new(logical_model(*lo))),
            },
            input_variables: input_variables.deep_view(),
            output_variable: output_variable@,
        },
    }
}

/// The value of a physical plan.
pub open spec fn physical_model(op: PhysicalOperator) -> PhysicalM
    decreases op,
{
    match op {
        PhysicalOperator::TableScan { pattern } => PhysicalM::TableScan { pattern: pattern@ },
        PhysicalOperator::IndexScan { pattern } => PhysicalM::IndexScan { pattern: pattern@ },
        PhysicalOperator::Filter { input, condition } => PhysicalM::Filter {
            input: Box::new(physical_model(*input)),
            condition: condition@,
        },
        PhysicalOperator::Projection { input, variables } => PhysicalM::Projection {
            input: Box::new(physical_model(*input)),
            variables: variables.deep_view(),
        },
        PhysicalOperator::HashJoin { left, right } => PhysicalM::HashJoin {
            left: Box::new(physical_model(*left)),
            right: Box::new(physical_model(*right)),
        },
        PhysicalOperator::OptimizedHashJoin { left, right } => PhysicalM::OptimizedHashJoin {
            left: Box::new(physical_model(*left)),
            right: Box::new(physical_model(*right)),
        },
        PhysicalOperator::NestedLoopJoin { left, right } => PhysicalM::NestedLoopJoin {
            left: Box::new(physical_model(*left)),
            right: Box::new(physical_model(*right)),
        },
        PhysicalOperator::ParallelJoin { left, right } => PhysicalM::ParallelJoin {
            left: Box::new(physical_model(*left)),
            right: Box::new(physical_model(*right)),
        },
        PhysicalOperator::StarJoin { join_var, patterns } => PhysicalM::StarJoin {
            join_var: join_var@,
            patterns: patterns.deep_view(),
        },
        PhysicalOperator::InMemoryBuffer { content, origin } => PhysicalM::InMemoryBuffer {
            content: content@,
            origin: origin@,
        },
        PhysicalOperator::Bind { input, function_name, arguments, output_variable } =>
            PhysicalM::Bind {
            input: Box::new(physical_model(*input)),
            function_name: function_name@,
            arguments: arguments.deep_view(),
            output_variable: output_variable@,
        },
        PhysicalOperator::MLPredict {
            input,
            model_name,
            model_path,
            input_variables,
            output_variable,
        } => PhysicalM::MLPredict {
            input: Box::new(physical_model(*input)),
            model_name: match model_name {
                ModelGetterPhysical::MLPredictPhysical(s) => PhysGetterM::MLPredictPhysical(s@),
                ModelGetterPhysical::RunMLClausePhysical(ids, names) => PhysGetterM::RunMLClausePhysical(
                    ids.deep_view(),
                    names.deep_view(),
                ),
            },
            model_path: model_path@,
            input_variables: input_variables.deep_view(),
            output_variable: output_variable@,
        },
        PhysicalOperator::Values { variables, values } => PhysicalM::Values {
            variables: variables.deep_view(),
            values: values.deep_view(),
        },
        PhysicalOperator::Subquery { inner, projected_vars } => PhysicalM::Subquery {
            inner: Box::new(physical_model(*inner)),
            projected_vars: projected_vars.deep_view(),
        },
    }
}

impl View for LogicalOperator {
    type V = LogicalM;

    open spec fn view(&self) -> LogicalM {
        logical_model(*self)
    }
}

impl View for PhysicalOperator {
    type V = PhysicalM;

    open spec fn view(&self) -> PhysicalM {
        physical_model(*self)
    }
}

/// A copy of a list of triples.
pub fn copy_triples(v: &Vec<Triple>) -> (r: Vec<Triple>)
    ensures
        r@ == v@,
{
    let mut r: Vec<Triple> = Vec::new();
    let mut i: usize = 0;
    while i < v.len()
        invariant
            i <= v@.len(),
            r@ == v@.subrange(0, i as int),
        decreases v@.len() - i,
    {
        r.push(v[i]);
        i = i + 1;
    }
    assert(r@ =~= v@);
    r
}

/// A copy of a row of optional values.
pub fn copy_optional_row(v: &Vec<Option<String>>) -> (r: Vec<Option<String>>)
    ensures
        r.deep_view() == v.deep_view(),
{
    let mut r: Vec<Option<String>> = Vec::new();
    let mut i: usize = 0;
    while i < v.len()
        invariant
            i <= v@.len(),
            r@.len() == i,
            r.deep_view() == v.deep_view().subrange(0, i as int),
        decreases v@.len() - i,
    {
        let ghost prev = r@;
        let ghost prevd = r.deep_view();
        let c = match &v[i] {
            Some(s) => Some(s.clone()),
            None => None,
        };
        r.push(c);
        proof {
            assert forall|j: int| 0 <= j < i + 1 implies #[trigger] r.deep_view()[j] == v.deep_view()[j] by {
                assert(r.deep_view()[j] == r@[j].deep_view());
                assert(v.deep_view()[j] == v@[j].deep_view());
                if j < i {
                    assert(r@[j] == prev[j]);
                    assert(prevd[j] == prev[j].deep_view());
                }
            }
            assert(r.deep_view() =~= v.deep_view().subrange(0, i + 1));
        }
        i = i + 1;
    }
    assert(r.deep_view() =~= v.deep_view());
    r
}

/// A copy of a table of optional values.
pub fn copy_value_rows(v: &Vec<Vec<Option<String>>>) -> (r: Vec<Vec<Option<String>>>)
    ensures
        r.deep_view() == v.deep_view(),
{
    let mut r: Vec<Vec<Option<String>>> = Vec::new();
    let mut i: usize = 0;
    while i < v.len()
        invariant
            i <= v@.len(),
            r@.len() == i,
            r.deep_view() == v.deep_view().subrange(0, i as int),
        decreases v@.len() - i,
    {
        let ghost prev = r@;
        let ghost prevd = r.deep_view();
        r.push(copy_optional_row(&v[i]));
        proof {
            assert forall|j: int| 0 <= j < i + 1 implies #[trigger] r.deep_view()[j] == v.deep_view()[j] by {
                assert(r.deep_view()[j] == r@[j].deep_view());
                assert(v.deep_view()[j] == v@[j].deep_view());
                if j < i {
                    assert(r@[j] == prev[j]);
                    assert(prevd[j] == prev[j].deep_view());
                }
            }
            assert(r.deep_view() =~= v.deep_view().subrange(0, i + 1));
        }
        i = i + 1;
    }
    assert(r.deep_view() =~= v.deep_view());
    r
}

impl LogicalOperator {
    /// A scan of one pattern.
    pub fn scan(pattern: TriplePattern) -> (r: LogicalOperator)
        ensures
            r@ == (LogicalM::Scan { pattern: pattern@ }),
    {
        LogicalOperator::Scan { pattern }
    }

    /// A join of two plans.
    pub fn join(left: LogicalOperator, right: LogicalOperator) -> (r: LogicalOperator)
        ensures
            r@ == (LogicalM::Join { left: Box::new(left@), right: Box::new(right@) }),
    {
        LogicalOperator::Join { left: Box::new(left), right: Box::new(right) }
    }

    /// A selection over a plan.
    pub fn selection(predicate: LogicalOperator, condition: Condition) -> (r: LogicalOperator)
        ensures
            r@ == (LogicalM::Selection { predicate: Box::new(predicate@), condition: condition@ }),
    {
        LogicalOperator::Selection { predicate: Box::new(predicate), condition }
    }

    /// A projection of a plan.
    pub fn projection(predicate: LogicalOperator, variables: Vec<String>) -> (r: LogicalOperator)
        ensures
            r@ == (LogicalM::Projection {
                predicate: Box::new(predicate@),
                variables: variables.deep_view(),
            }),
    {
        LogicalOperator::Projection { predicate: Box::new(predicate), variables }
    }

    /// A subquery scope around a plan.
    pub fn subquery(inner: LogicalOperator, projected_vars: Vec<String>) -> (r: LogicalOperator)
        ensures
            r@ == (LogicalM::Subquery {
                inner: Box::new(inner@),
                projected_vars: projected_vars.deep_view(),
            }),
    {
        LogicalOperator::Subquery { inner: Box::new(inner), projected_vars }
    }

    /// A BIND over a plan.
    pub fn bind(
        input: LogicalOperator,
        function_name: String,
        arguments: Vec<String>,
        output_variable: String,
    ) -> (r: LogicalOperator)
        ensures
            r@ == (LogicalM::Bind {
                input: Box::new(input@),
                function_name: function_name@,
                arguments: arguments.deep_view(),
                output_variable: output_variable@,
            }),
    {
        LogicalOperator::Bind { input: Box::new(input), function_name, arguments, output_variable }
    }

    /// A VALUES table.
    pub fn values(variables: Vec<String>, values: Vec<Vec<Option<String>>>) -> (r: LogicalOperator)
        ensures
            r@ == (LogicalM::Values { variables: variables.deep_view(), values: values.deep_view() }),
    {
        LogicalOperator::Values { variables, values }
    }

    /// Runs the models that `ml_retrieval` finds on the rows of `input`.
    pub fn run_ml_clause_lo(
        input: LogicalOperator,
        ml_retrieval: LogicalOperator,
        input_variables: Vec<String>,
        output_variable: String,
    ) -> (r: LogicalOperator)
        ensures
            r@ == (LogicalM::MLPredict {
                input: Box::new(input@),
                model_name: GetterM::RunMLClause(Box::new(ml_retrieval@)),
                input_variables: input_variables.deep_view(),
                output_variable: output_variable@,
            }),
    {
        LogicalOperator::MLPredict {
            input: Box::new(input),
            model_name: ModelGetter::RunMLClause(Box::new(ml_retrieval)),
            input_variables,
            output_variable,
        }
    }

    /// A copy of this plan.
    pub fn duplicate(&self) -> (r: LogicalOperator)
        ensures
            r@ == self@,
        decreases self,
    {
        match self {
            LogicalOperator::Scan { pattern } => LogicalOperator::Scan { pattern: copy_pattern(pattern) },
            LogicalOperator::Selection { predicate, condition } => LogicalOperator::Selection {
                predicate: Box::new(predicate.duplicate()),
                condition: copy_condition(condition),
            },
            LogicalOperator::Projection { predicate, variables } => LogicalOperator::Projection {
                predicate: Box::new(predicate.duplicate()),
                variables: copy_strings(variables),
            },
            LogicalOperator::Join { left, right } => LogicalOperator::Join {
                left: Box::new(left.duplicate()),
                right: Box::new(right.duplicate()),
            },
            LogicalOperator::Buffer { content, origin } => LogicalOperator::Buffer {
                content: copy_triples(content),
                origin: origin.clone(),
            },
            LogicalOperator::Subquery { inner, projected_vars } => LogicalOperator::Subquery {
                inner: Box::new(inner.duplicate()),
                projected_vars: copy_strings(projected_vars),
            },
            LogicalOperator::Bind { input, function_name, arguments, output_variable } =>
                LogicalOperator::Bind {
                input: Box::new(input.duplicate()),
                function_name: function_name.clone(),
                arguments: copy_strings(arguments),
                output_variable: output_variable.clone(),
            },
            LogicalOperator::Values { variables, values } => LogicalOperator::Values {
                variables: copy_strings(variables),
                values: copy_value_rows(values),
            },
            LogicalOperator::MLPredict { input, model_name, input_variables, output_variable } => {
                let m = match model_name {
                    ModelGetter::MLPredict(s) => ModelGetter::MLPredict(s.clone()),
                    ModelGetter::RunMLClause(lo) => ModelGetter::RunMLClause(Box::new(lo.duplicate())),
                };
                LogicalOperator::MLPredict {
                    input: Box::new(input.duplicate()),
                    model_name: m,
                    input_variables: copy_strings(input_variables),
                    output_variable: output_variable.clone(),
                }
            },
        }
    }
}

/// A copy of a list of id rows.
pub fn copy_id_rows(v: &Vec<IdRow>) -> (r: Vec<IdRow>)
    ensures
        r.deep_view() == v.deep_view(),
{
    let mut r: Vec<IdRow> = Vec::new();
    let mut i: usize = 0;
    while i < v.len()
        invariant
            i <= v@.len(),
            r@.len() == i,
            r.deep_view() == v.deep_view().subrange(0, i as int),
        decreases v@.len() - i,
    {
        let row = &v[i];
        let mut c: IdRow = Vec::new();
        let mut k: usize = 0;
        while k < row.len()
            invariant
                k <= row@.len(),
                c@.len() == k,
                c.deep_view() == row.deep_view().subrange(0, k as int),
            decreases row@.len() - k,
        {
            let ghost cp = c@;
            let ghost cpd = c.deep_view();
            c.push((row[k].0.clone(), row[k].1));
            proof {
                assert forall|j: int| 0 <= j < k + 1 implies #[trigger] c.deep_view()[j]
                    == row.deep_view()[j] by {
                    assert(c.deep_view()[j] == c@[j].deep_view());
                    assert(row.deep_view()[j] == row@[j].deep_view());
                    if j < k {
                        assert(c@[j] == cp[j]);
                        assert(cpd[j] == cp[j].deep_view());
                    }
                }
                assert(c.deep_view() =~= row.deep_view().subrange(0, k + 1));
            }
            k = k + 1;
        }
        assert(c.deep_view() =~= row.deep_view());
        let ghost prev = r@;
        let ghost prevd = r.deep_view();
        r.push(c);
        proof {
            assert forall|j: int| 0 <= j < i + 1 implies #[trigger] r.deep_view()[j] == v.deep_view()[j] by {
                assert(r.deep_view()[j] == r@[j].deep_view());
                assert(v.deep_view()[j] == v@[j].deep_view());
                if j < i {
                    assert(r@[j] == prev[j]);
                    assert(prevd[j] == prev[j].deep_view());
                }
            }
            assert(r.deep_view() =~= v.deep_view().subrange(0, i + 1));
        }
        i = i + 1;
    }
    assert(r.deep_view() =~= v.deep_view());
    r
}

/// A copy of a list of decoded rows.
pub fn copy_name_rows(v: &Vec<NameRow>) -> (r: Vec<NameRow>)
    ensures
        r.deep_view() == v.deep_view(),
{
    let mut r: Vec<NameRow> = Vec::new();
    let mut i: usize = 0;
    while i < v.len()
        invariant
            i <= v@.len(),
            r@.len() == i,
            r.deep_view() == v.deep_view().subrange(0, i as int),
        decreases v@.len() - i,
    {
        let row = &v[i];
        let mut c: NameRow = Vec::new();
        let mut k: usize = 0;
        while k < row.len()
            invariant
                k <= row@.len(),
                c@.len() == k,
                c.deep_view() == row.deep_view().subrange(0, k as int),
            decreases row@.len() - k,
        {
            let ghost cp = c@;
            let ghost cpd = c.deep_view();
            c.push((row[k].0.clone(), row[k].1.clone()));
            proof {
                assert forall|j: int| 0 <= j < k + 1 implies #[trigger] c.deep_view()[j]
                    == row.deep_view()[j] by {
                    assert(c.deep_view()[j] == c@[j].deep_view());
                    assert(row.deep_view()[j] == row@[j].deep_view());
                    if j < k {
                        assert(c@[j] == cp[j]);
                        assert(cpd[j] == cp[j].deep_view());
                    }
                }
                assert(c.deep_view() =~= row.deep_view().subrange(0, k + 1));
            }
            k = k + 1;
        }
        assert(c.deep_view() =~= row.deep_view());
        let ghost prev = r@;
        let ghost prevd = r.deep_view();
        r.push(c);
        proof {
            assert forall|j: int| 0 <= j < i + 1 implies #[trigger] r.deep_view()[j] == v.deep_view()[j] by {
                assert(r.deep_view()[j] == r@[j].deep_view());
                assert(v.deep_view()[j] == v@[j].deep_view());
                if j < i {
                    assert(r@[j] == prev[j]);
                    assert(prevd[j] == prev[j].deep_view());
                }
            }
            assert(r.deep_view() =~= v.deep_view().subrange(0, i + 1));
        }
        i = i + 1;
    }
    assert(r.deep_view() =~= v.deep_view());
    r
}

impl PhysicalOperator {
    /// A full scan of one pattern.
    pub fn table_scan(pattern: TriplePattern) -> (r: PhysicalOperator)
        ensures
            r@ == (PhysicalM::TableScan { pattern: pattern@ }),
    {
        PhysicalOperator::TableScan { pattern }
    }

    /// An index scan of one pattern.
    pub fn index_scan(pattern: TriplePattern) -> (r: PhysicalOperator)
        ensures
            r@ == (PhysicalM::IndexScan { pattern: pattern@ }),
    {
        PhysicalOperator::IndexScan { pattern }
    }

    /// A filter over a plan.
    pub fn filter(input: PhysicalOperator, condition: Condition) -> (r: PhysicalOperator)
        ensures
            r@ == (PhysicalM::Filter { input: Box::new(input@), condition: condition@ }),
    {
        PhysicalOperator::Filter { input: Box::new(input), condition }
    }

    /// A projection of a plan.
    pub fn projection(input: PhysicalOperator, variables: Vec<String>) -> (r: PhysicalOperator)
        ensures
            r@ == (PhysicalM::Projection { input: Box::new(input@), variables: variables.deep_view() }),
    {
        PhysicalOperator::Projection { input: Box::new(input), variables }
    }

    /// A hash join.
    pub fn hash_join(left: PhysicalOperator, right: PhysicalOperator) -> (r: PhysicalOperator)
        ensures
            r@ == (PhysicalM::HashJoin { left: Box::new(left@), right: Box::new(right@) }),
    {
        PhysicalOperator::HashJoin { left: Box::new(left), right: Box::new(right) }
    }

    /// An optimized hash join.
    pub fn optimized_hash_join(left: PhysicalOperator, right: PhysicalOperator) -> (r: PhysicalOperator)
        ensures
            r@ == (PhysicalM::OptimizedHashJoin { left: Box::new(left@), right: Box::new(right@) }),
    {
        PhysicalOperator::OptimizedHashJoin { left: Box::new(left), right: Box::new(right) }
    }

    /// A nested-loop join.
    pub fn nested_loop_join(left: PhysicalOperator, right: PhysicalOperator) -> (r: PhysicalOperator)
        ensures
            r@ == (PhysicalM::NestedLoopJoin { left: Box::new(left@), right: Box::new(right@) }),
    {
        PhysicalOperator::NestedLoopJoin { left: Box::new(left), right: Box::new(right) }
    }

    /// A parallel join.
    pub fn parallel_join(left: PhysicalOperator, right: PhysicalOperator) -> (r: PhysicalOperator)
        ensures
            r@ == (PhysicalM::ParallelJoin { left: Box::new(left@), right: Box::new(right@) }),
    {
        PhysicalOperator::ParallelJoin { left: Box::new(left), right: Box::new(right) }
    }

    /// A subquery scope around a plan.
    pub fn subquery(inner: PhysicalOperator, projected_vars: Vec<String>) -> (r: PhysicalOperator)
        ensures
            r@ == (PhysicalM::Subquery { inner: Box::new(inner@), projected_vars: projected_vars.deep_view() }),
    {
        PhysicalOperator::Subquery { inner: Box::new(inner), projected_vars }
    }

    /// A BIND over a plan.
    pub fn bind(
        input: PhysicalOperator,
        function_name: String,
        arguments: Vec<String>,
        output_variable: String,
    ) -> (r: PhysicalOperator)
        ensures
            r@ == (PhysicalM::Bind {
                input: Box::new(input@),
                function_name: function_name@,
                arguments: arguments.deep_view(),
                output_variable: output_variable@,
            }),
    {
        PhysicalOperator::Bind { input: Box::new(input), function_name, arguments, output_variable }
    }

    /// A VALUES table.
    pub fn values(variables: Vec<String>, values: Vec<Vec<Option<String>>>) -> (r: PhysicalOperator)
        ensures
            r@ == (PhysicalM::Values { variables: variables.deep_view(), values: values.deep_view() }),
    {
        PhysicalOperator::Values { variables, values }
    }

    /// ML.PREDICT with a named model.
    pub fn ml_predict(
        input: PhysicalOperator,
        model_name: String,
        model_path: String,
        input_variables: Vec<String>,
        output_variable: String,
    ) -> (r: PhysicalOperator)
        ensures
            r@ == (PhysicalM::MLPredict {
                input: Box::new(input@),
                model_name: PhysGetterM::MLPredictPhysical(model_name@),
                model_path: model_path@,
                input_variables: input_variables.deep_view(),
                output_variable: output_variable@,
            }),
    {
        PhysicalOperator::MLPredict {
            input: Box::new(input),
            model_name: ModelGetterPhysical::MLPredictPhysical(model_name),
            model_path,
            input_variables,
            output_variable,
        }
    }

    /// A RUN clause with the models a retrieval plan found.
    pub fn run_ml_clause(
        input: PhysicalOperator,
        models: Vec<IdRow>,
        names: Vec<NameRow>,
        model_path: String,
        input_variables: Vec<String>,
        output_variable: String,
    ) -> (r: PhysicalOperator)
        ensures
            r@ == (PhysicalM::MLPredict {
                input: Box::new(input@),
                model_name: PhysGetterM::RunMLClausePhysical(models.deep_view(), names.deep_view()),
                model_path: model_path@,
                input_variables: input_variables.deep_view(),
                output_variable: output_variable@,
            }),
    {
        PhysicalOperator::MLPredict {
            input: Box::new(input),
            model_name: ModelGetterPhysical::RunMLClausePhysical(models, names),
            model_path,
            input_variables,
            output_variable,
        }
    }

    /// A copy of this plan.
    pub fn duplicate(&self) -> (r: PhysicalOperator)
        ensures
            r@ == self@,
        decreases self,
    {
        match self {
            PhysicalOperator::TableScan { pattern } => PhysicalOperator::TableScan {
                pattern: copy_pattern(pattern),
            },
            PhysicalOperator::IndexScan { pattern } => PhysicalOperator::IndexScan {
                pattern: copy_pattern(pattern),
            },
            PhysicalOperator::Filter { input, condition } => PhysicalOperator::Filter {
                input: Box::new(input.duplicate()),
                condition: copy_condition(condition),
            },
            PhysicalOperator::Projection { input, variables } => PhysicalOperator::Projection {
                input: Box::new(input.duplicate()),
                variables: copy_strings(variables),
            },
            PhysicalOperator::HashJoin { left, right } => PhysicalOperator::HashJoin {
                left: Box::new(left.duplicate()),
                right: Box::new(right.duplicate()),
            },
            PhysicalOperator::OptimizedHashJoin { left, right } => PhysicalOperator::OptimizedHashJoin {
                left: Box::new(left.duplicate()),
                right: Box::new(right.duplicate()),
            },
            PhysicalOperator::NestedLoopJoin { left, right } => PhysicalOperator::NestedLoopJoin {
                left: Box::new(left.duplicate()),
                right: Box::new(right.duplicate()),
            },
            PhysicalOperator::ParallelJoin { left, right } => PhysicalOperator::ParallelJoin {
                left: Box::new(left.duplicate()),
                right: Box::new(right.duplicate()),
            },
            PhysicalOperator::StarJoin { join_var, patterns } => PhysicalOperator::StarJoin {
                join_var: join_var.clone(),
                patterns: copy_patterns(patterns),
            },
            PhysicalOperator::InMemoryBuffer { content, origin } => PhysicalOperator::InMemoryBuffer {
                content: copy_triples(content),
                origin: origin.clone(),
            },
            PhysicalOperator::Bind { input, function_name, arguments, output_variable } =>
                PhysicalOperator::Bind {
                input: Box::new(input.duplicate()),
                function_name: function_name.clone(),
                arguments: copy_strings(arguments),
                output_variable: output_variable.clone(),
            },
            PhysicalOperator::MLPredict {
                input,
                model_name,
                model_path,
                input_variables,
                output_variable,
            } => {
                let m = match model_name {
                    ModelGetterPhysical::MLPredictPhysical(s) => ModelGetterPhysical::MLPredictPhysical(
                        s.clone(),
                    ),
                    ModelGetterPhysical::RunMLClausePhysical(ids, names) =>
                        ModelGetterPhysical::RunMLClausePhysical(copy_id_rows(ids), copy_name_rows(names)),
                };
                PhysicalOperator::MLPredict {
                    input: Box::new(input.duplicate()),
                    model_name: m,
                    model_path: model_path.clone(),
                    input_variables: copy_strings(input_variables),
                    output_variable: output_variable.clone(),
                }
            },
            PhysicalOperator::Values { variables, values } => PhysicalOperator::Values {
                variables: copy_strings(variables),
                values: copy_value_rows(values),
            },
            PhysicalOperator::Subquery { inner, projected_vars } => PhysicalOperator::Subquery {
                inner: Box::new(inner.duplicate()),
                projected_vars: copy_strings(projected_vars),
            },
        }
    }
}

} // verus!
