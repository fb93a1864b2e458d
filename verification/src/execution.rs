//! Evaluation of basic graph patterns: the physical plans made of scans,
//! joins, star joins and projections, over the triples of a database.

use vstd::prelude::*;
use crate::text::str_equal;
use crate::terms::{Term, TermM, TriplePattern, PatternM, Triple};
use crate::operators::{PhysicalOperator, PhysicalM, IdRow, IdRowM, NameRow, NameRowM, row_names_distinct};
use crate::database::SparqlDatabase;
use crate::dictionary::Dictionary;

verus! {

/// The id bound to a variable in a row (its last entry for that name).
pub open spec fn lookup(row: IdRowM, name: Seq<char>) -> Option<u32>
    decreases row.len(),
{
    if row.len() == 0 {
        None
    } else if row.last().0 == name {
        Some(row.last().1)
    } else {
        lookup(row.drop_last(), name)
    }
}

/// Extends a partial match with one term of a pattern against one id of a
/// triple: a constant must equal the id, a variable is bound to it or must
/// already be bound to it; a quoted triple matches no id.
pub open spec fn bind_term(row: Option<IdRowM>, t: TermM, id: u32) -> Option<IdRowM> {
    match row {
        None => None,
        Some(r) => match t {
            TermM::Variable(name) => match lookup(r, name) {
                Some(x) => if x == id {
                    Some(r)
                } else {
                    None
                },
                None => Some(r.push((name, id))),
            },
            TermM::Constant(c) => if c == id {
                Some(r)
            } else {
                None
            },
            TermM::QuotedTriple(_) => None,
        },
    }
}

/// The row that a triple gives a pattern, if it matches.
pub open spec fn match_triple(p: PatternM, t: Triple) -> Option<IdRowM> {
    bind_term(bind_term(bind_term(Some(Seq::empty()), p.0, t.subject), p.1, t.predicate), p.2, t.object)
}

/// The rows of a pattern over the triples, in triple order.
pub open spec fn scan_rows(ts: Seq<Triple>, p: PatternM) -> Seq<IdRowM>
    decreases ts.len(),
{
    if ts.len() == 0 {
        Seq::empty()
    } else {
        let prev = scan_rows(ts.drop_last(), p);
        match match_triple(p, ts.last()) {
            Some(r) => prev.push(r),
            None => prev,
        }
    }
}

/// The merge of two rows that agree on their shared variables.
pub open spec fn merge_rows(l: IdRowM, r: IdRowM) -> Option<IdRowM>
    decreases r.len(),
{
    if r.len() == 0 {
        Some(l)
    } else {
        match merge_rows(l, r.drop_last()) {
            None => None,
            Some(m) => match lookup(m, r.last().0) {
                Some(x) => if x == r.last().1 {
                    Some(m)
                } else {
                    None
                },
                None => Some(m.push(r.last())),
            },
        }
    }
}

/// The merges of one row with each compatible row of `rs`.
pub open spec fn join_with(l: IdRowM, rs: Seq<IdRowM>) -> Seq<IdRowM>
    decreases rs.len(),
{
    if rs.len() == 0 {
        Seq::empty()
    } else {
        let prev = join_with(l, rs.drop_last());
        match merge_rows(l, rs.last()) {
            Some(m) => prev.push(m),
            None => prev,
        }
    }
}

/// The join of two lists of rows: for each left row in order, its merges
/// with the right rows in order.
pub open spec fn join_rows(ls: Seq<IdRowM>, rs: Seq<IdRowM>) -> Seq<IdRowM>
    decreases ls.len(),
{
    if ls.len() == 0 {
        Seq::empty()
    } else {
        join_rows(ls.drop_last(), rs) + join_with(ls.last(), rs)
    }
}

/// The entries of a row whose variables are listed.
pub open spec fn project_row(row: IdRowM, vars: Seq<Seq<char>>) -> IdRowM
    decreases row.len(),
{
    if row.len() == 0 {
        Seq::empty()
    } else {
        let prev = project_row(row.drop_last(), vars);
        if vars.contains(row.last().0) {
            prev.push(row.last())
        } else {
            prev
        }
    }
}

/// The join of the rows of each pattern in turn, from the one empty row.
pub open spec fn star_rows(ts: Seq<Triple>, ps: Seq<PatternM>) -> Seq<IdRowM>
    decreases ps.len(),
{
    if ps.len() == 0 {
        seq![Seq::empty()]
    } else {
        join_rows(star_rows(ts, ps.drop_last()), scan_rows(ts, ps.last()))
    }
}

/// Whether a physical plan is a basic graph pattern: scans, joins, star joins
/// and projections only.
pub open spec fn is_bgp(op: PhysicalM) -> bool
    decreases op,
{
    match op {
        PhysicalM::TableScan { .. } => true,
        PhysicalM::IndexScan { .. } => true,
        PhysicalM::HashJoin { left, right } => is_bgp(*left) && is_bgp(*right),
        PhysicalM::OptimizedHashJoin { left, right } => is_bgp(*left) && is_bgp(*right),
        PhysicalM::NestedLoopJoin { left, right } => is_bgp(*left) && is_bgp(*right),
        PhysicalM::ParallelJoin { left, right } => is_bgp(*left) && is_bgp(*right),
        PhysicalM::StarJoin { .. } => true,
        PhysicalM::Projection { input, .. } => is_bgp(*input),
        _ => false,
    }
}

/// The rows of a basic graph pattern over the triples, with ids.
pub open spec fn solutions(ts: Seq<Triple>, op: PhysicalM) -> Seq<IdRowM>
    decreases op,
{
    match op {
        PhysicalM::TableScan { pattern } => scan_rows(ts, pattern),
        PhysicalM::IndexScan { pattern } => scan_rows(ts, pattern),
        PhysicalM::HashJoin { left, right } => join_rows(solutions(ts, *left), solutions(ts, *right)),
        PhysicalM::OptimizedHashJoin { left, right } => join_rows(solutions(ts, *left), solutions(ts, *right)),
        PhysicalM::NestedLoopJoin { left, right } => join_rows(solutions(ts, *left), solutions(ts, *right)),
        PhysicalM::ParallelJoin { left, right } => join_rows(solutions(ts, *left), solutions(ts, *right)),
        PhysicalM::StarJoin { patterns, .. } => star_rows(ts, patterns),
        PhysicalM::Projection { input, variables } => solutions(ts, *input).map_values(
            |r: IdRowM| project_row(r, variables),
        ),
        _ => Seq::empty(),
    }
}

/// The id bound to a variable in a row.
pub(crate) fn lookup_id(row: &IdRow, name: &str) -> (r: Option<u32>)
    ensures
        r == lookup(row.deep_view(), name@),
{
    let ghost m = row.deep_view();
    let mut i: usize = row.len();
    assert(m.take(m.len() as int) =~= m);
    while i > 0
        invariant
            i <= row@.len(),
            m == row.deep_view(),
            lookup(m, name@) == lookup(m.take(i as int), name@),
        decreases i,
    {
        let ghost t = m.take(i as int);
        assert(t.last() == m[i - 1]);
        assert(m[i - 1] == (row@[i - 1].0@, row@[i - 1].1));
        assert(t.drop_last() =~= m.take(i - 1));
        if str_equal(row[i - 1].0.as_str(), name) {
            return Some(row[i - 1].1);
        }
        i = i - 1;
    }
    None
}

/// Extends a row with one term of a pattern against one id.
fn bind_term_exec(row: IdRow, t: &Term, id: u32) -> (r: Option<IdRow>)
    ensures
        match r {
            Some(x) => bind_term(Some(row.deep_view()), t@, id) == Some(x.deep_view()),
            None => bind_term(Some(row.deep_view()), t@, id) is None,
        },
{
    match t {
        Term::Variable(name) => match lookup_id(&row, name.as_str()) {
            Some(x) => if x == id {
                Some(row)
            } else {
                None
            },
            None => {
                let ghost before = row.deep_view();
                let mut row = row;
                row.push((name.clone(), id));
                assert(row.deep_view() =~= before.push((name@, id)));
                Some(row)
            },
        },
        Term::Constant(c) => if *c == id {
            Some(row)
        } else {
            None
        },
        Term::QuotedTriple(_) => None,
    }
}

/// The row that a triple gives a pattern, if it matches.
fn match_triple_exec(p: &TriplePattern, t: Triple) -> (r: Option<IdRow>)
    ensures
        match r {
            Some(x) => match_triple(p@, t) == Some(x.deep_view()),
            None => match_triple(p@, t) is None,
        },
{
    let empty: IdRow = Vec::new();
    assert(empty.deep_view() =~= Seq::<(Seq<char>, u32)>::empty());
    match bind_term_exec(empty, &p.0, t.subject) {
        None => None,
        Some(r1) => match bind_term_exec(r1, &p.1, t.predicate) {
            None => None,
            Some(r2) => bind_term_exec(r2, &p.2, t.object),
        },
    }
}

/// The rows of a pattern over the triples.
fn scan_exec(ts: &Vec<Triple>, p: &TriplePattern) -> (r: Vec<IdRow>)
    ensures
        r.deep_view() == scan_rows(ts@, p@),
{
    let mut rows: Vec<IdRow> = Vec::new();
    let mut i: usize = 0;
    while i < ts.len()
        invariant
            i <= ts@.len(),
            rows.deep_view() == scan_rows(ts@.take(i as int), p@),
        decreases ts@.len() - i,
    {
        assert(ts@.take(i + 1).drop_last() =~= ts@.take(i as int));
        assert(ts@.take(i + 1).last() == ts@[i as int]);
        match match_triple_exec(p, ts[i]) {
            Some(row) => {
                let ghost before = rows.deep_view();
                let ghost rm = row.deep_view();
                rows.push(row);
                assert(rows.deep_view() =~= before.push(rm)) by {
                    assert(rows.deep_view().last() == rows@.last().deep_view());
                };
            },
            None => {},
        }
        i = i + 1;
    }
    assert(ts@.take(ts@.len() as int) =~= ts@);
    rows
}

/// A copy of one row.
fn copy_row(row: &IdRow) -> (r: IdRow)
    ensures
        r.deep_view() == row.deep_view(),
{
    let ghost m = row.deep_view();
    let mut r: IdRow = Vec::new();
    let mut i: usize = 0;
    while i < row.len()
        invariant
            i <= row@.len(),
            m == row.deep_view(),
            r.deep_view() == m.take(i as int),
        decreases row@.len() - i,
    {
        let ghost before = r.deep_view();
        r.push((row[i].0.clone(), row[i].1));
        assert(r.deep_view() =~= before.push(m[i as int]));
        assert(m.take(i + 1) =~= m.take(i as int).push(m[i as int]));
        i = i + 1;
    }
    assert(m.take(row@.len() as int) =~= m);
    r
}

/// The merge of two rows that agree on their shared variables.
fn merge_exec(l: &IdRow, r: &IdRow) -> (res: Option<IdRow>)
    ensures
        match res {
            Some(x) => merge_rows(l.deep_view(), r.deep_view()) == Some(x.deep_view()),
            None => merge_rows(l.deep_view(), r.deep_view()) is None,
        },
{
    let ghost rm = r.deep_view();
    let mut m = copy_row(l);
    let mut i: usize = 0;
    while i < r.len()
        invariant
            i <= r@.len(),
            rm == r.deep_view(),
            merge_rows(l.deep_view(), rm.take(i as int)) == Some(m.deep_view()),
        decreases r@.len() - i,
    {
        let ghost t = rm.take(i + 1);
        assert(t.drop_last() =~= rm.take(i as int));
        assert(t.last() == rm[i as int]);
        assert(rm[i as int] == (r@[i as int].0@, r@[i as int].1));
        match lookup_id(&m, r[i].0.as_str()) {
            Some(x) => {
                if x != r[i].1 {
                    proof {
                        lemma_merge_none_stays(l.deep_view(), rm, i as int + 1);
                    }
                    return None;
                }
            },
            None => {
                let ghost before = m.deep_view();
                m.push((r[i].0.clone(), r[i].1));
                assert(m.deep_view() =~= before.push(rm[i as int]));
            },
        }
        i = i + 1;
    }
    assert(rm.take(r@.len() as int) =~= rm);
    Some(m)
}

/// Once two rows disagree, longer right rows disagree too.
proof fn lemma_merge_none_stays(l: IdRowM, rm: Seq<(Seq<char>, u32)>, k: int)
    requires
        0 <= k <= rm.len(),
        merge_rows(l, rm.take(k)) is None,
    ensures
        merge_rows(l, rm) is None,
    decreases rm.len() - k,
{
    if k < rm.len() {
        assert(rm.take(k + 1).drop_last() =~= rm.take(k));
        lemma_merge_none_stays(l, rm, k + 1);
    } else {
        assert(rm.take(k) =~= rm);
    }
}

/// The join of two lists of rows.
fn join_exec(ls: &Vec<IdRow>, rs: &Vec<IdRow>) -> (r: Vec<IdRow>)
    ensures
        r.deep_view() == join_rows(ls.deep_view(), rs.deep_view()),
{
    let ghost lm = ls.deep_view();
    let ghost rm = rs.deep_view();
    let mut out: Vec<IdRow> = Vec::new();
    let mut a: usize = 0;
    while a < ls.len()
        invariant
            a <= ls@.len(),
            lm == ls.deep_view(),
            rm == rs.deep_view(),
            out.deep_view() == join_rows(lm.take(a as int), rm),
        decreases ls@.len() - a,
    {
        let ghost base = out.deep_view();
        let ghost lrow = lm[a as int];
        assert(lrow == ls@[a as int].deep_view());
        let mut b: usize = 0;
        while b < rs.len()
            invariant
                b <= rs@.len(),
                a < ls@.len(),
                lm == ls.deep_view(),
                rm == rs.deep_view(),
                lrow == ls@[a as int].deep_view(),
                out.deep_view() == base + join_with(lrow, rm.take(b as int)),
            decreases rs@.len() - b,
        {
            assert(rm.take(b + 1).drop_last() =~= rm.take(b as int));
            assert(rm.take(b + 1).last() == rm[b as int]);
            assert(rm[b as int] == rs@[b as int].deep_view());
            match merge_exec(&ls[a], &rs[b]) {
                Some(m) => {
                    let ghost before = out.deep_view();
                    let ghost mm = m.deep_view();
                    out.push(m);
                    assert(out.deep_view() =~= before.push(mm)) by {
                        assert(out.deep_view().last() == out@.last().deep_view());
                    };
                    assert(base + join_with(lrow, rm.take(b + 1)) =~= (base + join_with(lrow, rm.take(b as int))).push(
                        mm,
                    ));
                },
                None => {},
            }
            b = b + 1;
        }
        assert(rm.take(rs@.len() as int) =~= rm);
        assert(lm.take(a + 1).drop_last() =~= lm.take(a as int));
        assert(lm.take(a + 1).last() == lrow);
        a = a + 1;
    }
    assert(lm.take(ls@.len() as int) =~= lm);
    out
}

/// The entries of a row whose variables are listed.
fn project_row_exec(row: &IdRow, vars: &Vec<String>) -> (r: IdRow)
    ensures
        r.deep_view() == project_row(row.deep_view(), vars.deep_view()),
{
    let ghost m = row.deep_view();
    let ghost vm = vars.deep_view();
    let mut r: IdRow = Vec::new();
    let mut i: usize = 0;
    while i < row.len()
        invariant
            i <= row@.len(),
            m == row.deep_view(),
            vm == vars.deep_view(),
            r.deep_view() == project_row(m.take(i as int), vm),
        decreases row@.len() - i,
    {
        assert(m.take(i + 1).drop_last() =~= m.take(i as int));
        assert(m.take(i + 1).last() == m[i as int]);
        assert(m[i as int] == (row@[i as int].0@, row@[i as int].1));
        let mut listed = false;
        let mut j: usize = 0;
        while j < vars.len()
            invariant
                j <= vars@.len(),
                vm == vars.deep_view(),
                i < row@.len(),
                listed == (exists|k: int| 0 <= k < j && vm[k] == row@[i as int].0@),
            decreases vars@.len() - j,
        {
            assert(vm[j as int] == vars@[j as int]@);
            if str_equal(vars[j].as_str(), row[i].0.as_str()) {
                listed = true;
            }
            j = j + 1;
        }
        assert(listed == vm.contains(m[i as int].0));
        if listed {
            let ghost before = r.deep_view();
            r.push((row[i].0.clone(), row[i].1));
            assert(r.deep_view() =~= before.push(m[i as int]));
        }
        i = i + 1;
    }
    assert(m.take(row@.len() as int) =~= m);
    r
}

/// The rows of a star: the join of its patterns' rows.
fn star_exec(ts: &Vec<Triple>, ps: &Vec<TriplePattern>) -> (r: Vec<IdRow>)
    ensures
        r.deep_view() == star_rows(ts@, ps.deep_view()),
{
    let ghost pm = ps.deep_view();
    let mut rows: Vec<IdRow> = Vec::new();
    let empty: IdRow = Vec::new();
    assert(empty.deep_view() =~= Seq::<(Seq<char>, u32)>::empty());
    rows.push(empty);
    assert(rows.deep_view() =~= seq![Seq::<(Seq<char>, u32)>::empty()]) by {
        assert(rows.deep_view()[0] == rows@[0].deep_view());
    };
    assert(pm.take(0) =~= Seq::<PatternM>::empty());
    let mut i: usize = 0;
    while i < ps.len()
        invariant
            i <= ps@.len(),
            pm == ps.deep_view(),
            rows.deep_view() == star_rows(ts@, pm.take(i as int)),
        decreases ps@.len() - i,
    {
        assert(pm.take(i + 1).drop_last() =~= pm.take(i as int));
        assert(pm.take(i + 1).last() == pm[i as int]);
        assert(pm[i as int] == ps@[i as int]@);
        let scanned = scan_exec(ts, &ps[i]);
        rows = join_exec(&rows, &scanned);
        i = i + 1;
    }
    assert(pm.take(ps@.len() as int) =~= pm);
    rows
}

/// The rows, with ids, of a basic graph pattern over the triples of a
/// database; `None` for a plan with another operator.
pub fn execute_with_ids(plan: &PhysicalOperator, database: &SparqlDatabase) -> (r: Option<Vec<IdRow>>)
    ensures
        match r {
            Some(rows) => is_bgp(plan@) && rows.deep_view() == solutions(database.triples@, plan@)
                && rows_names_distinct(rows.deep_view()),
            None => !is_bgp(plan@),
        },
    decreases plan,
{
    proof {
        lemma_solutions_names_distinct(database.triples@, plan@);
    }
    match plan {
        PhysicalOperator::TableScan { pattern } => Some(scan_exec(&database.triples, pattern)),
        PhysicalOperator::IndexScan { pattern } => Some(scan_exec(&database.triples, pattern)),
        PhysicalOperator::HashJoin { left, right } | PhysicalOperator::OptimizedHashJoin { left, right }
        | PhysicalOperator::NestedLoopJoin { left, right } | PhysicalOperator::ParallelJoin { left, right } => {
            match (execute_with_ids(left, database), execute_with_ids(right, database)) {
                (Some(a), Some(b)) => Some(join_exec(&a, &b)),
                _ => None,
            }
        },
        PhysicalOperator::StarJoin { patterns, .. } => Some(star_exec(&database.triples, patterns)),
        PhysicalOperator::Projection { input, variables } => match execute_with_ids(input, database) {
            Some(rows) => {
                let ghost rm = rows.deep_view();
                let ghost vm = variables.deep_view();
                let mut out: Vec<IdRow> = Vec::new();
                let mut i: usize = 0;
                while i < rows.len()
                    invariant
                        i <= rows@.len(),
                        rm == rows.deep_view(),
                        vm == variables.deep_view(),
                        out.deep_view() == rm.take(i as int).map_values(|r: IdRowM| project_row(r, vm)),
                    decreases rows@.len() - i,
                {
                    let p = project_row_exec(&rows[i], variables);
                    assert(rm[i as int] == rows@[i as int].deep_view());
                    let ghost before = out.deep_view();
                    out.push(p);
                    assert(out.deep_view() =~= before.push(project_row(rm[i as int], vm))) by {
                        assert(out.deep_view().last() == out@.last().deep_view());
                    };
                    assert(rm.take(i + 1).map_values(|r: IdRowM| project_row(r, vm)) =~= rm.take(
                        i as int,
                    ).map_values(|r: IdRowM| project_row(r, vm)).push(project_row(rm[i as int], vm)));
                    i = i + 1;
                }
                assert(rm.take(rows@.len() as int) =~= rm);
                Some(out)
            },
            None => None,
        },
        _ => None,
    }
}

/// Every id of a row is below `n`.
pub open spec fn row_ids_below(row: IdRowM, n: nat) -> bool {
    forall|j: int| 0 <= j < row.len() ==> #[trigger] row[j].1 < n
}

/// Every id of every row is below `n`.
pub open spec fn rows_ids_below(rows: Seq<IdRowM>, n: nat) -> bool {
    forall|i: int| 0 <= i < rows.len() ==> row_ids_below(#[trigger] rows[i], n)
}

/// Every id of every triple is below `n`.
pub open spec fn triples_ids_below(ts: Seq<Triple>, n: nat) -> bool {
    forall|i: int|
        0 <= i < ts.len() ==> (#[trigger] ts[i]).subject < n && ts[i].predicate < n && ts[i].object < n
}

/// A row with each id replaced by the string it encodes.
pub open spec fn decode_row(dict: Seq<Seq<char>>, row: IdRowM) -> NameRowM {
    row.map_values(|e: (Seq<char>, u32)| (e.0, dict[e.1 as int]))
}

/// Rows with each id replaced by the string it encodes.
pub open spec fn decode_rows(dict: Seq<Seq<char>>, rows: Seq<IdRowM>) -> Seq<NameRowM> {
    rows.map_values(|r: IdRowM| decode_row(dict, r))
}

proof fn lemma_bind_below(row: Option<IdRowM>, t: TermM, id: u32, n: nat)
    requires
        row matches Some(r) ==> row_ids_below(r, n),
        id < n,
    ensures
        bind_term(row, t, id) matches Some(r) ==> row_ids_below(r, n),
{
    match row {
        Some(r) => match t {
            TermM::Variable(name) => {
                if lookup(r, name) is None {
                    assert forall|j: int| 0 <= j < r.push((name, id)).len() implies #[trigger] r.push(
                        (name, id),
                    )[j].1 < n by {
                        if j < r.len() {
                            assert(r.push((name, id))[j] == r[j]);
                        }
                    }
                }
            },
            _ => {},
        },
        None => {},
    }
}

proof fn lemma_scan_below(ts: Seq<Triple>, p: PatternM, n: nat)
    requires
        triples_ids_below(ts, n),
    ensures
        rows_ids_below(scan_rows(ts, p), n),
    decreases ts.len(),
{
    if ts.len() > 0 {
        let u = ts.drop_last();
        assert forall|i: int| 0 <= i < u.len() implies (#[trigger] u[i]).subject < n && u[i].predicate < n
            && u[i].object < n by {
            assert(u[i] == ts[i]);
        }
        lemma_scan_below(u, p, n);
        let t = ts.last();
        assert(ts[ts.len() - 1] == t);
        let e: IdRowM = Seq::empty();
        lemma_bind_below(Some(e), p.0, t.subject, n);
        lemma_bind_below(bind_term(Some(e), p.0, t.subject), p.1, t.predicate, n);
        lemma_bind_below(
            bind_term(bind_term(Some(e), p.0, t.subject), p.1, t.predicate),
            p.2,
            t.object,
            n,
        );
        let prev = scan_rows(u, p);
        match match_triple(p, t) {
            Some(r) => {
                assert forall|i: int| 0 <= i < prev.push(r).len() implies row_ids_below(
                    #[trigger] prev.push(r)[i],
                    n,
                ) by {
                    if i < prev.len() {
                        assert(prev.push(r)[i] == prev[i]);
                    }
                }
            },
            None => {},
        }
    }
}

proof fn lemma_merge_below(l: IdRowM, r: IdRowM, n: nat)
    requires
        row_ids_below(l, n),
        row_ids_below(r, n),
    ensures
        merge_rows(l, r) matches Some(m) ==> row_ids_below(m, n),
    decreases r.len(),
{
    if r.len() > 0 {
        let u = r.drop_last();
        assert forall|j: int| 0 <= j < u.len() implies #[trigger] u[j].1 < n by {
            assert(u[j] == r[j]);
        }
        lemma_merge_below(l, u, n);
        assert(r[r.len() - 1] == r.last());
        match merge_rows(l, u) {
            Some(m) => {
                assert forall|j: int| 0 <= j < m.push(r.last()).len() implies #[trigger] m.push(r.last())[j].1
                    < n by {
                    if j < m.len() {
                        assert(m.push(r.last())[j] == m[j]);
                    }
                }
            },
            None => {},
        }
    }
}

proof fn lemma_join_with_below(l: IdRowM, rs: Seq<IdRowM>, n: nat)
    requires
        row_ids_below(l, n),
        rows_ids_below(rs, n),
    ensures
        rows_ids_below(join_with(l, rs), n),
    decreases rs.len(),
{
    if rs.len() > 0 {
        let u = rs.drop_last();
        assert forall|i: int| 0 <= i < u.len() implies row_ids_below(#[trigger] u[i], n) by {
            assert(u[i] == rs[i]);
        }
        lemma_join_with_below(l, u, n);
        assert(row_ids_below(rs[rs.len() - 1], n));
        lemma_merge_below(l, rs.last(), n);
        let prev = join_with(l, u);
        match merge_rows(l, rs.last()) {
            Some(m) => {
                assert forall|i: int| 0 <= i < prev.push(m).len() implies row_ids_below(
                    #[trigger] prev.push(m)[i],
                    n,
                ) by {
                    if i < prev.len() {
                        assert(prev.push(m)[i] == prev[i]);
                    }
                }
            },
            None => {},
        }
    }
}

proof fn lemma_join_below(ls: Seq<IdRowM>, rs: Seq<IdRowM>, n: nat)
    requires
        rows_ids_below(ls, n),
        rows_ids_below(rs, n),
    ensures
        rows_ids_below(join_rows(ls, rs), n),
    decreases ls.len(),
{
    if ls.len() > 0 {
        let u = ls.drop_last();
        assert forall|i: int| 0 <= i < u.len() implies row_ids_below(#[trigger] u[i], n) by {
            assert(u[i] == ls[i]);
        }
        lemma_join_below(u, rs, n);
        assert(row_ids_below(ls[ls.len() - 1], n));
        lemma_join_with_below(ls.last(), rs, n);
        let a = join_rows(u, rs);
        let b = join_with(ls.last(), rs);
        assert forall|i: int| 0 <= i < (a + b).len() implies row_ids_below(#[trigger] (a + b)[i], n) by {
            if i < a.len() {
                assert((a + b)[i] == a[i]);
            } else {
                assert((a + b)[i] == b[i - a.len()]);
            }
        }
    }
}

proof fn lemma_star_below(ts: Seq<Triple>, ps: Seq<PatternM>, n: nat)
    requires
        triples_ids_below(ts, n),
    ensures
        rows_ids_below(star_rows(ts, ps), n),
    decreases ps.len(),
{
    if ps.len() > 0 {
        lemma_star_below(ts, ps.drop_last(), n);
        lemma_scan_below(ts, ps.last(), n);
        lemma_join_below(star_rows(ts, ps.drop_last()), scan_rows(ts, ps.last()), n);
    } else {
        let e: IdRowM = Seq::empty();
        assert(star_rows(ts, ps) == seq![e]);
        assert(row_ids_below(e, n));
    }
}

proof fn lemma_project_below(row: IdRowM, vars: Seq<Seq<char>>, n: nat)
    requires
        row_ids_below(row, n),
    ensures
        row_ids_below(project_row(row, vars), n),
    decreases row.len(),
{
    if row.len() > 0 {
        let u = row.drop_last();
        assert forall|j: int| 0 <= j < u.len() implies #[trigger] u[j].1 < n by {
            assert(u[j] == row[j]);
        }
        lemma_project_below(u, vars, n);
        assert(row[row.len() - 1] == row.last());
        let prev = project_row(u, vars);
        assert forall|j: int| 0 <= j < prev.push(row.last()).len() implies #[trigger] prev.push(row.last())[j].1
            < n by {
            if j < prev.len() {
                assert(prev.push(row.last())[j] == prev[j]);
            }
        }
    }
}

/// The rows of a basic graph pattern hold only ids of the triples.
pub proof fn lemma_solutions_below(ts: Seq<Triple>, op: PhysicalM, n: nat)
    requires
        triples_ids_below(ts, n),
    ensures
        rows_ids_below(solutions(ts, op), n),
    decreases op,
{
    match op {
        PhysicalM::TableScan { pattern } => lemma_scan_below(ts, pattern, n),
        PhysicalM::IndexScan { pattern } => lemma_scan_below(ts, pattern, n),
        PhysicalM::HashJoin { left, right } => {
            lemma_solutions_below(ts, *left, n);
            lemma_solutions_below(ts, *right, n);
            lemma_join_below(solutions(ts, *left), solutions(ts, *right), n);
        },
        PhysicalM::OptimizedHashJoin { left, right } => {
            lemma_solutions_below(ts, *left, n);
            lemma_solutions_below(ts, *right, n);
            lemma_join_below(solutions(ts, *left), solutions(ts, *right), n);
        },
        PhysicalM::NestedLoopJoin { left, right } => {
            lemma_solutions_below(ts, *left, n);
            lemma_solutions_below(ts, *right, n);
            lemma_join_below(solutions(ts, *left), solutions(ts, *right), n);
        },
        PhysicalM::ParallelJoin { left, right } => {
            lemma_solutions_below(ts, *left, n);
            lemma_solutions_below(ts, *right, n);
            lemma_join_below(solutions(ts, *left), solutions(ts, *right), n);
        },
        PhysicalM::StarJoin { patterns, .. } => lemma_star_below(ts, patterns, n),
        PhysicalM::Projection { input, variables } => {
            lemma_solutions_below(ts, *input, n);
            let rows = solutions(ts, *input);
            let out = rows.map_values(|r: IdRowM| project_row(r, variables));
            assert forall|i: int| 0 <= i < out.len() implies row_ids_below(#[trigger] out[i], n) by {
                assert(row_ids_below(rows[i], n));
                lemma_project_below(rows[i], variables, n);
            }
        },
        _ => {},
    }
}

/// Rows with each id replaced by the string it encodes.
pub fn decode_rows_exec(dict: &Dictionary, rows: &Vec<IdRow>) -> (r: Vec<NameRow>)
    requires
        rows_ids_below(rows.deep_view(), dict@.len()),
    ensures
        r.deep_view() == decode_rows(dict@, rows.deep_view()),
{
    let ghost rm = rows.deep_view();
    let ghost d = dict@;
    let mut out: Vec<NameRow> = Vec::new();
    let mut i: usize = 0;
    while i < rows.len()
        invariant
            i <= rows@.len(),
            rm == rows.deep_view(),
            d == dict@,
            rows_ids_below(rm, d.len()),
            out.deep_view() == decode_rows(d, rm.take(i as int)),
        decreases rows@.len() - i,
    {
        let row = &rows[i];
        let ghost em = row.deep_view();
        assert(rm[i as int] == em);
        assert(row_ids_below(rm[i as int], d.len()));
        let mut named: NameRow = Vec::new();
        let mut j: usize = 0;
        while j < row.len()
            invariant
                j <= row@.len(),
                em == row.deep_view(),
                d == dict@,
                row_ids_below(em, d.len()),
                named.deep_view() == decode_row(d, em.take(j as int)),
            decreases row@.len() - j,
        {
            assert(em[j as int] == (row@[j as int].0@, row@[j as int].1));
            assert(em[j as int].1 < d.len());
            let value = match dict.decode(row[j].1) {
                Some(v) => v.clone(),
                None => String::new(),
            };
            let ghost before = named.deep_view();
            named.push((row[j].0.clone(), value));
            assert(named.deep_view() =~= before.push((em[j as int].0, d[em[j as int].1 as int])));
            assert(decode_row(d, em.take(j + 1)) =~= decode_row(d, em.take(j as int)).push(
                (em[j as int].0, d[em[j as int].1 as int]),
            ));
            j = j + 1;
        }
        assert(em.take(row@.len() as int) =~= em);
        let ghost before = out.deep_view();
        let ghost nm = named.deep_view();
        out.push(named);
        assert(out.deep_view() =~= before.push(nm)) by {
            assert(out.deep_view().last() == out@.last().deep_view());
        };
        assert(decode_rows(d, rm.take(i + 1)) =~= decode_rows(d, rm.take(i as int)).push(decode_row(d, em)));
        i = i + 1;
    }
    assert(rm.take(rows@.len() as int) =~= rm);
    out
}

/// Every row names each variable once.
pub open spec fn rows_names_distinct(rows: Seq<IdRowM>) -> bool {
    forall|i: int| 0 <= i < rows.len() ==> row_names_distinct(#[trigger] rows[i])
}

/// A row binds no variable that `lookup` does not find.
proof fn lemma_lookup_none(row: IdRowM, name: Seq<char>)
    requires
        lookup(row, name) is None,
    ensures
        forall|j: int| 0 <= j < row.len() ==> #[trigger] row[j].0 != name,
    decreases row.len(),
{
    if row.len() > 0 {
        lemma_lookup_none(row.drop_last(), name);
        assert forall|j: int| 0 <= j < row.len() implies #[trigger] row[j].0 != name by {
            if j < row.len() - 1 {
                assert(row[j] == row.drop_last()[j]);
            }
        }
    }
}

/// Adding an entry for a variable the row does not bind keeps names distinct.
proof fn lemma_push_distinct(row: IdRowM, e: (Seq<char>, u32))
    requires
        row_names_distinct(row),
        lookup(row, e.0) is None,
    ensures
        row_names_distinct(row.push(e)),
{
    lemma_lookup_none(row, e.0);
    assert forall|i: int, j: int| 0 <= i < j < row.push(e).len() implies row.push(e)[i].0 != row.push(e)[j].0 by {
        assert(row.push(e)[i] == row[i]);
        if j < row.len() {
            assert(row.push(e)[j] == row[j]);
        }
    }
}

proof fn lemma_bind_distinct(row: Option<IdRowM>, t: TermM, id: u32)
    requires
        row matches Some(r) ==> row_names_distinct(r),
    ensures
        bind_term(row, t, id) matches Some(r) ==> row_names_distinct(r),
{
    match row {
        Some(r) => match t {
            TermM::Variable(name) => {
                if lookup(r, name) is None {
                    lemma_push_distinct(r, (name, id));
                }
            },
            _ => {},
        },
        None => {},
    }
}

proof fn lemma_scan_distinct(ts: Seq<Triple>, p: PatternM)
    ensures
        rows_names_distinct(scan_rows(ts, p)),
    decreases ts.len(),
{
    if ts.len() > 0 {
        lemma_scan_distinct(ts.drop_last(), p);
        let t = ts.last();
        let e: IdRowM = Seq::empty();
        lemma_bind_distinct(Some(e), p.0, t.subject);
        lemma_bind_distinct(bind_term(Some(e), p.0, t.subject), p.1, t.predicate);
        lemma_bind_distinct(bind_term(bind_term(Some(e), p.0, t.subject), p.1, t.predicate), p.2, t.object);
        let prev = scan_rows(ts.drop_last(), p);
        match match_triple(p, t) {
            Some(r) => {
                assert forall|i: int| 0 <= i < prev.push(r).len() implies row_names_distinct(#[trigger] prev.push(r)[i]) by {
                    if i < prev.len() {
                        assert(prev.push(r)[i] == prev[i]);
                    }
                }
            },
            None => {},
        }
    }
}

proof fn lemma_merge_distinct(l: IdRowM, r: IdRowM)
    requires
        row_names_distinct(l),
    ensures
        merge_rows(l, r) matches Some(m) ==> row_names_distinct(m),
    decreases r.len(),
{
    if r.len() > 0 {
        lemma_merge_distinct(l, r.drop_last());
        match merge_rows(l, r.drop_last()) {
            Some(m) => {
                if lookup(m, r.last().0) is None {
                    lemma_push_distinct(m, r.last());
                }
            },
            None => {},
        }
    }
}

proof fn lemma_join_with_distinct(l: IdRowM, rs: Seq<IdRowM>)
    requires
        row_names_distinct(l),
    ensures
        rows_names_distinct(join_with(l, rs)),
    decreases rs.len(),
{
    if rs.len() > 0 {
        lemma_join_with_distinct(l, rs.drop_last());
        lemma_merge_distinct(l, rs.last());
        let prev = join_with(l, rs.drop_last());
        match merge_rows(l, rs.last()) {
            Some(m) => {
                assert forall|i: int| 0 <= i < prev.push(m).len() implies row_names_distinct(#[trigger] prev.push(m)[i]) by {
                    if i < prev.len() {
                        assert(prev.push(m)[i] == prev[i]);
                    }
                }
            },
            None => {},
        }
    }
}

proof fn lemma_join_distinct(ls: Seq<IdRowM>, rs: Seq<IdRowM>)
    requires
        rows_names_distinct(ls),
    ensures
        rows_names_distinct(join_rows(ls, rs)),
    decreases ls.len(),
{
    if ls.len() > 0 {
        let u = ls.drop_last();
        assert forall|i: int| 0 <= i < u.len() implies row_names_distinct(#[trigger] u[i]) by {
            assert(u[i] == ls[i]);
        }
        lemma_join_distinct(u, rs);
        assert(row_names_distinct(ls[ls.len() - 1]));
        lemma_join_with_distinct(ls.last(), rs);
        let a = join_rows(u, rs);
        let b = join_with(ls.last(), rs);
        assert forall|i: int| 0 <= i < (a + b).len() implies row_names_distinct(#[trigger] (a + b)[i]) by {
            if i < a.len() {
                assert((a + b)[i] == a[i]);
            } else {
                assert((a + b)[i] == b[i - a.len()]);
            }
        }
    }
}

proof fn lemma_star_distinct(ts: Seq<Triple>, ps: Seq<PatternM>)
    ensures
        rows_names_distinct(star_rows(ts, ps)),
    decreases ps.len(),
{
    if ps.len() > 0 {
        lemma_star_distinct(ts, ps.drop_last());
        lemma_join_distinct(star_rows(ts, ps.drop_last()), scan_rows(ts, ps.last()));
    } else {
        let e: IdRowM = Seq::empty();
        assert(star_rows(ts, ps) == seq![e]);
    }
}

proof fn lemma_project_distinct(row: IdRowM, vars: Seq<Seq<char>>)
    requires
        row_names_distinct(row),
    ensures
        row_names_distinct(project_row(row, vars)),
        forall|j: int| 0 <= j < project_row(row, vars).len() ==> row.contains(#[trigger] project_row(row, vars)[j]),
    decreases row.len(),
{
    if row.len() > 0 {
        let u = row.drop_last();
        assert forall|i: int, j: int| 0 <= i < j < u.len() implies u[i].0 != u[j].0 by {
            assert(u[i] == row[i] && u[j] == row[j]);
        }
        lemma_project_distinct(u, vars);
        let prev = project_row(u, vars);
        let x = row.last();
        assert(row[row.len() - 1] == x);
        assert forall|j: int| 0 <= j < prev.len() implies row.contains(#[trigger] prev[j]) && prev[j].0 != x.0 by {
            let w = choose|w: int| 0 <= w < u.len() && u[w] == prev[j];
            assert(row[w] == prev[j]);
        }
        if vars.contains(x.0) {
            let n = prev.push(x);
            assert forall|i: int, j: int| 0 <= i < j < n.len() implies n[i].0 != n[j].0 by {
                assert(n[i] == prev[i]);
                if j < prev.len() {
                    assert(n[j] == prev[j]);
                }
            }
            assert forall|j: int| 0 <= j < n.len() implies row.contains(#[trigger] n[j]) by {
                if j < prev.len() {
                    assert(n[j] == prev[j]);
                }
            }
        }
    }
}

/// Every row of a basic graph pattern names each variable once.
pub proof fn lemma_solutions_names_distinct(ts: Seq<Triple>, op: PhysicalM)
    ensures
        rows_names_distinct(solutions(ts, op)),
    decreases op,
{
    match op {
        PhysicalM::TableScan { pattern } => lemma_scan_distinct(ts, pattern),
        PhysicalM::IndexScan { pattern } => lemma_scan_distinct(ts, pattern),
        PhysicalM::HashJoin { left, right } => {
            lemma_solutions_names_distinct(ts, *left);
            lemma_join_distinct(solutions(ts, *left), solutions(ts, *right));
        },
        PhysicalM::OptimizedHashJoin { left, right } => {
            lemma_solutions_names_distinct(ts, *left);
            lemma_join_distinct(solutions(ts, *left), solutions(ts, *right));
        },
        PhysicalM::NestedLoopJoin { left, right } => {
            lemma_solutions_names_distinct(ts, *left);
            lemma_join_distinct(solutions(ts, *left), solutions(ts, *right));
        },
        PhysicalM::ParallelJoin { left, right } => {
            lemma_solutions_names_distinct(ts, *left);
            lemma_join_distinct(solutions(ts, *left), solutions(ts, *right));
        },
        PhysicalM::StarJoin { patterns, .. } => lemma_star_distinct(ts, patterns),
        PhysicalM::Projection { input, variables } => {
            lemma_solutions_names_distinct(ts, *input);
            let rows = solutions(ts, *input);
            let out = rows.map_values(|r: IdRowM| project_row(r, variables));
            assert forall|i: int| 0 <= i < out.len() implies row_names_distinct(#[trigger] out[i]) by {
                assert(row_names_distinct(rows[i]));
                lemma_project_distinct(rows[i], variables);
            }
        },
        _ => {},
    }
}

/// Whether row `m` binds every variable of `row` to the same id.
pub open spec fn extends(m: IdRowM, row: IdRowM) -> bool {
    forall|n: Seq<char>| #[trigger] lookup(row, n) is Some ==> lookup(m, n) == lookup(row, n)
}

/// Looking up in a row with one more entry.
proof fn lemma_lookup_push(row: IdRowM, e: (Seq<char>, u32), n: Seq<char>)
    ensures
        lookup(row.push(e), n) == if n == e.0 {
            Some(e.1)
        } else {
            lookup(row, n)
        },
{
    assert(row.push(e).drop_last() =~= row);
}

/// A merge of two rows binds every variable of both as they do.
pub proof fn lemma_merge_extends(l: IdRowM, r: IdRowM)
    ensures
        merge_rows(l, r) matches Some(m) ==> extends(m, l) && extends(m, r),
    decreases r.len(),
{
    if r.len() > 0 {
        let d = r.drop_last();
        let e = r.last();
        lemma_merge_extends(l, d);
        if let Some(m0) = merge_rows(l, d) {
            match lookup(m0, e.0) {
                Some(x) => {
                    if x == e.1 {
                        assert forall|n: Seq<char>| #[trigger] lookup(r, n) is Some implies lookup(m0, n) == lookup(
                            r,
                            n,
                        ) by {
                            if n != e.0 {
                                assert(lookup(r, n) == lookup(d, n));
                            }
                        }
                    }
                },
                None => {
                    let m = m0.push(e);
                    assert forall|n: Seq<char>| #[trigger] lookup(l, n) is Some implies lookup(m, n) == lookup(l, n) by {
                        lemma_lookup_push(m0, e, n);
                    }
                    assert forall|n: Seq<char>| #[trigger] lookup(r, n) is Some implies lookup(m, n) == lookup(r, n) by {
                        lemma_lookup_push(m0, e, n);
                        if n != e.0 {
                            assert(lookup(r, n) == lookup(d, n));
                        }
                    }
                },
            }
        }
    }
}

/// The rows of `join_with` are exactly the merges of the row with the
/// compatible rows of `rs`.
proof fn lemma_join_with_merges(l: IdRowM, rs: Seq<IdRowM>)
    ensures
        forall|k: int|
            0 <= k < join_with(l, rs).len() ==> exists|j: int|
                0 <= j < rs.len() && merge_rows(l, rs[j]) == Some(#[trigger] join_with(l, rs)[k]),
        forall|j: int|
            0 <= j < rs.len() && (#[trigger] merge_rows(l, rs[j])) is Some ==> join_with(l, rs).contains(
                merge_rows(l, rs[j])->0,
            ),
    decreases rs.len(),
{
    if rs.len() > 0 {
        let d = rs.drop_last();
        lemma_join_with_merges(l, d);
        let prev = join_with(l, d);
        let cur = join_with(l, rs);
        assert forall|k: int| 0 <= k < cur.len() implies exists|j: int|
            0 <= j < rs.len() && merge_rows(l, rs[j]) == Some(#[trigger] cur[k]) by {
            if k < prev.len() {
                assert(cur[k] == prev[k]);
                let j = choose|j: int| 0 <= j < d.len() && merge_rows(l, d[j]) == Some(prev[k]);
                assert(rs[j] == d[j]);
            } else {
                assert(rs[rs.len() - 1] == rs.last());
            }
        }
        assert forall|j: int| 0 <= j < rs.len() && (#[trigger] merge_rows(l, rs[j])) is Some implies cur.contains(
            merge_rows(l, rs[j])->0,
        ) by {
            if j < d.len() {
                assert(rs[j] == d[j]);
                let t = choose|t: int| 0 <= t < prev.len() && prev[t] == merge_rows(l, d[j])->0;
                assert(cur[t] == prev[t]);
            } else {
                assert(rs[j] == rs.last());
                assert(cur[prev.len() as int] == merge_rows(l, rs[j])->0);
            }
        }
    }
}

/// The rows of `join_rows` are exactly the merges of compatible pairs.
proof fn lemma_join_rows_merges(ls: Seq<IdRowM>, rs: Seq<IdRowM>)
    ensures
        forall|k: int|
            0 <= k < join_rows(ls, rs).len() ==> exists|i: int, j: int|
                0 <= i < ls.len() && 0 <= j < rs.len() && merge_rows(ls[i], rs[j]) == Some(
                    #[trigger] join_rows(ls, rs)[k],
                ),
        forall|i: int, j: int|
            0 <= i < ls.len() && 0 <= j < rs.len() && (#[trigger] merge_rows(ls[i], rs[j])) is Some
                ==> join_rows(ls, rs).contains(merge_rows(ls[i], rs[j])->0),
    decreases ls.len(),
{
    if ls.len() > 0 {
        let d = ls.drop_last();
        let l = ls.last();
        lemma_join_rows_merges(d, rs);
        lemma_join_with_merges(l, rs);
        let a = join_rows(d, rs);
        let b = join_with(l, rs);
        let cur = join_rows(ls, rs);
        assert(cur == a + b);
        assert forall|k: int| 0 <= k < cur.len() implies exists|i: int, j: int|
            0 <= i < ls.len() && 0 <= j < rs.len() && merge_rows(ls[i], rs[j]) == Some(#[trigger] cur[k]) by {
            if k < a.len() {
                assert(cur[k] == a[k]);
                let (i, j) = choose|i: int, j: int|
                    0 <= i < d.len() && 0 <= j < rs.len() && merge_rows(d[i], rs[j]) == Some(a[k]);
                assert(ls[i] == d[i]);
            } else {
                assert(cur[k] == b[k - a.len()]);
                let j = choose|j: int| 0 <= j < rs.len() && merge_rows(l, rs[j]) == Some(b[k - a.len()]);
                assert(ls[ls.len() - 1] == l);
            }
        }
        assert forall|i: int, j: int|
            0 <= i < ls.len() && 0 <= j < rs.len() && (#[trigger] merge_rows(ls[i], rs[j])) is Some implies cur.contains(
            merge_rows(ls[i], rs[j])->0,
        ) by {
            if i < d.len() {
                assert(ls[i] == d[i]);
                assert(merge_rows(d[i], rs[j]) is Some);
                let t = choose|t: int| 0 <= t < a.len() && a[t] == merge_rows(d[i], rs[j])->0;
                assert(cur[t] == a[t]);
            } else {
                assert(ls[i] == l);
                assert(merge_rows(l, rs[j]) is Some);
                let t = choose|t: int| 0 <= t < b.len() && b[t] == merge_rows(l, rs[j])->0;
                assert(cur[a.len() + t] == b[t]);
            }
        }
    }
}

/// The two inputs of a join operator, of whichever algorithm.
pub open spec fn join_inputs(op: PhysicalM) -> Option<(PhysicalM, PhysicalM)> {
    match op {
        PhysicalM::HashJoin { left, right } => Some((*left, *right)),
        PhysicalM::OptimizedHashJoin { left, right } => Some((*left, *right)),
        PhysicalM::NestedLoopJoin { left, right } => Some((*left, *right)),
        PhysicalM::ParallelJoin { left, right } => Some((*left, *right)),
        _ => None,
    }
}

/// Every join algorithm gives the compatible merges of its inputs' rows: each
/// row it gives merges a left row with a right row and binds every variable of
/// both as they do, each merge of a compatible pair is among its rows, and an
/// input without rows gives no rows.
pub proof fn lemma_join_rows_are_merges(ts: Seq<Triple>, op: PhysicalM)
    requires
        join_inputs(op) is Some,
    ensures
        ({
            let (left, right) = join_inputs(op)->0;
            let ls = solutions(ts, left);
            let rs = solutions(ts, right);
            let rows = solutions(ts, op);
            &&& forall|k: int|
                0 <= k < rows.len() ==> exists|i: int, j: int|
                    0 <= i < ls.len() && 0 <= j < rs.len() && merge_rows(ls[i], rs[j]) == Some(#[trigger] rows[k])
                        && extends(rows[k], ls[i]) && extends(rows[k], rs[j])
            &&& forall|i: int, j: int|
                0 <= i < ls.len() && 0 <= j < rs.len() && (#[trigger] merge_rows(ls[i], rs[j])) is Some
                    ==> rows.contains(merge_rows(ls[i], rs[j])->0)
            &&& (ls.len() == 0 || rs.len() == 0) ==> rows.len() == 0
        }),
{
    let (left, right) = join_inputs(op)->0;
    let ls = solutions(ts, left);
    let rs = solutions(ts, right);
    let rows = solutions(ts, op);
    assert(rows == join_rows(ls, rs));
    lemma_join_rows_merges(ls, rs);
    assert forall|k: int| 0 <= k < rows.len() implies exists|i: int, j: int|
        0 <= i < ls.len() && 0 <= j < rs.len() && merge_rows(ls[i], rs[j]) == Some(#[trigger] rows[k]) && extends(
            rows[k],
            ls[i],
        ) && extends(rows[k], rs[j]) by {
        let (i, j) = choose|i: int, j: int|
            0 <= i < ls.len() && 0 <= j < rs.len() && merge_rows(ls[i], rs[j]) == Some(rows[k]);
        lemma_merge_extends(ls[i], rs[j]);
    }
    if ls.len() == 0 || rs.len() == 0 {
        if rows.len() > 0 {
            let (i, j) = choose|i: int, j: int|
                0 <= i < ls.len() && 0 <= j < rs.len() && merge_rows(ls[i], rs[j]) == Some(rows[0]);
        }
    }
}

} // verus!
