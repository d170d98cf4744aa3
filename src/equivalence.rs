//! The equivalence core: checks the inputs, proves each program's paths
//! disjoint, measures coverage, matches the regions where a path of each
//! program holds, and folds the divergence query of each region into a
//! verdict, with a counterexample when the programs differ.
use vstd::prelude::*;
use crate::behavior::{channel_differs, diff_behaviors, differences_of, differs, pc_holds, snapshot, snapshot_of};
use crate::expr::{is_scoped, scoped, Expr};
use crate::solver::{
    box_size, in_box, lemma_box_size_nonneg, lex_before, sat_at, satisfiable, side, solve, Query, SolverOutcome,
};
use crate::symbolic::SymbolicSummaries;
use crate::types::{
    AnalysisConfig, CheckerError, Counterexample, EquivalenceResult, InputBound, PathSummary,
    ProgramKind, UnknownReason, Verdict,
};

verus! {

/// Point evaluations granted per second of the time budget.
pub const EVALUATIONS_PER_SECOND: u64 = 1000000;

pub open spec fn bounds_ordered(b: Seq<InputBound>) -> bool {
    forall|k: int| 0 <= k < b.len() ==> (#[trigger] b[k]).min <= b[k].max
}

pub open spec fn names_unique(b: Seq<InputBound>) -> bool {
    forall|i: int, j: int| 0 <= i < j < b.len() ==> (#[trigger] b[i]).name@ != (#[trigger] b[j]).name@
}

pub open spec fn all_scoped(es: Seq<Expr>, n: nat) -> bool {
    forall|k: int| 0 <= k < es.len() ==> scoped(#[trigger] es[k], n)
}

/// Every expression of `p` names declared inputs only.
pub open spec fn summary_scoped(p: PathSummary, n: nat) -> bool {
    &&& all_scoped(p.path_condition@, n)
    &&& scoped(p.return_expr, n)
    &&& all_scoped(p.stdout_log@, n)
    &&& all_scoped(p.stderr_log@, n)
    &&& forall|k: int| 0 <= k < p.global_writes@.len() ==> scoped((#[trigger] p.global_writes@[k]).1, n)
    &&& forall|k: int| 0 <= k < p.file_ops@.len() ==> ((#[trigger] p.file_ops@[k]).data matches Some(e) ==> scoped(e, n))
}

pub open spec fn side_scoped(s: Seq<PathSummary>, n: nat) -> bool {
    forall|k: int| 0 <= k < s.len() ==> summary_scoped(#[trigger] s[k], n)
}

/// No two paths of one program hold on a common point of the box.
pub open spec fn disjoint(kind: ProgramKind, first: Seq<PathSummary>, second: Seq<PathSummary>, b: Seq<InputBound>) -> bool {
    forall|i: usize, j: usize| i < j < side(kind, first, second).len()
        ==> !#[trigger] satisfiable(Query::Overlap(kind, i, j), first, second, b)
}

/// Every point of the box lies on some path of the program.
pub open spec fn covers(kind: ProgramKind, first: Seq<PathSummary>, second: Seq<PathSummary>, b: Seq<InputBound>) -> bool {
    !satisfiable(Query::Uncovered(kind), first, second, b)
}

/// The regions of row `i` among its first `j` columns, in order.
pub open spec fn region_cols(first: Seq<PathSummary>, second: Seq<PathSummary>, b: Seq<InputBound>, i: usize, j: nat) -> Seq<(usize, usize)>
    decreases j,
{
    if j == 0 {
        seq![]
    } else {
        let p = region_cols(first, second, b, i, (j - 1) as nat);
        if satisfiable(Query::Joint(i, (j - 1) as usize), first, second, b) {
            p.push((i, (j - 1) as usize))
        } else {
            p
        }
    }
}

pub open spec fn region_rows(first: Seq<PathSummary>, second: Seq<PathSummary>, b: Seq<InputBound>, i: nat) -> Seq<(usize, usize)>
    decreases i,
{
    if i == 0 {
        seq![]
    } else {
        region_rows(first, second, b, (i - 1) as nat) + region_cols(first, second, b, (i - 1) as usize, second.len())
    }
}

/// The pairs (first-program path, second-program path) whose conditions
/// hold together somewhere in the box, row by row.
pub open spec fn regions(first: Seq<PathSummary>, second: Seq<PathSummary>, b: Seq<InputBound>) -> Seq<(usize, usize)> {
    region_rows(first, second, b, first.len())
}

pub open spec fn divergent(first: Seq<PathSummary>, second: Seq<PathSummary>, b: Seq<InputBound>, r: (usize, usize)) -> bool {
    satisfiable(Query::Divergence(r.0, r.1), first, second, b)
}

/// None of the first `n` regions diverges.
pub open spec fn calm_prefix(first: Seq<PathSummary>, second: Seq<PathSummary>, b: Seq<InputBound>, rs: Seq<(usize, usize)>, n: int) -> bool {
    forall|t: int| 0 <= t < n ==> !#[trigger] divergent(first, second, b, rs[t])
}

pub open spec fn model_of(ce: Counterexample) -> Seq<i64> {
    ce.inputs@.map_values(|x: (String, i64)| x.1)
}

/// `ce` is a point of the box on which `p` and `q` both hold and behave
/// differently, with both behaviors and the channels that differ.
pub open spec fn counterexample_of(ce: Counterexample, p: PathSummary, q: PathSummary, b: Seq<InputBound>) -> bool {
    let m = model_of(ce);
    &&& ce.inputs@.len() == b.len()
    &&& forall|k: int| 0 <= k < b.len() ==> (#[trigger] ce.inputs@[k]).0@ == b[k].name@
    &&& snapshot_of(ce.c_behavior, p, m)
    &&& snapshot_of(ce.rust_behavior, q, m)
    &&& differences_of(ce.differences@, p, q, m)
    &&& ce.differences@.len() > 0
}

/// No point of the box before `m` in lexicographic order shows region `r`
/// diverging: `m` is the least counterexample of its region.
pub open spec fn least_divergence(first: Seq<PathSummary>, second: Seq<PathSummary>, b: Seq<InputBound>, r: (usize, usize), m: Seq<i64>) -> bool {
    forall|a: Seq<i64>| in_box(a, b) && lex_before(a, m, 0) ==> !#[trigger] sat_at(Query::Divergence(r.0, r.1), first, second, a)
}

/// What a run that was not stopped by its time budget returns, given
/// `budget` region comparisons.
pub open spec fn decided(res: EquivalenceResult, first: Seq<PathSummary>, second: Seq<PathSummary>, b: Seq<InputBound>, budget: u32) -> bool {
    let rs = regions(first, second, b);
    let n = res.paths_compared as int;
    if budget == 0 {
        res.verdict == Verdict::Unknown && res.unknown_reason == Some(UnknownReason::PathBudgetExceeded)
            && n == 0 && res.counterexample is None
    } else {
        &&& disjoint(ProgramKind::C, first, second, b)
        &&& disjoint(ProgramKind::Rust, first, second, b)
        &&& match res.verdict {
            Verdict::NotEquivalent => {
                &&& 1 <= n <= budget && n <= rs.len()
                &&& calm_prefix(first, second, b, rs, n - 1)
                &&& divergent(first, second, b, rs[n - 1])
                &&& res.unknown_reason is None
                &&& res.counterexample matches Some(ce)
                    && counterexample_of(ce, first[rs[n - 1].0 as int], second[rs[n - 1].1 as int], b)
                    && in_box(model_of(ce), b)
                    && pc_holds(first[rs[n - 1].0 as int].path_condition@, model_of(ce))
                    && pc_holds(second[rs[n - 1].1 as int].path_condition@, model_of(ce))
                    && least_divergence(first, second, b, rs[n - 1], model_of(ce))
            },
            Verdict::Equivalent => {
                &&& rs.len() <= budget && n == rs.len()
                &&& calm_prefix(first, second, b, rs, n)
                &&& covers(ProgramKind::C, first, second, b) && covers(ProgramKind::Rust, first, second, b)
                &&& res.unknown_reason is None && res.counterexample is None
            },
            Verdict::Unknown => res.counterexample is None && match res.unknown_reason {
                Some(UnknownReason::PathBudgetExceeded) => rs.len() > budget && n == budget
                    && calm_prefix(first, second, b, rs, n),
                Some(UnknownReason::IncompleteCoverage) => rs.len() <= budget && n == rs.len()
                    && calm_prefix(first, second, b, rs, n)
                    && !(covers(ProgramKind::C, first, second, b) && covers(ProgramKind::Rust, first, second, b)),
                _ => false,
            },
        }
    }
}

/// How many queries a run may ask at most: every pair of paths of each
/// program, the two coverage queries, every cross pair, and `budget`
/// divergence queries.
pub open spec fn query_bound(n1: int, n2: int, budget: int) -> int {
    n1 * n1 + n2 * n2 + 2 + n1 * n2 + budget
}

/// The contract of `check`.
pub open spec fn check_post(config: AnalysisConfig, summaries: SymbolicSummaries, r: Result<EquivalenceResult, CheckerError>) -> bool {
    let first = summaries.c_summaries@;
    let second = summaries.rust_summaries@;
    let b = config.bounds@;
    match r {
        Err(CheckerError::InvalidBounds) => !bounds_ordered(b),
        Err(CheckerError::DuplicateInput) => bounds_ordered(b) && !names_unique(b),
        Err(CheckerError::UnboundVariable) => bounds_ordered(b) && names_unique(b)
            && !(side_scoped(first, b.len()) && side_scoped(second, b.len())),
        Err(e) => e is PathOverlap && config.max_paths > 0 && bounds_ordered(b) && names_unique(b)
            && side_scoped(first, b.len()) && side_scoped(second, b.len()) && overlap_reported(e, first, second, b),
        Ok(res) => {
            &&& bounds_ordered(b) && names_unique(b)
            &&& side_scoped(first, b.len()) && side_scoped(second, b.len())
            &&& (res.unknown_reason is Some <==> res.verdict == Verdict::Unknown)
            &&& (res.unknown_reason == Some(UnknownReason::Timeout) && config.max_paths > 0
                && res.counterexample is None && res.paths_compared <= config.max_paths
                && (config.timeout as int) * (EVALUATIONS_PER_SECOND as int)
                    < query_bound(first.len() as int, second.len() as int, config.max_paths as int) * box_size(b, 0)
                || decided(res, first, second, b, config.max_paths))
        },
    }
}

proof fn lemma_mul_succ(a: int, b: int)
    ensures
        (a + 1) * b == a * b + b,
{
    assert((a + 1) * b == a * b + b) by (nonlinear_arith);
}

proof fn lemma_mul_add(a: int, c: int, b: int)
    ensures
        a * b + c * b == (a + c) * b,
{
    assert(a * b + c * b == (a + c) * b) by (nonlinear_arith);
}

proof fn lemma_mul_le(a: int, c: int, b: int)
    requires
        a <= c,
        b >= 0,
    ensures
        a * b <= c * b,
{
    assert(a * b <= c * b) by (nonlinear_arith)
        requires a <= c, b >= 0;
}

/// `i` full rows of `n` items and `j <= n` more stay within `rows` rows
/// when `i < rows`.
proof fn lemma_row_bound(i: int, j: int, rows: int, n: int)
    requires
        0 <= i < rows,
        0 <= j <= n,
    ensures
        i * n + j <= rows * n,
        i * n + n == (i + 1) * n,
{
    assert(i * n + n == (i + 1) * n) by (nonlinear_arith);
    lemma_mul_le(i + 1, rows, n);
}

pub(crate) fn check_bounds(b: &Vec<InputBound>) -> (r: Result<(), CheckerError>)
    ensures
        match r {
            Ok(_) => bounds_ordered(b@) && names_unique(b@),
            Err(CheckerError::InvalidBounds) => !bounds_ordered(b@),
            Err(CheckerError::DuplicateInput) => bounds_ordered(b@) && !names_unique(b@),
            Err(_) => false,
        },
{
    let mut k: usize = 0;
    while k < b.len()
        invariant
            k <= b.len(),
            forall|j: int| 0 <= j < k ==> (#[trigger] b@[j]).min <= b@[j].max,
        decreases b.len() - k,
    {
        if b[k].min > b[k].max {
            return Err(CheckerError::InvalidBounds);
        }
        k += 1;
    }
    let mut i: usize = 0;
    while i < b.len()
        invariant
            i <= b.len(),
            bounds_ordered(b@),
            forall|x: int, y: int| 0 <= x < i && x < y < b.len() ==> (#[trigger] b@[x]).name@ != (#[trigger] b@[y]).name@,
        decreases b.len() - i,
    {
        let mut j: usize = i + 1;
        while j < b.len()
            invariant
                i < j <= b.len(),
                bounds_ordered(b@),
                forall|x: int, y: int| 0 <= x < i && x < y < b.len() ==> (#[trigger] b@[x]).name@ != (#[trigger] b@[y]).name@,
                forall|y: int| i < y < j ==> b@[i as int].name@ != (#[trigger] b@[y]).name@,
            decreases b.len() - j,
        {
            if b[i].name == b[j].name {
                return Err(CheckerError::DuplicateInput);
            }
            j += 1;
        }
        i += 1;
    }
    Ok(())
}

fn exprs_scoped(es: &Vec<Expr>, n: usize) -> (r: bool)
    ensures
        r == all_scoped(es@, n as nat),
{
    let mut k: usize = 0;
    while k < es.len()
        invariant
            k <= es.len(),
            forall|j: int| 0 <= j < k ==> scoped(#[trigger] es@[j], n as nat),
        decreases es.len() - k,
    {
        if !is_scoped(&es[k], n) {
            return false;
        }
        k += 1;
    }
    true
}

fn summary_is_scoped(p: &PathSummary, n: usize) -> (r: bool)
    ensures
        r == summary_scoped(*p, n as nat),
{
    if !exprs_scoped(&p.path_condition, n) || !is_scoped(&p.return_expr, n) || !exprs_scoped(&p.stdout_log, n)
        || !exprs_scoped(&p.stderr_log, n) {
        return false;
    }
    let mut k: usize = 0;
    while k < p.global_writes.len()
        invariant
            k <= p.global_writes.len(),
            forall|j: int| 0 <= j < k ==> scoped((#[trigger] p.global_writes@[j]).1, n as nat),
        decreases p.global_writes.len() - k,
    {
        if !is_scoped(&p.global_writes[k].1, n) {
            return false;
        }
        k += 1;
    }
    let mut k: usize = 0;
    while k < p.file_ops.len()
        invariant
            k <= p.file_ops.len(),
            forall|j: int| 0 <= j < p.global_writes@.len() ==> scoped((#[trigger] p.global_writes@[j]).1, n as nat),
            forall|j: int| 0 <= j < k ==> ((#[trigger] p.file_ops@[j]).data matches Some(e) ==> scoped(e, n as nat)),
        decreases p.file_ops.len() - k,
    {
        if let Some(e) = &p.file_ops[k].data {
            if !is_scoped(e, n) {
                return false;
            }
        }
        k += 1;
    }
    true
}

fn side_is_scoped(s: &Vec<PathSummary>, n: usize) -> (r: bool)
    ensures
        r == side_scoped(s@, n as nat),
{
    let mut k: usize = 0;
    while k < s.len()
        invariant
            k <= s.len(),
            forall|j: int| 0 <= j < k ==> summary_scoped(#[trigger] s@[j], n as nat),
        decreases s.len() - k,
    {
        if !summary_is_scoped(&s[k], n) {
            return false;
        }
        k += 1;
    }
    true
}

/// `Ok(true)`: the paths of `kind` are disjoint; `Ok(false)`: the time
/// budget ran out; `Err`: two paths overlap.
fn check_disjoint(
    kind: ProgramKind,
    first: &Vec<PathSummary>,
    second: &Vec<PathSummary>,
    bounds: &Vec<InputBound>,
    steps: &mut u64,
) -> (r: Result<bool, CheckerError>)
    ensures
        r == Ok::<bool, CheckerError>(true) ==> disjoint(kind, first@, second@, bounds@),
        r matches Err(e) ==> overlap_reported(e, first@, second@, bounds@),
        *final(steps) <= *old(steps),
        *old(steps) - *final(steps) <= side(kind, first@, second@).len() * side(kind, first@, second@).len()
            * box_size(bounds@, 0),
        r == Ok::<bool, CheckerError>(false) ==> *old(steps) < side(kind, first@, second@).len()
            * side(kind, first@, second@).len() * box_size(bounds@, 0),
{
    let s = match kind {
        ProgramKind::C => first,
        ProgramKind::Rust => second,
    };
    let ghost b = box_size(bounds@, 0);
    let ghost n = s@.len() as int;
    let ghost mut used: int = 0;
    proof {
        lemma_box_size_nonneg(bounds@, 0);
    }
    let mut i: usize = 0;
    while i < s.len()
        invariant
            s@ == side(kind, first@, second@),
            n == s@.len(),
            b == box_size(bounds@, 0),
            b >= 0,
            0 <= used <= i * n,
            *steps <= *old(steps),
            *old(steps) - *steps <= used * b,
            i <= s.len(),
            forall|x: usize, y: usize| x < i && x < y < s.len()
                ==> !#[trigger] satisfiable(Query::Overlap(kind, x, y), first@, second@, bounds@),
        decreases s.len() - i,
    {
        let mut j: usize = i + 1;
        while j < s.len()
            invariant
                s@ == side(kind, first@, second@),
                n == s@.len(),
                b == box_size(bounds@, 0),
                b >= 0,
                0 <= used <= i * n + j,
                *steps <= *old(steps),
                *old(steps) - *steps <= used * b,
                i < j <= s.len(),
                forall|x: usize, y: usize| x < i && x < y < s.len()
                    ==> !#[trigger] satisfiable(Query::Overlap(kind, x, y), first@, second@, bounds@),
                forall|y: usize| i < y < j ==> !#[trigger] satisfiable(Query::Overlap(kind, i, y), first@, second@, bounds@),
            decreases s.len() - j,
        {
            let ghost before = *steps;
            proof {
                lemma_row_bound(i as int, j + 1, n, n);
                lemma_mul_succ(used, b);
                lemma_mul_le(used + 1, n * n, b);
            }
            match solve(Query::Overlap(kind, i, j), first, second, bounds, steps) {
                SolverOutcome::Satisfiable(m) => {
                    assert(satisfiable(Query::Overlap(kind, i, j), first@, second@, bounds@));
                    return Err(CheckerError::PathOverlap(s[i].id.clone(), s[j].id.clone()));
                },
                SolverOutcome::Unsatisfiable => {},
                SolverOutcome::Unknown(_) => {
                    return Ok(false);
                },
            }
            proof {
                used = used + 1;
            }
            j += 1;
        }
        proof {
            lemma_row_bound(i as int, n, n, n);
        }
        i += 1;
    }
    proof {
        lemma_mul_le(used, n * n, b);
    }
    Ok(true)
}

/// `e` names two paths of one program that hold together in the box.
pub open spec fn overlap_reported(e: CheckerError, first: Seq<PathSummary>, second: Seq<PathSummary>, b: Seq<InputBound>) -> bool {
    e matches CheckerError::PathOverlap(x, y) && exists|kind: ProgramKind, i: usize, j: usize|
        i < j < side(kind, first, second).len()
        && #[trigger] satisfiable(Query::Overlap(kind, i, j), first, second, b)
        && x@ == side(kind, first, second)[i as int].id@ && y@ == side(kind, first, second)[j as int].id@
}

/// The regions of the two collections, or `None` when the time budget ran out.
fn find_regions(
    first: &Vec<PathSummary>,
    second: &Vec<PathSummary>,
    bounds: &Vec<InputBound>,
    steps: &mut u64,
) -> (r: Option<Vec<(usize, usize)>>)
    ensures
        r matches Some(rs) ==> rs@ == regions(first@, second@, bounds@),
        *final(steps) <= *old(steps),
        *old(steps) - *final(steps) <= first@.len() * second@.len() * box_size(bounds@, 0),
        r is None ==> *old(steps) < first@.len() * second@.len() * box_size(bounds@, 0),
{
    let ghost b = box_size(bounds@, 0);
    let ghost n1 = first@.len() as int;
    let ghost n2 = second@.len() as int;
    let ghost mut used: int = 0;
    proof {
        lemma_box_size_nonneg(bounds@, 0);
    }
    let mut rs: Vec<(usize, usize)> = Vec::new();
    let mut i: usize = 0;
    while i < first.len()
        invariant
            n1 == first@.len(),
            n2 == second@.len(),
            b == box_size(bounds@, 0),
            b >= 0,
            0 <= used <= i * n2,
            *steps <= *old(steps),
            *old(steps) - *steps <= used * b,
            i <= first.len(),
            rs@ == region_rows(first@, second@, bounds@, i as nat),
        decreases first.len() - i,
    {
        let mut j: usize = 0;
        assert(region_cols(first@, second@, bounds@, i, 0) =~= seq![]);
        assert(rs@ =~= region_rows(first@, second@, bounds@, i as nat) + region_cols(first@, second@, bounds@, i, 0));
        while j < second.len()
            invariant
                n1 == first@.len(),
                n2 == second@.len(),
                b == box_size(bounds@, 0),
                b >= 0,
                0 <= used <= i * n2 + j,
                *steps <= *old(steps),
                *old(steps) - *steps <= used * b,
                i < first.len(),
                j <= second.len(),
                rs@ == region_rows(first@, second@, bounds@, i as nat) + region_cols(first@, second@, bounds@, i, j as nat),
            decreases second.len() - j,
        {
            let ghost before = rs@;
            proof {
                lemma_row_bound(i as int, j + 1, n1, n2);
                lemma_mul_succ(used, b);
                lemma_mul_le(used + 1, n1 * n2, b);
            }
            match solve(Query::Joint(i, j), first, second, bounds, steps) {
                SolverOutcome::Satisfiable(m) => {
                    assert(satisfiable(Query::Joint(i, j), first@, second@, bounds@));
                    rs.push((i, j));
                },
                SolverOutcome::Unsatisfiable => {},
                SolverOutcome::Unknown(_) => {
                    return None;
                },
            }
            assert(rs@ =~= region_rows(first@, second@, bounds@, i as nat) + region_cols(first@, second@, bounds@, i, (j + 1) as nat));
            proof {
                used = used + 1;
            }
            j += 1;
        }
        proof {
            lemma_row_bound(i as int, n2, n1, n2);
        }
        i += 1;
    }
    proof {
        lemma_mul_le(used, n1 * n2, b);
    }
    Some(rs)
}

/// Builds the counterexample for paths `p` and `q` at `model`, whose first
/// `bounds.len()` values give the inputs in order.
pub fn build_counterexample(p: &PathSummary, q: &PathSummary, bounds: &Vec<InputBound>, model: &Vec<i64>) -> (r: Result<Counterexample, CheckerError>)
    ensures
        model@.len() < bounds@.len() <==> r is Err,
        r matches Err(e) ==> e is ModelIncomplete,
        r matches Ok(ce) ==> model_of(ce) == model@.take(bounds@.len() as int)
            && ce.inputs@.len() == bounds@.len()
            && (forall|k: int| 0 <= k < bounds@.len() ==> (#[trigger] ce.inputs@[k]).0@ == bounds@[k].name@)
            && snapshot_of(ce.c_behavior, *p, model_of(ce))
            && snapshot_of(ce.rust_behavior, *q, model_of(ce))
            && differences_of(ce.differences@, *p, *q, model_of(ce))
            && (ce.differences@.len() > 0 <==> differs(*p, *q, model_of(ce))),
{
    if model.len() < bounds.len() {
        return Err(CheckerError::ModelIncomplete);
    }
    let mut inputs: Vec<(String, i64)> = Vec::new();
    let mut values: Vec<i64> = Vec::new();
    let mut k: usize = 0;
    while k < bounds.len()
        invariant
            k <= bounds.len() <= model.len(),
            inputs@.len() == k,
            values@ == model@.take(k as int),
            forall|j: int| 0 <= j < k ==> (#[trigger] inputs@[j]).0@ == bounds@[j].name@ && inputs@[j].1 == model@[j],
        decreases bounds.len() - k,
    {
        inputs.push((bounds[k].name.clone(), model[k]));
        values.push(model[k]);
        assert(values@ =~= model@.take(k + 1));
        k += 1;
    }
    let ghost ins = inputs@;
    assert(ins.map_values(|x: (String, i64)| x.1) =~= values@);
    let c_behavior = snapshot(p, &values);
    let rust_behavior = snapshot(q, &values);
    let differences = diff_behaviors(p, q, &values);
    Ok(Counterexample { inputs, c_behavior, rust_behavior, differences })
}

fn unknown(reason: UnknownReason, compared: u32) -> (r: EquivalenceResult)
    ensures
        r.verdict == Verdict::Unknown && r.unknown_reason == Some(reason) && r.paths_compared == compared
            && r.counterexample is None,
{
    EquivalenceResult { verdict: Verdict::Unknown, unknown_reason: Some(reason), paths_compared: compared, counterexample: None }
}

/// Decides whether the two programs' path summaries behave the same on every
/// point of the box `config.bounds`, comparing at most `config.max_paths`
/// regions within `config.timeout` seconds' worth of point evaluations. The
/// scan stops at the first diverging region, whose least point in
/// lexicographic order becomes the counterexample; a timeout is reported only
/// when the evaluations granted fall short of what the run may need.
pub fn check(config: &AnalysisConfig, summaries: &SymbolicSummaries) -> (r: Result<EquivalenceResult, CheckerError>)
    ensures
        check_post(*config, *summaries, r),
{
    let first = &summaries.c_summaries;
    let second = &summaries.rust_summaries;
    let bounds = &config.bounds;
    check_bounds(bounds)?;
    if !side_is_scoped(first, bounds.len()) || !side_is_scoped(second, bounds.len()) {
        return Err(CheckerError::UnboundVariable);
    }
    let budget = config.max_paths;
    if budget == 0 {
        return Ok(unknown(UnknownReason::PathBudgetExceeded, 0));
    }
    let mut steps: u64 = config.timeout as u64 * EVALUATIONS_PER_SECOND;
    let ghost init = steps as int;
    let ghost b = box_size(bounds@, 0);
    let ghost n1 = first@.len() as int;
    let ghost n2 = second@.len() as int;
    let ghost total = query_bound(n1, n2, budget as int);
    proof {
        lemma_box_size_nonneg(bounds@, 0);
        assert(n1 * n1 >= 0 && n2 * n2 >= 0 && n1 * n2 >= 0) by (nonlinear_arith)
            requires n1 >= 0, n2 >= 0;
    }
    let timed_out = unknown(UnknownReason::Timeout, 0);
    match check_disjoint(ProgramKind::C, first, second, bounds, &mut steps) {
        Ok(true) => {},
        Ok(false) => {
            proof {
                lemma_mul_le(n1 * n1, total, b);
            }
            return Ok(timed_out);
        },
        Err(e) => return Err(e),
    }
    let ghost s1 = steps as int;
    match check_disjoint(ProgramKind::Rust, first, second, bounds, &mut steps) {
        Ok(true) => {},
        Ok(false) => {
            proof {
                lemma_mul_add(n1 * n1, n2 * n2, b);
                lemma_mul_le(n1 * n1 + n2 * n2, total, b);
            }
            return Ok(timed_out);
        },
        Err(e) => return Err(e),
    }
    let ghost s2 = steps as int;
    proof {
        lemma_mul_add(n1 * n1, n2 * n2, b);
        lemma_mul_succ(n1 * n1 + n2 * n2, b);
        lemma_mul_le(n1 * n1 + n2 * n2 + 1, total, b);
    }
    let first_covers = match solve(Query::Uncovered(ProgramKind::C), first, second, bounds, &mut steps) {
        SolverOutcome::Satisfiable(_) => false,
        SolverOutcome::Unsatisfiable => true,
        SolverOutcome::Unknown(_) => return Ok(timed_out),
    };
    proof {
        lemma_mul_succ(n1 * n1 + n2 * n2 + 1, b);
        lemma_mul_le(n1 * n1 + n2 * n2 + 2, total, b);
    }
    let second_covers = match solve(Query::Uncovered(ProgramKind::Rust), first, second, bounds, &mut steps) {
        SolverOutcome::Satisfiable(_) => false,
        SolverOutcome::Unsatisfiable => true,
        SolverOutcome::Unknown(_) => return Ok(timed_out),
    };
    let ghost pre = n1 * n1 + n2 * n2 + 2;
    proof {
        lemma_mul_add(pre, n1 * n2, b);
        lemma_mul_le(pre + n1 * n2, total, b);
    }
    let rs = match find_regions(first, second, bounds, &mut steps) {
        Some(rs) => rs,
        None => return Ok(timed_out),
    };
    let ghost spent = pre + n1 * n2;
    let ghost regs = regions(first@, second@, bounds@);
    let mut t: usize = 0;
    let mut compared: u32 = 0;
    while t < rs.len()
        invariant
            rs@ == regs,
            regs == regions(first@, second@, bounds@),
            t <= rs.len(),
            compared as int == t,
            compared <= budget,
            budget == config.max_paths,
            budget > 0,
            calm_prefix(first@, second@, bounds@, regs, t as int),
            first == &summaries.c_summaries,
            second == &summaries.rust_summaries,
            bounds == &config.bounds,
            disjoint(ProgramKind::C, first@, second@, bounds@),
            disjoint(ProgramKind::Rust, first@, second@, bounds@),
            bounds_ordered(bounds@) && names_unique(bounds@),
            side_scoped(first@, bounds@.len()) && side_scoped(second@, bounds@.len()),
            first_covers == covers(ProgramKind::C, first@, second@, bounds@),
            second_covers == covers(ProgramKind::Rust, first@, second@, bounds@),
            b == box_size(bounds@, 0),
            b >= 0,
            init == (config.timeout as int) * (EVALUATIONS_PER_SECOND as int),
            total == query_bound(first@.len() as int, second@.len() as int, budget as int),
            total == spent + budget,
            0 <= spent,
            steps <= init,
            init - steps <= (spent + t) * b,
        decreases rs.len() - t,
    {
        if compared == budget {
            return Ok(unknown(UnknownReason::PathBudgetExceeded, compared));
        }
        proof {
            lemma_mul_succ(spent + t, b);
            lemma_mul_le(spent + t + 1, total, b);
        }
        compared = compared + 1;
        let (i, j) = rs[t];
        match solve(Query::Divergence(i, j), first, second, bounds, &mut steps) {
            SolverOutcome::Satisfiable(m) => {
                assert(divergent(first@, second@, bounds@, regs[t as int]));
                assert(m@.take(bounds@.len() as int) =~= m@);
                let ce = match build_counterexample(&first[i], &second[j], bounds, &m) {
                    Ok(ce) => ce,
                    Err(e) => return Err(e),
                };
                return Ok(EquivalenceResult {
                    verdict: Verdict::NotEquivalent,
                    unknown_reason: None,
                    paths_compared: compared,
                    counterexample: Some(ce),
                });
            },
            SolverOutcome::Unsatisfiable => {},
            SolverOutcome::Unknown(_) => return Ok(unknown(UnknownReason::Timeout, compared)),
        }
        t += 1;
    }
    if first_covers && second_covers {
        Ok(EquivalenceResult { verdict: Verdict::Equivalent, unknown_reason: None, paths_compared: compared, counterexample: None })
    } else {
        Ok(unknown(UnknownReason::IncompleteCoverage, compared))
    }
}

/// When no region diverges and neither budget runs short, both programs'
/// paths are disjoint and the number of regions compared is exactly the
/// number of path pairs whose conditions hold together somewhere in the box,
/// not the number of all pairs.
pub proof fn lemma_compared_counts_regions(config: AnalysisConfig, summaries: SymbolicSummaries, res: EquivalenceResult)
    requires
        check_post(config, summaries, Ok(res)),
        (config.timeout as int) * (EVALUATIONS_PER_SECOND as int) >= query_bound(summaries.c_summaries@.len() as int,
            summaries.rust_summaries@.len() as int, config.max_paths as int) * box_size(config.bounds@, 0),
        config.max_paths > 0,
        regions(summaries.c_summaries@, summaries.rust_summaries@, config.bounds@).len() <= config.max_paths,
        calm_prefix(summaries.c_summaries@, summaries.rust_summaries@, config.bounds@,
            regions(summaries.c_summaries@, summaries.rust_summaries@, config.bounds@),
            regions(summaries.c_summaries@, summaries.rust_summaries@, config.bounds@).len() as int),
    ensures
        disjoint(ProgramKind::C, summaries.c_summaries@, summaries.rust_summaries@, config.bounds@),
        disjoint(ProgramKind::Rust, summaries.c_summaries@, summaries.rust_summaries@, config.bounds@),
        res.paths_compared == regions(summaries.c_summaries@, summaries.rust_summaries@, config.bounds@).len(),
{
}

/// When no region diverges, both programs cover the box, the region budget
/// covers every region and the time budget every query, the verdict is
/// `Equivalent`.
pub proof fn lemma_equivalent_when_no_region_diverges(config: AnalysisConfig, summaries: SymbolicSummaries, res: EquivalenceResult)
    requires
        check_post(config, summaries, Ok(res)),
        (config.timeout as int) * (EVALUATIONS_PER_SECOND as int) >= query_bound(summaries.c_summaries@.len() as int,
            summaries.rust_summaries@.len() as int, config.max_paths as int) * box_size(config.bounds@, 0),
        config.max_paths > 0,
        regions(summaries.c_summaries@, summaries.rust_summaries@, config.bounds@).len() <= config.max_paths,
        calm_prefix(summaries.c_summaries@, summaries.rust_summaries@, config.bounds@,
            regions(summaries.c_summaries@, summaries.rust_summaries@, config.bounds@),
            regions(summaries.c_summaries@, summaries.rust_summaries@, config.bounds@).len() as int),
        covers(ProgramKind::C, summaries.c_summaries@, summaries.rust_summaries@, config.bounds@),
        covers(ProgramKind::Rust, summaries.c_summaries@, summaries.rust_summaries@, config.bounds@),
    ensures
        res.verdict == Verdict::Equivalent,
        res.counterexample is None,
{
}

/// A `NotEquivalent` verdict comes with a counterexample: a point of the box
/// on which a path of each program holds, with both behaviors there, and a
/// non-empty list of differences each of which names a channel on which
/// those behaviors really differ.
pub proof fn lemma_counterexample_differs(config: AnalysisConfig, summaries: SymbolicSummaries, res: EquivalenceResult)
    requires
        check_post(config, summaries, Ok(res)),
        res.verdict == Verdict::NotEquivalent,
    ensures
        res.counterexample matches Some(ce) && exists|i: int, j: int|
            0 <= i < summaries.c_summaries@.len() && 0 <= j < summaries.rust_summaries@.len()
            && in_box(model_of(ce), config.bounds@)
            && #[trigger] pc_holds(summaries.c_summaries@[i].path_condition@, model_of(ce))
            && #[trigger] pc_holds(summaries.rust_summaries@[j].path_condition@, model_of(ce))
            && snapshot_of(ce.c_behavior, summaries.c_summaries@[i], model_of(ce))
            && snapshot_of(ce.rust_behavior, summaries.rust_summaries@[j], model_of(ce))
            && ce.differences@.len() > 0
            && forall|k: int| 0 <= k < ce.differences@.len() ==> channel_differs(
                #[trigger] ce.differences@[k].kind, summaries.c_summaries@[i], summaries.rust_summaries@[j], model_of(ce)),
{
    let first = summaries.c_summaries@;
    let second = summaries.rust_summaries@;
    let rs = regions(first, second, config.bounds@);
    let n = res.paths_compared as int;
    lemma_regions_in_range(first, second, config.bounds@, first.len());
    let ce = res.counterexample->Some_0;
    let i = rs[n - 1].0 as int;
    let j = rs[n - 1].1 as int;
    assert(pc_holds(first[i].path_condition@, model_of(ce)));
    assert(pc_holds(second[j].path_condition@, model_of(ce)));
}

/// With a region budget of zero and valid input (a valid box, expressions
/// naming declared inputs only) nothing is compared: the run returns
/// `Unknown` for want of budget, with no counterexample.
pub proof fn lemma_zero_budget(config: AnalysisConfig, summaries: SymbolicSummaries, r: Result<EquivalenceResult, CheckerError>)
    requires
        check_post(config, summaries, r),
        config.max_paths == 0,
        bounds_ordered(config.bounds@),
        names_unique(config.bounds@),
        side_scoped(summaries.c_summaries@, config.bounds@.len()),
        side_scoped(summaries.rust_summaries@, config.bounds@.len()),
    ensures
        r matches Ok(res) && res.verdict == Verdict::Unknown
            && res.unknown_reason == Some(UnknownReason::PathBudgetExceeded)
            && res.paths_compared == 0 && res.counterexample is None,
{
}

/// When some region diverges, the time budget covers every query and the
/// region budget every region, the verdict is `NotEquivalent` with a
/// counterexample.
pub proof fn lemma_divergence_found(config: AnalysisConfig, summaries: SymbolicSummaries, res: EquivalenceResult, t: int)
    requires
        check_post(config, summaries, Ok(res)),
        (config.timeout as int) * (EVALUATIONS_PER_SECOND as int) >= query_bound(summaries.c_summaries@.len() as int,
            summaries.rust_summaries@.len() as int, config.max_paths as int) * box_size(config.bounds@, 0),
        config.max_paths > 0,
        regions(summaries.c_summaries@, summaries.rust_summaries@, config.bounds@).len() <= config.max_paths,
        0 <= t < regions(summaries.c_summaries@, summaries.rust_summaries@, config.bounds@).len(),
        divergent(summaries.c_summaries@, summaries.rust_summaries@, config.bounds@,
            regions(summaries.c_summaries@, summaries.rust_summaries@, config.bounds@)[t]),
    ensures
        res.verdict == Verdict::NotEquivalent,
        res.counterexample is Some,
{
    let rs = regions(summaries.c_summaries@, summaries.rust_summaries@, config.bounds@);
    if res.verdict != Verdict::NotEquivalent {
        assert(!divergent(summaries.c_summaries@, summaries.rust_summaries@, config.bounds@, rs[t]));
    }
}

/// Every region names a path of each program.
pub proof fn lemma_regions_in_range(first: Seq<PathSummary>, second: Seq<PathSummary>, b: Seq<InputBound>, i: nat)
    requires
        i <= first.len(),
    ensures
        forall|t: int| 0 <= t < region_rows(first, second, b, i).len() ==>
            (#[trigger] region_rows(first, second, b, i)[t]).0 < first.len()
            && region_rows(first, second, b, i)[t].1 < second.len(),
    decreases i,
{
    if i > 0 {
        lemma_regions_in_range(first, second, b, (i - 1) as nat);
        lemma_cols_in_range(first, second, b, (i - 1) as usize, second.len());
        let a = region_rows(first, second, b, (i - 1) as nat);
        let c = region_cols(first, second, b, (i - 1) as usize, second.len());
        assert forall|t: int| 0 <= t < (a + c).len() implies (#[trigger] (a + c)[t]).0 < first.len()
            && (a + c)[t].1 < second.len() by {
            if t >= a.len() {
                assert((a + c)[t] == c[t - a.len()]);
            }
        }
    }
}

proof fn lemma_cols_in_range(first: Seq<PathSummary>, second: Seq<PathSummary>, b: Seq<InputBound>, i: usize, j: nat)
    requires
        j <= second.len(),
    ensures
        forall|t: int| 0 <= t < region_cols(first, second, b, i, j).len() ==>
            (#[trigger] region_cols(first, second, b, i, j)[t]).0 == i
            && region_cols(first, second, b, i, j)[t].1 < second.len(),
    decreases j,
{
    if j > 0 {
        lemma_cols_in_range(first, second, b, i, (j - 1) as nat);
        let p = region_cols(first, second, b, i, (j - 1) as nat);
        let c = region_cols(first, second, b, i, j);
        assert forall|t: int| 0 <= t < c.len() implies (#[trigger] c[t]).0 == i && c[t].1 < second.len() by {
            if t < p.len() {
                assert(c[t] == p[t]);
            }
        }
    }
}

} // verus!
