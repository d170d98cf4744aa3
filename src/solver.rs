//! A decision procedure for queries over a bounded box of integer inputs: it
//! visits the points of the box in lexicographic order, one evaluation per
//! point, within a budget of evaluations.
use vstd::prelude::*;
use crate::behavior::{behaviors_differ, differs, path_condition_holds, pc_holds};
use crate::types::{InputBound, PathSummary, ProgramKind, UnknownReason};

verus! {

/// A question about the two path collections, asked of one point.
#[derive(Clone, Copy, Debug, PartialEq, Eq, Structural)]
pub enum Query {
    /// Paths `i` and `j` of one program both hold.
    Overlap(ProgramKind, usize, usize),
    /// No path of one program holds.
    Uncovered(ProgramKind),
    /// Path `i` of the first program and path `j` of the second both hold.
    Joint(usize, usize),
    /// As `Joint`, and the two paths behave differently.
    Divergence(usize, usize),
}

pub enum SolverOutcome {
    Satisfiable(Vec<i64>),
    Unsatisfiable,
    Unknown(UnknownReason),
}

pub open spec fn side(kind: ProgramKind, first: Seq<PathSummary>, second: Seq<PathSummary>) -> Seq<PathSummary> {
    match kind {
        ProgramKind::C => first,
        ProgramKind::Rust => second,
    }
}

pub open spec fn holds_on(s: Seq<PathSummary>, i: int, m: Seq<i64>) -> bool {
    0 <= i < s.len() && pc_holds(s[i].path_condition@, m)
}

pub open spec fn covered(s: Seq<PathSummary>, m: Seq<i64>) -> bool {
    exists|i: int| #[trigger] holds_on(s, i, m)
}

/// Whether `q` is true of the point `m`.
pub open spec fn sat_at(q: Query, first: Seq<PathSummary>, second: Seq<PathSummary>, m: Seq<i64>) -> bool {
    match q {
        Query::Overlap(k, i, j) => holds_on(side(k, first, second), i as int, m) && holds_on(side(k, first, second), j as int, m),
        Query::Uncovered(k) => !covered(side(k, first, second), m),
        Query::Joint(i, j) => holds_on(first, i as int, m) && holds_on(second, j as int, m),
        Query::Divergence(i, j) => holds_on(first, i as int, m) && holds_on(second, j as int, m)
            && differs(first[i as int], second[j as int], m),
    }
}

/// `m` is a point of the box.
pub open spec fn in_box(m: Seq<i64>, b: Seq<InputBound>) -> bool {
    m.len() == b.len() && forall|k: int| 0 <= k < b.len() ==> b[k].min <= #[trigger] m[k] <= b[k].max
}

/// Some point of the box makes `q` true.
pub open spec fn satisfiable(q: Query, first: Seq<PathSummary>, second: Seq<PathSummary>, b: Seq<InputBound>) -> bool {
    exists|m: Seq<i64>| in_box(m, b) && #[trigger] sat_at(q, first, second, m)
}

/// The number of points of the box from dimension `k` on.
pub open spec fn box_size(b: Seq<InputBound>, k: int) -> int
    decreases b.len() - k,
{
    if k < 0 || k >= b.len() {
        1
    } else {
        let f = b[k].max - b[k].min + 1;
        (if f > 0 { f } else { 0 }) * box_size(b, k + 1)
    }
}

pub(crate) proof fn lemma_box_size_nonneg(b: Seq<InputBound>, k: int)
    ensures
        box_size(b, k) >= 0,
    decreases b.len() - k,
{
    if !(k < 0 || k >= b.len()) {
        lemma_box_size_nonneg(b, k + 1);
        let f = b[k].max - b[k].min + 1;
        let g: int = if f > 0 { f } else { 0 };
        let p = box_size(b, k + 1);
        assert(g * p >= 0) by (nonlinear_arith)
            requires g >= 0, p >= 0;
    }
}

/// `a` comes before `p` in lexicographic order, comparing from position `k`.
pub open spec fn lex_before(a: Seq<i64>, p: Seq<i64>, k: int) -> bool {
    exists|d: int| k <= d < p.len() && (forall|j: int| k <= j < d ==> a[j] == p[j]) && #[trigger] a[d] < p[d]
}

pub open spec fn agrees(m: Seq<i64>, p: Seq<i64>, k: int) -> bool {
    forall|j: int| 0 <= j < k ==> m[j] == p[j]
}

fn side_of<'a>(kind: ProgramKind, first: &'a Vec<PathSummary>, second: &'a Vec<PathSummary>) -> (r: &'a Vec<PathSummary>)
    ensures
        r@ == side(kind, first@, second@),
{
    match kind {
        ProgramKind::C => first,
        ProgramKind::Rust => second,
    }
}

fn holds_on_exec(s: &Vec<PathSummary>, i: usize, m: &Vec<i64>) -> (r: bool)
    ensures
        r == holds_on(s@, i as int, m@),
{
    i < s.len() && path_condition_holds(&s[i].path_condition, m)
}

fn covered_exec(s: &Vec<PathSummary>, m: &Vec<i64>) -> (r: bool)
    ensures
        r == covered(s@, m@),
{
    let mut i: usize = 0;
    while i < s.len()
        invariant
            i <= s.len(),
            forall|j: int| 0 <= j < i ==> !#[trigger] holds_on(s@, j, m@),
        decreases s.len() - i,
    {
        if holds_on_exec(s, i, m) {
            return true;
        }
        i += 1;
    }
    assert forall|j: int| !#[trigger] holds_on(s@, j, m@) by {}
    false
}

/// Whether `q` is true of the point `m`.
pub fn query_holds(q: Query, first: &Vec<PathSummary>, second: &Vec<PathSummary>, m: &Vec<i64>) -> (r: bool)
    ensures
        r == sat_at(q, first@, second@, m@),
{
    match q {
        Query::Overlap(k, i, j) => {
            let s = side_of(k, first, second);
            holds_on_exec(s, i, m) && holds_on_exec(s, j, m)
        },
        Query::Uncovered(k) => !covered_exec(side_of(k, first, second), m),
        Query::Joint(i, j) => holds_on_exec(first, i, m) && holds_on_exec(second, j, m),
        Query::Divergence(i, j) => holds_on_exec(first, i, m) && holds_on_exec(second, j, m)
            && behaviors_differ(&first[i], &second[j], m),
    }
}

enum Search {
    Found,
    Exhausted,
    OutOfSteps,
}

/// Tries every completion of `point[..k]` within the box.
fn search(
    q: Query,
    first: &Vec<PathSummary>,
    second: &Vec<PathSummary>,
    bounds: &Vec<InputBound>,
    k: usize,
    point: &mut Vec<i64>,
    steps: &mut u64,
) -> (r: Search)
    requires
        k <= bounds.len(),
        old(point)@.len() == bounds.len(),
        forall|j: int| 0 <= j < k ==> bounds@[j].min <= #[trigger] old(point)@[j] <= bounds@[j].max,
    ensures
        final(point)@.len() == bounds.len(),
        forall|j: int| 0 <= j < k ==> #[trigger] final(point)@[j] == old(point)@[j],
        *final(steps) <= *old(steps),
        *old(steps) - *final(steps) <= box_size(bounds@, k as int),
        r is OutOfSteps ==> *old(steps) < box_size(bounds@, k as int),
        r is Found ==> in_box(final(point)@, bounds@) && sat_at(q, first@, second@, final(point)@),
        r is Found ==> forall|m: Seq<i64>| in_box(m, bounds@) && agrees(m, old(point)@, k as int)
            && lex_before(m, final(point)@, k as int) ==> !#[trigger] sat_at(q, first@, second@, m),
        r is Exhausted ==> forall|m: Seq<i64>| in_box(m, bounds@) && agrees(m, old(point)@, k as int)
            ==> !#[trigger] sat_at(q, first@, second@, m),
        r is OutOfSteps ==> *final(steps) == 0,
    decreases bounds.len() - k,
{
    if k == bounds.len() {
        if *steps == 0 {
            return Search::OutOfSteps;
        }
        *steps = *steps - 1;
        let found = query_holds(q, first, second, point);
        proof {
            assert forall|m: Seq<i64>| in_box(m, bounds@) && agrees(m, point@, k as int) implies m == point@ by {
                assert(m =~= point@);
            }
        }
        return if found { Search::Found } else { Search::Exhausted };
    }
    let lo = bounds[k].min;
    let hi = bounds[k].max;
    if lo > hi {
        proof {
            assert forall|m: Seq<i64>| in_box(m, bounds@) implies !#[trigger] sat_at(q, first@, second@, m) by {
                assert(bounds@[k as int].min <= m[k as int] <= bounds@[k as int].max);
            }
        }
        return Search::Exhausted;
    }
    let ghost start = point@;
    let ghost p = box_size(bounds@, k + 1);
    proof {
        lemma_box_size_nonneg(bounds@, k + 1);
        assert(box_size(bounds@, k as int) == (hi - lo + 1) * p);
    }
    let mut v: i64 = lo;
    loop
        invariant
            k < bounds.len(),
            lo == bounds@[k as int].min,
            hi == bounds@[k as int].max,
            lo <= v <= hi,
            point@.len() == bounds.len(),
            *steps <= *old(steps),
            forall|j: int| 0 <= j < k ==> #[trigger] point@[j] == start[j],
            forall|j: int| 0 <= j < k ==> bounds@[j].min <= #[trigger] start[j] <= bounds@[j].max,
            start == old(point)@,
            start.len() == bounds.len(),
            p == box_size(bounds@, k + 1),
            p >= 0,
            box_size(bounds@, k as int) == (hi - lo + 1) * p,
            *old(steps) - *steps <= (v - lo) * p,
            forall|m: Seq<i64>| in_box(m, bounds@) && agrees(m, start, k as int) && m[k as int] < v
                ==> !#[trigger] sat_at(q, first@, second@, m),
        decreases hi - v,
    {
        point.set(k, v);
        let ghost before = point@;
        let ghost steps_before = *steps;
        let r = search(q, first, second, bounds, k + 1, point, steps);
        proof {
            assert((v - lo) * p + p == (v - lo + 1) * p) by (nonlinear_arith);
            assert((v - lo + 1) * p <= (hi - lo + 1) * p) by (nonlinear_arith)
                requires v <= hi, p >= 0;
        }
        match r {
            Search::Exhausted => {},
            Search::Found => {
                proof {
                    assert forall|m: Seq<i64>| in_box(m, bounds@) && agrees(m, start, k as int)
                        && lex_before(m, point@, k as int) implies !#[trigger] sat_at(q, first@, second@, m) by {
                        let d = choose|d: int| k <= d < point@.len() && (forall|j: int| k <= j < d ==> m[j] == point@[j])
                            && #[trigger] m[d] < point@[d];
                        if d > k {
                            assert(m[k as int] == point@[k as int]);
                            assert(lex_before(m, point@, k + 1));
                            assert(agrees(m, before, k + 1));
                        }
                    }
                }
                return Search::Found;
            },
            Search::OutOfSteps => {
                return Search::OutOfSteps;
            },
        }
        proof {
            assert forall|m: Seq<i64>| in_box(m, bounds@) && agrees(m, start, k as int) && m[k as int] <= v
                implies !#[trigger] sat_at(q, first@, second@, m) by {
                if m[k as int] == v {
                    assert(agrees(m, before, k + 1));
                }
            }
        }
        if v == hi {
            return Search::Exhausted;
        }
        proof {
            assert((v - lo) * p + p == (v + 1 - lo) * p) by (nonlinear_arith);
        }
        v = v + 1;
    }
}

/// Decides `q` over the box `bounds`, spending at most `*steps` point
/// evaluations; `Unknown(Timeout)` when they run out.
pub fn solve(
    q: Query,
    first: &Vec<PathSummary>,
    second: &Vec<PathSummary>,
    bounds: &Vec<InputBound>,
    steps: &mut u64,
) -> (r: SolverOutcome)
    ensures
        *final(steps) <= *old(steps),
        *old(steps) - *final(steps) <= box_size(bounds@, 0),
        r is Unknown ==> *old(steps) < box_size(bounds@, 0),
        r matches SolverOutcome::Satisfiable(m) ==> in_box(m@, bounds@) && sat_at(q, first@, second@, m@),
        r matches SolverOutcome::Satisfiable(m) ==> forall|a: Seq<i64>| in_box(a, bounds@) && lex_before(a, m@, 0)
            ==> !#[trigger] sat_at(q, first@, second@, a),
        r is Unsatisfiable ==> !satisfiable(q, first@, second@, bounds@),
        r matches SolverOutcome::Unknown(reason) ==> reason == UnknownReason::Timeout && *final(steps) == 0,
{
    let mut point: Vec<i64> = Vec::new();
    while point.len() < bounds.len()
        invariant
            point@.len() <= bounds.len(),
        decreases bounds.len() - point@.len(),
    {
        point.push(0);
    }
    let ghost start = point@;
    match search(q, first, second, bounds, 0, &mut point, steps) {
        Search::Found => {
            proof {
                assert forall|a: Seq<i64>| in_box(a, bounds@) && lex_before(a, point@, 0)
                    implies !#[trigger] sat_at(q, first@, second@, a) by {
                    assert(agrees(a, start, 0));
                }
            }
            SolverOutcome::Satisfiable(point)
        },
        Search::Exhausted => {
            proof {
                assert forall|m: Seq<i64>| in_box(m, bounds@) implies !#[trigger] sat_at(q, first@, second@, m) by {
                    assert(agrees(m, start, 0));
                }
            }
            SolverOutcome::Unsatisfiable
        },
        Search::OutOfSteps => SolverOutcome::Unknown(UnknownReason::Timeout),
    }
}

} // verus!
