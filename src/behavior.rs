//! Observable behavior of one path on concrete inputs, and the comparison
//! of two such behaviors channel by channel.
use vstd::prelude::*;
use crate::expr::{eval, substitute, Evaluation, Expr};
use crate::types::{
    BehaviorSnapshot, ChannelValue, Difference, DifferenceKind, FileOperation, ObservedFileOp,
    PathSummary,
};

verus! {

/// Each clause of `pc` evaluates to a non-zero value.
pub open spec fn pc_holds(pc: Seq<Expr>, m: Seq<i64>) -> bool {
    forall|k: int| 0 <= k < pc.len() ==> #[trigger] eval(pc[k], m) is Value && eval(pc[k], m)->Value_0 != 0
}

pub open spec fn evals(log: Seq<Expr>, m: Seq<i64>) -> Seq<Evaluation> {
    Seq::new(log.len(), |k: int| eval(log[k], m))
}

pub open spec fn eval_opt(e: Option<Expr>, m: Seq<i64>) -> Option<Evaluation> {
    match e {
        Some(x) => Some(eval(x, m)),
        None => None,
    }
}

/// The value of the last write to `name`, if any.
pub open spec fn global_eff(ws: Seq<(String, Expr)>, name: Seq<char>, m: Seq<i64>) -> Option<Evaluation>
    decreases ws.len(),
{
    if ws.len() == 0 {
        None
    } else if ws.last().0@ == name {
        Some(eval(ws.last().1, m))
    } else {
        global_eff(ws.drop_last(), name, m)
    }
}

pub open spec fn globals_same(w1: Seq<(String, Expr)>, w2: Seq<(String, Expr)>, m: Seq<i64>) -> bool {
    forall|name: Seq<char>| #[trigger] global_eff(w1, name, m) == global_eff(w2, name, m)
}

pub open spec fn file_op_same(a: FileOperation, b: FileOperation, m: Seq<i64>) -> bool {
    a.op_type == b.op_type && a.filename@ == b.filename@ && eval_opt(a.data, m) == eval_opt(b.data, m)
}

pub open spec fn files_same(f1: Seq<FileOperation>, f2: Seq<FileOperation>, m: Seq<i64>) -> bool {
    f1.len() == f2.len() && forall|k: int| 0 <= k < f1.len() ==> #[trigger] file_op_same(f1[k], f2[k], m)
}

/// Whether the two paths show a different value on channel `kind` under `m`.
pub open spec fn channel_differs(kind: DifferenceKind, p: PathSummary, q: PathSummary, m: Seq<i64>) -> bool {
    match kind {
        DifferenceKind::ReturnValue => eval(p.return_expr, m) != eval(q.return_expr, m),
        DifferenceKind::Stdout => evals(p.stdout_log@, m) != evals(q.stdout_log@, m),
        DifferenceKind::Stderr => evals(p.stderr_log@, m) != evals(q.stderr_log@, m),
        DifferenceKind::GlobalVariable(name) => global_eff(p.global_writes@, name@, m) != global_eff(q.global_writes@, name@, m),
        DifferenceKind::FileOperation => !files_same(p.file_ops@, q.file_ops@, m),
    }
}

/// The two paths behave differently under `m` on some channel.
pub open spec fn differs(p: PathSummary, q: PathSummary, m: Seq<i64>) -> bool {
    eval(p.return_expr, m) != eval(q.return_expr, m)
        || evals(p.stdout_log@, m) != evals(q.stdout_log@, m)
        || evals(p.stderr_log@, m) != evals(q.stderr_log@, m)
        || !globals_same(p.global_writes@, q.global_writes@, m)
        || !files_same(p.file_ops@, q.file_ops@, m)
}

/// `s` is what `p` does under `m`.
pub open spec fn snapshot_of(s: BehaviorSnapshot, p: PathSummary, m: Seq<i64>) -> bool {
    &&& s.return_value == eval(p.return_expr, m)
    &&& s.stdout@ == evals(p.stdout_log@, m)
    &&& s.stderr@ == evals(p.stderr_log@, m)
    &&& s.globals@.len() == p.global_writes@.len()
    &&& forall|k: int| 0 <= k < s.globals@.len() ==> (#[trigger] s.globals@[k]).0@ == p.global_writes@[k].0@
        && s.globals@[k].1 == eval(p.global_writes@[k].1, m)
    &&& observed_files(s.file_ops@, p.file_ops@, m)
}

pub open spec fn observed_files(o: Seq<ObservedFileOp>, f: Seq<FileOperation>, m: Seq<i64>) -> bool {
    o.len() == f.len() && forall|k: int| 0 <= k < o.len() ==> (#[trigger] o[k]).op_type == f[k].op_type
        && o[k].filename@ == f[k].filename@ && o[k].data == eval_opt(f[k].data, m)
}

/// Position of a channel in the order `diff_behaviors` lists them.
pub open spec fn channel_index(d: DifferenceKind) -> int {
    match d {
        DifferenceKind::ReturnValue => 0,
        DifferenceKind::Stdout => 1,
        DifferenceKind::Stderr => 2,
        DifferenceKind::GlobalVariable(_) => 3,
        DifferenceKind::FileOperation => 4,
    }
}

pub open spec fn has_channel(ds: Seq<Difference>, c: int) -> bool {
    exists|k: int| 0 <= k < ds.len() && channel_index(#[trigger] ds[k].kind) == c
}

/// The values entry `d` carries: what each program shows on its channel.
pub open spec fn entry_values(d: Difference, p: PathSummary, q: PathSummary, m: Seq<i64>) -> bool {
    match d.kind {
        DifferenceKind::ReturnValue => d.c_value == ChannelValue::Scalar(eval(p.return_expr, m))
            && d.rust_value == ChannelValue::Scalar(eval(q.return_expr, m)),
        DifferenceKind::Stdout => (d.c_value matches ChannelValue::Log(a) && a@ == evals(p.stdout_log@, m))
            && (d.rust_value matches ChannelValue::Log(b) && b@ == evals(q.stdout_log@, m)),
        DifferenceKind::Stderr => (d.c_value matches ChannelValue::Log(a) && a@ == evals(p.stderr_log@, m))
            && (d.rust_value matches ChannelValue::Log(b) && b@ == evals(q.stderr_log@, m)),
        DifferenceKind::GlobalVariable(n) => d.c_value == ChannelValue::Global(global_eff(p.global_writes@, n@, m))
            && d.rust_value == ChannelValue::Global(global_eff(q.global_writes@, n@, m)),
        DifferenceKind::FileOperation => (d.c_value matches ChannelValue::Files(a) && observed_files(a@, p.file_ops@, m))
            && (d.rust_value matches ChannelValue::Files(b) && observed_files(b@, q.file_ops@, m)),
    }
}

/// Two entries of one list never name the same channel; entries for
/// globals name different globals.
pub open spec fn one_entry_per_channel(ds: Seq<Difference>) -> bool {
    forall|i: int, j: int| 0 <= i < j < ds.len() && channel_index(#[trigger] ds[i].kind) == channel_index(#[trigger] ds[j].kind)
        ==> (ds[i].kind is GlobalVariable && ds[j].kind is GlobalVariable
            && ds[i].kind->GlobalVariable_0@ != ds[j].kind->GlobalVariable_0@)
}

pub open spec fn lists_global(ds: Seq<Difference>, name: Seq<char>) -> bool {
    exists|k: int| 0 <= k < ds.len() && ((#[trigger] ds[k]).kind matches DifferenceKind::GlobalVariable(n) && n@ == name)
}

/// `ds` lists exactly the differing channels of `p` and `q` under `m`, once
/// each and with both values, and one entry for each global whose last
/// written value differs.
pub open spec fn differences_of(ds: Seq<Difference>, p: PathSummary, q: PathSummary, m: Seq<i64>) -> bool {
    &&& forall|k: int| 0 <= k < ds.len() ==> channel_differs(#[trigger] ds[k].kind, p, q, m) && entry_values(ds[k], p, q, m)
    &&& one_entry_per_channel(ds)
    &&& has_channel(ds, 0) <==> eval(p.return_expr, m) != eval(q.return_expr, m)
    &&& has_channel(ds, 1) <==> evals(p.stdout_log@, m) != evals(q.stdout_log@, m)
    &&& has_channel(ds, 2) <==> evals(p.stderr_log@, m) != evals(q.stderr_log@, m)
    &&& has_channel(ds, 3) <==> !globals_same(p.global_writes@, q.global_writes@, m)
    &&& has_channel(ds, 4) <==> !files_same(p.file_ops@, q.file_ops@, m)
    &&& forall|name: Seq<char>| global_eff(p.global_writes@, name, m) != global_eff(q.global_writes@, name, m)
        ==> #[trigger] lists_global(ds, name)
}

/// Whether every clause of `pc` holds under `m`.
pub fn path_condition_holds(pc: &Vec<Expr>, m: &Vec<i64>) -> (r: bool)
    ensures
        r == pc_holds(pc@, m@),
{
    let mut k: usize = 0;
    while k < pc.len()
        invariant
            k <= pc.len(),
            forall|j: int| 0 <= j < k ==> #[trigger] eval(pc@[j], m@) is Value && eval(pc@[j], m@)->Value_0 != 0,
        decreases pc.len() - k,
    {
        match substitute(&pc[k], m) {
            Evaluation::Value(v) => {
                if v == 0 {
                    return false;
                }
            },
            _ => {
                return false;
            },
        }
        k += 1;
    }
    true
}

/// Evaluates each entry of a log.
pub fn eval_log(log: &Vec<Expr>, m: &Vec<i64>) -> (r: Vec<Evaluation>)
    ensures
        r@ == evals(log@, m@),
{
    let mut out: Vec<Evaluation> = Vec::new();
    let mut k: usize = 0;
    while k < log.len()
        invariant
            k <= log.len(),
            out@ =~= evals(log@, m@).take(k as int),
        decreases log.len() - k,
    {
        out.push(substitute(&log[k], m));
        k += 1;
    }
    assert(out@ =~= evals(log@, m@));
    out
}

fn same_log(a: &Vec<Evaluation>, b: &Vec<Evaluation>) -> (r: bool)
    ensures
        r == (a@ == b@),
{
    if a.len() != b.len() {
        return false;
    }
    let mut k: usize = 0;
    while k < a.len()
        invariant
            k <= a.len(),
            a.len() == b.len(),
            forall|j: int| 0 <= j < k ==> a@[j] == b@[j],
        decreases a.len() - k,
    {
        if a[k] != b[k] {
            return false;
        }
        k += 1;
    }
    assert(a@ =~= b@);
    true
}

fn eval_option(e: &Option<Expr>, m: &Vec<i64>) -> (r: Option<Evaluation>)
    ensures
        r == eval_opt(*e, m@),
{
    match e {
        Some(x) => Some(substitute(x, m)),
        None => None,
    }
}

/// Evaluates the data of each file operation.
pub fn observe_files(f: &Vec<FileOperation>, m: &Vec<i64>) -> (r: Vec<ObservedFileOp>)
    ensures
        observed_files(r@, f@, m@),
{
    let mut out: Vec<ObservedFileOp> = Vec::new();
    let mut k: usize = 0;
    while k < f.len()
        invariant
            k <= f.len(),
            out@.len() == k,
            forall|j: int| 0 <= j < k ==> (#[trigger] out@[j]).op_type == f@[j].op_type
                && out@[j].filename@ == f@[j].filename@ && out@[j].data == eval_opt(f@[j].data, m@),
        decreases f.len() - k,
    {
        let op = &f[k];
        out.push(ObservedFileOp { op_type: op.op_type, filename: op.filename.clone(), data: eval_option(&op.data, m) });
        k += 1;
    }
    out
}

fn same_files(f1: &Vec<FileOperation>, f2: &Vec<FileOperation>, m: &Vec<i64>) -> (r: bool)
    ensures
        r == files_same(f1@, f2@, m@),
{
    if f1.len() != f2.len() {
        return false;
    }
    let mut k: usize = 0;
    while k < f1.len()
        invariant
            k <= f1.len(),
            f1.len() == f2.len(),
            forall|j: int| 0 <= j < k ==> #[trigger] file_op_same(f1@[j], f2@[j], m@),
        decreases f1.len() - k,
    {
        let a = &f1[k];
        let b = &f2[k];
        if a.op_type != b.op_type || a.filename != b.filename || eval_option(&a.data, m) != eval_option(&b.data, m) {
            assert(!file_op_same(f1@[k as int], f2@[k as int], m@));
            return false;
        }
        k += 1;
    }
    true
}

/// The value of the last write to `name` in `ws`.
fn effective(ws: &Vec<(String, Expr)>, name: &String, m: &Vec<i64>) -> (r: Option<Evaluation>)
    ensures
        r == global_eff(ws@, name@, m@),
{
    let mut k: usize = ws.len();
    assert(ws@.take(k as int) =~= ws@);
    while k > 0
        invariant
            k <= ws.len(),
            global_eff(ws@, name@, m@) == global_eff(ws@.take(k as int), name@, m@),
        decreases k,
    {
        assert(ws@.take(k as int).drop_last() =~= ws@.take(k - 1));
        if ws[k - 1].0 == *name {
            return Some(substitute(&ws[k - 1].1, m));
        }
        k -= 1;
    }
    assert(ws@.take(0).len() == 0);
    None
}

proof fn lemma_global_eff_written(ws: Seq<(String, Expr)>, name: Seq<char>, m: Seq<i64>)
    requires
        global_eff(ws, name, m) is Some,
    ensures
        exists|k: int| 0 <= k < ws.len() && (#[trigger] ws[k]).0@ == name,
    decreases ws.len(),
{
    if ws.last().0@ != name {
        lemma_global_eff_written(ws.drop_last(), name, m);
        let k = choose|k: int| 0 <= k < ws.drop_last().len() && (#[trigger] ws.drop_last()[k]).0@ == name;
        assert(ws[k] == ws.drop_last()[k]);
    }
}

/// The name of a global whose last written value differs, if there is one.
fn global_difference(w1: &Vec<(String, Expr)>, w2: &Vec<(String, Expr)>, m: &Vec<i64>) -> (r: Option<String>)
    ensures
        r is None <==> globals_same(w1@, w2@, m@),
        r matches Some(name) ==> global_eff(w1@, name@, m@) != global_eff(w2@, name@, m@),
{
    let mut k: usize = 0;
    while k < w1.len()
        invariant
            k <= w1.len(),
            forall|j: int| 0 <= j < k ==> global_eff(w1@, (#[trigger] w1@[j]).0@, m@) == global_eff(w2@, w1@[j].0@, m@),
        decreases w1.len() - k,
    {
        let name = &w1[k].0;
        if effective(w1, name, m) != effective(w2, name, m) {
            return Some(name.clone());
        }
        k += 1;
    }
    let mut k: usize = 0;
    while k < w2.len()
        invariant
            k <= w2.len(),
            forall|j: int| 0 <= j < w1.len() ==> global_eff(w1@, (#[trigger] w1@[j]).0@, m@) == global_eff(w2@, w1@[j].0@, m@),
            forall|j: int| 0 <= j < k ==> global_eff(w1@, (#[trigger] w2@[j]).0@, m@) == global_eff(w2@, w2@[j].0@, m@),
        decreases w2.len() - k,
    {
        let name = &w2[k].0;
        if effective(w1, name, m) != effective(w2, name, m) {
            return Some(name.clone());
        }
        k += 1;
    }
    assert forall|name: Seq<char>| #[trigger] global_eff(w1@, name, m@) == global_eff(w2@, name, m@) by {
        if global_eff(w1@, name, m@) is Some {
            lemma_global_eff_written(w1@, name, m@);
        } else if global_eff(w2@, name, m@) is Some {
            lemma_global_eff_written(w2@, name, m@);
        }
    }
    None
}

fn seen_name(seen: &Vec<String>, name: &String) -> (r: bool)
    ensures
        r == exists|k: int| 0 <= k < seen@.len() && (#[trigger] seen@[k])@ == name@,
{
    let mut k: usize = 0;
    while k < seen.len()
        invariant
            k <= seen.len(),
            forall|j: int| 0 <= j < k ==> (#[trigger] seen@[j])@ != name@,
        decreases seen.len() - k,
    {
        if seen[k] == *name {
            return true;
        }
        k += 1;
    }
    false
}

/// The entries of `ds` are differing globals of `w1` and `w2`, once each,
/// with both values.
pub open spec fn global_list(ds: Seq<Difference>, w1: Seq<(String, Expr)>, w2: Seq<(String, Expr)>, m: Seq<i64>) -> bool {
    &&& forall|k: int| 0 <= k < ds.len() ==> ((#[trigger] ds[k]).kind matches DifferenceKind::GlobalVariable(n)
        && ds[k].c_value == ChannelValue::Global(global_eff(w1, n@, m))
        && ds[k].rust_value == ChannelValue::Global(global_eff(w2, n@, m))
        && global_eff(w1, n@, m) != global_eff(w2, n@, m))
    &&& forall|i: int, j: int| 0 <= i < j < ds.len() ==> (#[trigger] ds[i]).kind->GlobalVariable_0@
        != (#[trigger] ds[j]).kind->GlobalVariable_0@
}

/// As `global_list`, with `seen` holding the names in order.
pub open spec fn global_entries(ds: Seq<Difference>, seen: Seq<String>, w1: Seq<(String, Expr)>, w2: Seq<(String, Expr)>, m: Seq<i64>) -> bool {
    &&& global_list(ds, w1, w2, m)
    &&& ds.len() == seen.len()
    &&& forall|k: int| 0 <= k < ds.len() ==> (#[trigger] ds[k]).kind->GlobalVariable_0@ == seen[k]@
}

fn add_global_differences(
    ws: &Vec<(String, Expr)>,
    w1: &Vec<(String, Expr)>,
    w2: &Vec<(String, Expr)>,
    m: &Vec<i64>,
    ds: &mut Vec<Difference>,
    seen: &mut Vec<String>,
)
    requires
        global_entries(old(ds)@, old(seen)@, w1@, w2@, m@),
    ensures
        global_entries(final(ds)@, final(seen)@, w1@, w2@, m@),
        forall|k: int| 0 <= k < old(seen)@.len() ==> #[trigger] final(seen)@[k] == old(seen)@[k],
        old(seen)@.len() <= final(seen)@.len(),
        forall|j: int| 0 <= j < ws@.len() && global_eff(w1@, (#[trigger] ws@[j]).0@, m@) != global_eff(w2@, ws@[j].0@, m@)
            ==> exists|k: int| 0 <= k < final(seen)@.len() && (#[trigger] final(seen)@[k])@ == ws@[j].0@,
{
    let mut i: usize = 0;
    while i < ws.len()
        invariant
            i <= ws.len(),
            global_entries(ds@, seen@, w1@, w2@, m@),
            forall|k: int| 0 <= k < old(seen)@.len() ==> #[trigger] seen@[k] == old(seen)@[k],
            old(seen)@.len() <= seen@.len(),
            forall|j: int| 0 <= j < i && global_eff(w1@, (#[trigger] ws@[j]).0@, m@) != global_eff(w2@, ws@[j].0@, m@)
                ==> exists|k: int| 0 <= k < seen@.len() && (#[trigger] seen@[k])@ == ws@[j].0@,
        decreases ws.len() - i,
    {
        let name = &ws[i].0;
        let e1 = effective(w1, name, m);
        let e2 = effective(w2, name, m);
        if e1 != e2 && !seen_name(seen, name) {
            let ghost old_seen = seen@;
            ds.push(Difference {
                kind: DifferenceKind::GlobalVariable(name.clone()),
                c_value: ChannelValue::Global(e1),
                rust_value: ChannelValue::Global(e2),
            });
            seen.push(name.clone());
            proof {
                assert(seen@[old_seen.len() as int]@ == ws@[i as int].0@);
                assert forall|j: int| 0 <= j < i + 1 && global_eff(w1@, (#[trigger] ws@[j]).0@, m@) != global_eff(w2@, ws@[j].0@, m@)
                    implies exists|k: int| 0 <= k < seen@.len() && (#[trigger] seen@[k])@ == ws@[j].0@ by {
                    if j < i {
                        let k = choose|k: int| 0 <= k < old_seen.len() && (#[trigger] old_seen[k])@ == ws@[j].0@;
                        assert(seen@[k] == old_seen[k]);
                    } else {
                        assert(seen@[old_seen.len() as int]@ == ws@[j].0@);
                    }
                }
            }
        } else {
            proof {
                assert forall|j: int| 0 <= j < i + 1 && global_eff(w1@, (#[trigger] ws@[j]).0@, m@) != global_eff(w2@, ws@[j].0@, m@)
                    implies exists|k: int| 0 <= k < seen@.len() && (#[trigger] seen@[k])@ == ws@[j].0@ by {}
            }
        }
        i += 1;
    }
}

/// One entry for each global whose last written value differs under `m`.
fn global_differences(w1: &Vec<(String, Expr)>, w2: &Vec<(String, Expr)>, m: &Vec<i64>) -> (r: Vec<Difference>)
    ensures
        global_list(r@, w1@, w2@, m@),
        forall|name: Seq<char>| global_eff(w1@, name, m@) != global_eff(w2@, name, m@) ==> #[trigger] lists_global(r@, name),
{
    let mut ds: Vec<Difference> = Vec::new();
    let mut seen: Vec<String> = Vec::new();
    add_global_differences(w1, w1, w2, m, &mut ds, &mut seen);
    let ghost after_first = seen@;
    add_global_differences(w2, w1, w2, m, &mut ds, &mut seen);
    proof {
        assert forall|name: Seq<char>| global_eff(w1@, name, m@) != global_eff(w2@, name, m@)
            implies #[trigger] lists_global(ds@, name) by {
            if global_eff(w1@, name, m@) is Some {
                lemma_global_eff_written(w1@, name, m@);
                let j = choose|j: int| 0 <= j < w1@.len() && (#[trigger] w1@[j]).0@ == name;
                let k = choose|k: int| 0 <= k < after_first.len() && (#[trigger] after_first[k])@ == w1@[j].0@;
                assert(seen@[k] == after_first[k]);
                assert(ds@[k].kind is GlobalVariable && ds@[k].kind->GlobalVariable_0@ == name);
            } else {
                lemma_global_eff_written(w2@, name, m@);
                let j = choose|j: int| 0 <= j < w2@.len() && (#[trigger] w2@[j]).0@ == name;
                let k = choose|k: int| 0 <= k < seen@.len() && (#[trigger] seen@[k])@ == w2@[j].0@;
                assert(ds@[k].kind is GlobalVariable && ds@[k].kind->GlobalVariable_0@ == name);
            }
        }
    }
    ds
}

/// Whether `p` and `q` behave differently under `m`.
pub fn behaviors_differ(p: &PathSummary, q: &PathSummary, m: &Vec<i64>) -> (r: bool)
    ensures
        r == differs(*p, *q, m@),
{
    substitute(&p.return_expr, m) != substitute(&q.return_expr, m)
        || !same_log(&eval_log(&p.stdout_log, m), &eval_log(&q.stdout_log, m))
        || !same_log(&eval_log(&p.stderr_log, m), &eval_log(&q.stderr_log, m))
        || global_difference(&p.global_writes, &q.global_writes, m).is_some()
        || !same_files(&p.file_ops, &q.file_ops, m)
}

/// What `p` does under `m`.
pub fn snapshot(p: &PathSummary, m: &Vec<i64>) -> (r: BehaviorSnapshot)
    ensures
        snapshot_of(r, *p, m@),
{
    let mut globals: Vec<(String, Evaluation)> = Vec::new();
    let mut k: usize = 0;
    while k < p.global_writes.len()
        invariant
            k <= p.global_writes.len(),
            globals@.len() == k,
            forall|j: int| 0 <= j < k ==> (#[trigger] globals@[j]).0@ == p.global_writes@[j].0@
                && globals@[j].1 == eval(p.global_writes@[j].1, m@),
        decreases p.global_writes.len() - k,
    {
        globals.push((p.global_writes[k].0.clone(), substitute(&p.global_writes[k].1, m)));
        k += 1;
    }
    BehaviorSnapshot {
        return_value: substitute(&p.return_expr, m),
        stdout: eval_log(&p.stdout_log, m),
        stderr: eval_log(&p.stderr_log, m),
        globals,
        file_ops: observe_files(&p.file_ops, m),
    }
}

/// One entry for each channel on which `p` and `q` differ under `m`, in the
/// order return value, stdout, stderr, globals, file operations.
pub fn diff_behaviors(p: &PathSummary, q: &PathSummary, m: &Vec<i64>) -> (r: Vec<Difference>)
    ensures
        differences_of(r@, *p, *q, m@),
        r@.len() > 0 <==> differs(*p, *q, m@),
{
    let mut ds: Vec<Difference> = Vec::new();
    let rp = substitute(&p.return_expr, m);
    let rq = substitute(&q.return_expr, m);
    if rp != rq {
        ds.push(Difference { kind: DifferenceKind::ReturnValue, c_value: ChannelValue::Scalar(rp), rust_value: ChannelValue::Scalar(rq) });
    }
    let n0 = ds.len();
    let op = eval_log(&p.stdout_log, m);
    let oq = eval_log(&q.stdout_log, m);
    if !same_log(&op, &oq) {
        ds.push(Difference { kind: DifferenceKind::Stdout, c_value: ChannelValue::Log(op), rust_value: ChannelValue::Log(oq) });
    }
    let n1 = ds.len();
    let ep = eval_log(&p.stderr_log, m);
    let eq = eval_log(&q.stderr_log, m);
    if !same_log(&ep, &eq) {
        ds.push(Difference { kind: DifferenceKind::Stderr, c_value: ChannelValue::Log(ep), rust_value: ChannelValue::Log(eq) });
    }
    let n2 = ds.len();
    let mut gds = global_differences(&p.global_writes, &q.global_writes, m);
    let ghost g = gds@;
    ds.append(&mut gds);
    let n3 = ds.len();
    if !same_files(&p.file_ops, &q.file_ops, m) {
        ds.push(Difference { kind: DifferenceKind::FileOperation, c_value: ChannelValue::Files(observe_files(&p.file_ops, m)), rust_value: ChannelValue::Files(observe_files(&q.file_ops, m)) });
    }
    proof {
        let s = ds@;
        let bounds = seq![0, n0 as int, n1 as int, n2 as int, n3 as int, s.len() as int];
        assert(n0 <= 1 && n1 <= n0 + 1 && n2 <= n1 + 1 && n3 == n2 + g.len() && s.len() <= n3 + 1);
        assert forall|k: int| n2 <= k < n3 implies s[k] == g[k - n2] by {}
        assert forall|k: int| 0 <= k < s.len() implies bounds[channel_index(#[trigger] s[k].kind)] <= k
            < bounds[channel_index(s[k].kind) + 1] && channel_differs(s[k].kind, *p, *q, m@)
            && entry_values(s[k], *p, *q, m@) by {
            if n2 <= k < n3 {
                assert(g[k - n2].kind is GlobalVariable);
            }
        }
        assert forall|c: int| 0 <= c < 5 implies has_channel(s, c) <==> bounds[c] < bounds[c + 1] by {
            if bounds[c] < bounds[c + 1] {
                assert(channel_index(s[bounds[c]].kind) == c);
            }
        }
        assert forall|i: int, j: int| 0 <= i < j < s.len() && channel_index(#[trigger] s[i].kind)
            == channel_index(#[trigger] s[j].kind) implies (s[i].kind is GlobalVariable && s[j].kind is GlobalVariable
            && s[i].kind->GlobalVariable_0@ != s[j].kind->GlobalVariable_0@) by {
            assert(bounds[channel_index(s[i].kind)] <= i < bounds[channel_index(s[i].kind) + 1]);
            assert(bounds[channel_index(s[j].kind)] <= j < bounds[channel_index(s[j].kind) + 1]);
            assert(g[i - n2] == s[i] && g[j - n2] == s[j]);
        }
        assert forall|name: Seq<char>| global_eff(p.global_writes@, name, m@) != global_eff(q.global_writes@, name, m@)
            implies #[trigger] lists_global(s, name) by {
            assert(lists_global(g, name));
            let k = choose|k: int| 0 <= k < g.len() && ((#[trigger] g[k]).kind matches DifferenceKind::GlobalVariable(n) && n@ == name);
            assert(s[k + n2] == g[k]);
        }
        assert(!globals_same(p.global_writes@, q.global_writes@, m@) ==> g.len() > 0) by {
            if !globals_same(p.global_writes@, q.global_writes@, m@) {
                let name = choose|name: Seq<char>| #[trigger] global_eff(p.global_writes@, name, m@) != global_eff(q.global_writes@, name, m@);
                assert(lists_global(g, name));
            }
        }
    }
    ds
}

} // verus!
