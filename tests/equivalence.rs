use equivalence_checker::compiler::compile;
use equivalence_checker::equivalence::{build_counterexample, check};
use equivalence_checker::expr::{compare, normalize, substitute, BinOp, Evaluation, Expr};
use equivalence_checker::instrumentor::instrument;
use equivalence_checker::normalizer;
use equivalence_checker::reporter::generate;
use equivalence_checker::symbolic::{execute, SymbolicSummaries};
use equivalence_checker::types::{
    AnalysisConfig, ChannelValue, CheckerError, DifferenceKind, FileOpKind, FileOperation, InputBound,
    PathSummary, ProgramKind, UnknownReason, Verdict,
};

fn lit(v: i64) -> Expr {
    Expr::Int(v)
}

fn x() -> Expr {
    Expr::Var(0)
}

fn bin(op: BinOp, a: Expr, b: Expr) -> Expr {
    Expr::Bin(op, Box::new(a), Box::new(b))
}

fn path(id: &str, program: ProgramKind, pc: Vec<Expr>, ret: Expr) -> PathSummary {
    PathSummary {
        id: id.to_string(),
        program,
        path_condition: pc,
        return_expr: ret,
        stdout_log: vec![],
        stderr_log: vec![],
        global_writes: vec![],
        file_ops: vec![],
    }
}

fn bound(name: &str, min: i64, max: i64) -> InputBound {
    InputBound { name: name.to_string(), min, max }
}

fn config(bounds: Vec<InputBound>, max_paths: u32) -> AnalysisConfig {
    AnalysisConfig {
        c_file: "a.c".to_string(),
        rust_file: "a.rs".to_string(),
        function_name: "compute".to_string(),
        bounds,
        max_paths,
        timeout: 60,
    }
}

fn summaries(c: Vec<PathSummary>, r: Vec<PathSummary>) -> SymbolicSummaries {
    SymbolicSummaries { c_summaries: c, rust_summaries: r }
}

/// x < 50 -> 2x ; x >= 50 -> x + 1
fn split_paths(program: ProgramKind, tag: &str) -> Vec<PathSummary> {
    vec![
        path(&format!("{}-1", tag), program, vec![bin(BinOp::Lt, x(), lit(50))], bin(BinOp::Mul, x(), lit(2))),
        path(&format!("{}-2", tag), program, vec![bin(BinOp::Ge, x(), lit(50))], bin(BinOp::Add, x(), lit(1))),
    ]
}

#[test]
fn normalize_is_idempotent() {
    let e = bin(BinOp::Add, bin(BinOp::Mul, lit(3), x()), bin(BinOp::Gt, Expr::Var(1), bin(BinOp::Add, lit(2), lit(5))));
    let once = normalize(&e);
    let twice = normalize(&once);
    assert!(once == twice);
}

#[test]
fn normalize_ignores_operand_order() {
    let a = bin(BinOp::Mul, x(), Expr::Var(1));
    let b = bin(BinOp::Sub, Expr::Var(2), lit(4));
    let ab = normalize(&bin(BinOp::Add, bin(BinOp::Mul, x(), Expr::Var(1)), bin(BinOp::Sub, Expr::Var(2), lit(4))));
    let ba = normalize(&bin(BinOp::Add, b, a));
    assert!(ab == ba);
    assert_eq!(compare(&ab, &ba), 0);
}

#[test]
fn normalize_folds_constants_and_flips_greater() {
    let folded = normalize(&bin(BinOp::Add, lit(2), bin(BinOp::Mul, lit(3), lit(4))));
    assert!(folded == lit(14));
    let flipped = normalize(&bin(BinOp::Gt, x(), lit(5)));
    assert!(flipped == bin(BinOp::Lt, lit(5), x()));
    let kept = normalize(&bin(BinOp::Div, lit(1), lit(0)));
    assert!(kept == bin(BinOp::Div, lit(1), lit(0)));
    assert!(normalize(&Expr::Not(Box::new(lit(0)))) == lit(1));
}

#[test]
fn substitute_evaluates_and_reports_faults() {
    let m = vec![6i64, -3];
    assert_eq!(substitute(&bin(BinOp::Add, x(), lit(1)), &m), Evaluation::Value(7));
    assert_eq!(substitute(&bin(BinOp::Div, Expr::Var(1), lit(2)), &m), Evaluation::Value(-1));
    assert_eq!(substitute(&bin(BinOp::Rem, Expr::Var(1), lit(2)), &m), Evaluation::Value(-1));
    assert_eq!(substitute(&bin(BinOp::Gt, x(), lit(5)), &m), Evaluation::Value(1));
    assert_eq!(substitute(&bin(BinOp::Div, x(), lit(0)), &m), Evaluation::DivisionByZero);
    assert_eq!(substitute(&bin(BinOp::Mul, lit(i64::MAX), lit(2)), &m), Evaluation::Overflow);
    assert_eq!(substitute(&Expr::Var(2), &m), Evaluation::UnboundVariable);
}

#[test]
fn differing_return_gives_counterexample() {
    let a = vec![
        path("C-1", ProgramKind::C, vec![bin(BinOp::Gt, x(), lit(5))], bin(BinOp::Add, x(), lit(1))),
        path("C-2", ProgramKind::C, vec![bin(BinOp::Le, x(), lit(5))], x()),
    ];
    let b = vec![path("R-1", ProgramKind::Rust, vec![bin(BinOp::Ge, x(), lit(0))], x())];
    let res = check(&config(vec![bound("x", 0, 10)], 100), &summaries(a, b)).unwrap();
    assert_eq!(res.verdict, Verdict::NotEquivalent);
    assert_eq!(res.unknown_reason, None);
    assert_eq!(res.paths_compared, 1);
    let ce = res.counterexample.unwrap();
    assert_eq!(ce.inputs, vec![("x".to_string(), 6)]);
    assert_eq!(ce.c_behavior.return_value, Evaluation::Value(7));
    assert_eq!(ce.rust_behavior.return_value, Evaluation::Value(6));
    assert_eq!(ce.differences.len(), 1);
    assert_eq!(ce.differences[0].kind, DifferenceKind::ReturnValue);
    assert!(matches!(ce.differences[0].c_value, ChannelValue::Scalar(Evaluation::Value(7))));
    assert!(matches!(ce.differences[0].rust_value, ChannelValue::Scalar(Evaluation::Value(6))));
}

#[test]
fn identical_partitions_are_equivalent() {
    let res = check(
        &config(vec![bound("x", 0, 100)], 100),
        &summaries(split_paths(ProgramKind::C, "C"), split_paths(ProgramKind::Rust, "R")),
    )
    .unwrap();
    assert_eq!(res.verdict, Verdict::Equivalent);
    assert_eq!(res.paths_compared, 2);
    assert!(res.counterexample.is_none());
}

#[test]
fn partial_coverage_is_unknown() {
    let a = vec![path("C-1", ProgramKind::C, vec![bin(BinOp::Le, x(), lit(50))], x())];
    let b = vec![path("R-1", ProgramKind::Rust, vec![bin(BinOp::Ge, x(), lit(0))], x())];
    let res = check(&config(vec![bound("x", 0, 100)], 100), &summaries(a, b)).unwrap();
    assert_eq!(res.verdict, Verdict::Unknown);
    assert_eq!(res.unknown_reason, Some(UnknownReason::IncompleteCoverage));
    assert_eq!(res.paths_compared, 1);
    assert!(res.counterexample.is_none());
}

#[test]
fn compared_counts_joint_regions_only() {
    // first: x < 50, x >= 50 ; second: x < 20, 20 <= x < 70, x >= 70
    let b = vec![
        path("R-1", ProgramKind::Rust, vec![bin(BinOp::Lt, x(), lit(20))], bin(BinOp::Mul, x(), lit(2))),
        path("R-2", ProgramKind::Rust, vec![bin(BinOp::Ge, x(), lit(20)), bin(BinOp::Lt, x(), lit(70))],
            bin(BinOp::Add, bin(BinOp::Add, bin(BinOp::Mul, bin(BinOp::Lt, x(), lit(50)), x()), x()), bin(BinOp::Ge, x(), lit(50)))),
        path("R-3", ProgramKind::Rust, vec![bin(BinOp::Ge, x(), lit(70))], bin(BinOp::Add, lit(1), x())),
    ];
    let res = check(&config(vec![bound("x", 0, 99)], 100), &summaries(split_paths(ProgramKind::C, "C"), b)).unwrap();
    // 4 of the 6 pairs overlap: (C-1,R-1), (C-1,R-2), (C-2,R-2), (C-2,R-3)
    assert_eq!(res.paths_compared, 4);
    assert_eq!(res.verdict, Verdict::Equivalent);
}

#[test]
fn zero_budget_is_unknown() {
    let res = check(
        &config(vec![bound("x", 0, 100)], 0),
        &summaries(split_paths(ProgramKind::C, "C"), split_paths(ProgramKind::Rust, "R")),
    )
    .unwrap();
    assert_eq!(res.verdict, Verdict::Unknown);
    assert_eq!(res.unknown_reason, Some(UnknownReason::PathBudgetExceeded));
    assert_eq!(res.paths_compared, 0);
}

#[test]
fn small_budget_stops_scanning() {
    let res = check(
        &config(vec![bound("x", 0, 100)], 1),
        &summaries(split_paths(ProgramKind::C, "C"), split_paths(ProgramKind::Rust, "R")),
    )
    .unwrap();
    assert_eq!(res.unknown_reason, Some(UnknownReason::PathBudgetExceeded));
    assert_eq!(res.paths_compared, 1);
}

#[test]
fn zero_timeout_is_unknown() {
    let mut c = config(vec![bound("x", 0, 100)], 10);
    c.timeout = 0;
    let res = check(&c, &summaries(split_paths(ProgramKind::C, "C"), split_paths(ProgramKind::Rust, "R"))).unwrap();
    assert_eq!(res.unknown_reason, Some(UnknownReason::Timeout));
}

#[test]
fn overlapping_paths_are_rejected() {
    let a = vec![
        path("C-1", ProgramKind::C, vec![bin(BinOp::Le, x(), lit(60))], x()),
        path("C-2", ProgramKind::C, vec![bin(BinOp::Ge, x(), lit(40))], x()),
    ];
    let err = check(&config(vec![bound("x", 0, 100)], 10), &summaries(a, split_paths(ProgramKind::Rust, "R"))).unwrap_err();
    match err {
        CheckerError::PathOverlap(p, q) => {
            assert_eq!(p, "C-1");
            assert_eq!(q, "C-2");
        },
        other => panic!("unexpected {:?}", other),
    }
}

#[test]
fn bad_inputs_are_rejected() {
    let s = || summaries(split_paths(ProgramKind::C, "C"), split_paths(ProgramKind::Rust, "R"));
    assert!(matches!(check(&config(vec![bound("x", 5, 1)], 10), &s()), Err(CheckerError::InvalidBounds)));
    assert!(matches!(
        check(&config(vec![bound("x", 0, 1), bound("x", 0, 1)], 10), &s()),
        Err(CheckerError::DuplicateInput)
    ));
    let a = vec![path("C-1", ProgramKind::C, vec![], Expr::Var(1))];
    let b = vec![path("R-1", ProgramKind::Rust, vec![], x())];
    assert!(matches!(check(&config(vec![bound("x", 0, 1)], 10), &summaries(a, b)), Err(CheckerError::UnboundVariable)));
}

#[test]
fn effects_are_compared_per_channel() {
    let mut a = path("C-1", ProgramKind::C, vec![], x());
    a.stdout_log = vec![x()];
    a.global_writes = vec![("g".to_string(), lit(1)), ("g".to_string(), x())];
    a.file_ops = vec![FileOperation { op_type: FileOpKind::Open, filename: "f".to_string(), data: None }];
    let mut b = path("R-1", ProgramKind::Rust, vec![], x());
    b.stdout_log = vec![x(), lit(0)];
    b.global_writes = vec![("g".to_string(), lit(1))];
    b.file_ops = vec![FileOperation { op_type: FileOpKind::Open, filename: "f".to_string(), data: None }];
    let res = check(&config(vec![bound("x", 3, 4)], 10), &summaries(vec![a], vec![b])).unwrap();
    assert_eq!(res.verdict, Verdict::NotEquivalent);
    let ce = res.counterexample.unwrap();
    assert_eq!(ce.inputs, vec![("x".to_string(), 3)]);
    let kinds: Vec<DifferenceKind> = ce.differences.iter().map(|d| d.kind.clone()).collect();
    assert_eq!(kinds, vec![DifferenceKind::Stdout, DifferenceKind::GlobalVariable("g".to_string())]);
    assert_eq!(ce.c_behavior.globals.len(), 2);
}

#[test]
fn same_faults_are_same_behavior() {
    let a = vec![path("C-1", ProgramKind::C, vec![], bin(BinOp::Div, lit(1), x()))];
    let b = vec![path("R-1", ProgramKind::Rust, vec![], bin(BinOp::Rem, lit(1), x()))];
    let res = check(&config(vec![bound("x", 0, 0)], 10), &summaries(a, b)).unwrap();
    assert_eq!(res.verdict, Verdict::Equivalent);
}

#[test]
fn incomplete_model_is_rejected() {
    let p = path("C-1", ProgramKind::C, vec![], x());
    let q = path("R-1", ProgramKind::Rust, vec![], lit(2));
    let bounds = vec![bound("x", 0, 9), bound("y", 0, 9)];
    assert!(matches!(build_counterexample(&p, &q, &bounds, &vec![1]), Err(CheckerError::ModelIncomplete)));
    let ce = build_counterexample(&p, &q, &bounds, &vec![1, 2, 3]).unwrap();
    assert_eq!(ce.inputs, vec![("x".to_string(), 1), ("y".to_string(), 2)]);
    assert_eq!(ce.differences.len(), 1);
}

#[test]
fn pipeline_stages_pass_paths_along() {
    let c = config(vec![bound("x", 0, 1)], 1);
    let ir = compile(&c).unwrap();
    assert_eq!(ir.c_ir_path, "/tmp/compute.bc");
    assert_eq!(ir.rust_ir_path, "/tmp/compute_rust.bc");
    let n = normalizer::normalize(&c, &ir).unwrap();
    assert_eq!(n.c_normalized_path, "/tmp/compute.bc");
    let f = instrument(&c, &n).unwrap();
    assert_eq!(f.rust_instrumented_path, "/tmp/compute_rust.bc");
    let s = execute(&c, &f).unwrap();
    assert!(s.c_summaries.is_empty() && s.rust_summaries.is_empty());
    let res = check(&c, &s).unwrap();
    assert_eq!(res.unknown_reason, Some(UnknownReason::IncompleteCoverage));
    assert_eq!(generate(&c, &res).unwrap(), "output/report.html");
}

#[test]
fn counterexample_is_least_diverging_point() {
    let y = || Expr::Var(1);
    let a = vec![path("C-1", ProgramKind::C, vec![], bin(BinOp::Add, x(), y()))];
    let b = vec![path("R-1", ProgramKind::Rust, vec![], bin(BinOp::Mul, x(), y()))];
    let res = check(&config(vec![bound("x", 0, 3), bound("y", 0, 3)], 10), &summaries(a, b)).unwrap();
    assert_eq!(res.verdict, Verdict::NotEquivalent);
    let ce = res.counterexample.unwrap();
    assert_eq!(ce.inputs, vec![("x".to_string(), 0), ("y".to_string(), 1)]);
    assert_eq!(ce.c_behavior.return_value, Evaluation::Value(1));
    assert_eq!(ce.rust_behavior.return_value, Evaluation::Value(0));
}

#[test]
fn every_differing_global_is_listed_once() {
    let mut a = path("C-1", ProgramKind::C, vec![], x());
    a.global_writes = vec![("g".to_string(), lit(1)), ("h".to_string(), lit(2)), ("g".to_string(), lit(3)), ("k".to_string(), lit(5))];
    let mut b = path("R-1", ProgramKind::Rust, vec![], x());
    b.global_writes = vec![("h".to_string(), lit(2)), ("g".to_string(), lit(1)), ("j".to_string(), lit(4)), ("k".to_string(), lit(5))];
    let res = check(&config(vec![bound("x", 0, 0)], 10), &summaries(vec![a], vec![b])).unwrap();
    let ce = res.counterexample.unwrap();
    let kinds: Vec<DifferenceKind> = ce.differences.iter().map(|d| d.kind.clone()).collect();
    assert_eq!(kinds, vec![DifferenceKind::GlobalVariable("g".to_string()), DifferenceKind::GlobalVariable("j".to_string())]);
    assert!(matches!(ce.differences[0].c_value, ChannelValue::Global(Some(Evaluation::Value(3)))));
    assert!(matches!(ce.differences[0].rust_value, ChannelValue::Global(Some(Evaluation::Value(1)))));
    assert!(matches!(ce.differences[1].c_value, ChannelValue::Global(None)));
}

#[test]
fn graver_fault_wins_whatever_the_order() {
    let m = vec![1i64];
    let div0 = || bin(BinOp::Div, x(), lit(0));
    let over = || bin(BinOp::Add, x(), lit(i64::MAX));
    assert_eq!(substitute(&bin(BinOp::Add, div0(), over()), &m), Evaluation::DivisionByZero);
    assert_eq!(substitute(&bin(BinOp::Add, over(), div0()), &m), Evaluation::DivisionByZero);
    assert_eq!(substitute(&bin(BinOp::Add, over(), Expr::Var(3)), &m), Evaluation::UnboundVariable);
    let e = bin(BinOp::Add, div0(), over());
    assert_eq!(substitute(&normalize(&e), &m), substitute(&e, &m));
}

#[test]
fn grouping_of_a_sum_is_kept() {
    let m = vec![1i64, i64::MAX, -1];
    let left = bin(BinOp::Add, bin(BinOp::Add, x(), Expr::Var(1)), Expr::Var(2));
    let right = bin(BinOp::Add, x(), bin(BinOp::Add, Expr::Var(1), Expr::Var(2)));
    assert_eq!(substitute(&left, &m), Evaluation::Overflow);
    assert_eq!(substitute(&right, &m), Evaluation::Value(i64::MAX));
    assert_eq!(substitute(&normalize(&left), &m), Evaluation::Overflow);
    assert_eq!(substitute(&normalize(&right), &m), Evaluation::Value(i64::MAX));
}
