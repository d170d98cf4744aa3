//! Data shared by the pipeline stages and the equivalence core.
use vstd::prelude::*;
use crate::expr::{Evaluation, Expr};

verus! {

/// Everything the user provides for one run.
#[derive(Clone, Debug)]
pub struct AnalysisConfig {
    pub c_file: String,
    pub rust_file: String,
    pub function_name: String,
    /// The bounded input box to check.
    pub bounds: Vec<InputBound>,
    /// Budget of region comparisons for the whole run.
    pub max_paths: u32,
    /// Time budget in seconds.
    pub timeout: u32,
}

/// Bound for one input variable: `min <= value <= max`.
#[derive(Clone, Debug)]
pub struct InputBound {
    pub name: String,
    pub min: i64,
    pub max: i64,
}

/// Outcome of validating the two source files.
#[derive(Clone, Debug)]
pub struct ValidationResult {
    pub success: bool,
    pub c_signature: Option<FunctionSignature>,
    pub rust_signature: Option<FunctionSignature>,
    pub errors: Vec<String>,
}

/// A function's signature as found in a source file.
#[derive(Clone, Debug)]
pub struct FunctionSignature {
    pub name: String,
    pub params: Vec<String>,
    pub return_type: String,
}

/// Which of the two programs a path belongs to.
#[derive(Clone, Copy, Debug, PartialEq, Eq, Structural)]
pub enum ProgramKind {
    C,
    Rust,
}

#[derive(Clone, Copy, Debug, PartialEq, Eq, Structural)]
pub enum FileOpKind {
    Open,
    Write,
    Close,
}

/// A logged file operation; `data` is what a write wrote.
#[derive(Debug)]
pub struct FileOperation {
    pub op_type: FileOpKind,
    pub filename: String,
    pub data: Option<Expr>,
}

/// One explored execution path: its condition (a conjunction of clauses,
/// each true when it evaluates to a non-zero value), its return value and
/// its observable effects.
#[derive(Debug)]
pub struct PathSummary {
    pub id: String,
    pub program: ProgramKind,
    pub path_condition: Vec<Expr>,
    pub return_expr: Expr,
    pub stdout_log: Vec<Expr>,
    pub stderr_log: Vec<Expr>,
    /// Writes to global variables in order; the last write to a name wins.
    pub global_writes: Vec<(String, Expr)>,
    pub file_ops: Vec<FileOperation>,
}

#[derive(Clone, Copy, Debug, PartialEq, Eq, Structural)]
pub enum Verdict {
    Equivalent,
    NotEquivalent,
    Unknown,
}

/// Why a run could not decide.
#[derive(Clone, Copy, Debug, PartialEq, Eq, Structural)]
pub enum UnknownReason {
    Timeout,
    PathBudgetExceeded,
    SolverLimitation,
    IncompleteCoverage,
}

/// A file operation with its data evaluated.
#[derive(Debug)]
pub struct ObservedFileOp {
    pub op_type: FileOpKind,
    pub filename: String,
    pub data: Option<Evaluation>,
}

/// What one program does on concrete inputs.
#[derive(Debug)]
pub struct BehaviorSnapshot {
    pub return_value: Evaluation,
    pub stdout: Vec<Evaluation>,
    pub stderr: Vec<Evaluation>,
    /// Every global write in order, evaluated.
    pub globals: Vec<(String, Evaluation)>,
    pub file_ops: Vec<ObservedFileOp>,
}

#[derive(Clone, Debug, PartialEq, Eq)]
pub enum DifferenceKind {
    ReturnValue,
    Stdout,
    Stderr,
    GlobalVariable(String),
    FileOperation,
}

/// The value one program shows on one channel.
#[derive(Debug)]
pub enum ChannelValue {
    Scalar(Evaluation),
    Log(Vec<Evaluation>),
    /// The last value written to a global, if any.
    Global(Option<Evaluation>),
    Files(Vec<ObservedFileOp>),
}

/// One channel on which the two programs differ.
#[derive(Debug)]
pub struct Difference {
    pub kind: DifferenceKind,
    pub c_value: ChannelValue,
    pub rust_value: ChannelValue,
}

/// Concrete inputs on which the two programs differ.
#[derive(Debug)]
pub struct Counterexample {
    pub inputs: Vec<(String, i64)>,
    pub c_behavior: BehaviorSnapshot,
    pub rust_behavior: BehaviorSnapshot,
    pub differences: Vec<Difference>,
}

/// Result of one run.
#[derive(Debug)]
pub struct EquivalenceResult {
    pub verdict: Verdict,
    /// Set exactly when the verdict is `Unknown`.
    pub unknown_reason: Option<UnknownReason>,
    /// Number of regions whose divergence query was run.
    pub paths_compared: u32,
    pub counterexample: Option<Counterexample>,
}

#[derive(Debug)]
pub enum CheckerError {
    ValidationError(String),
    CompilationError(String),
    NormalizationError(String),
    InstrumentationError(String),
    SymbolicExecutionError(String),
    EquivalenceError(String),
    /// An entry of the textual input box without exactly three fields.
    BoundsFormat(String),
    /// An entry of the textual input box whose limits are not integers.
    BoundsNumber(String),
    /// A bound with `min > max`.
    InvalidBounds,
    /// Two declared inputs share a name.
    DuplicateInput,
    /// An expression names an input that is not declared.
    UnboundVariable,
    /// A model that does not give every declared input a value.
    ModelIncomplete,
    /// Two paths of one program hold together on some input; the ids name them.
    PathOverlap(String, String),
}

} // verus!
