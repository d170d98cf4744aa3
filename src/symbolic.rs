//! The stage that explores both programs and hands over their path summaries.
use vstd::prelude::*;
use crate::instrumentor::InstrumentedFiles;
use crate::types::{AnalysisConfig, CheckerError, PathSummary};

verus! {

/// The path summaries of the two programs.
pub struct SymbolicSummaries {
    pub c_summaries: Vec<PathSummary>,
    pub rust_summaries: Vec<PathSummary>,
}

/// Runs symbolic execution on the instrumented files. No engine is attached
/// to this stage yet: it reports no paths for either program.
pub fn execute(_config: &AnalysisConfig, _files: &InstrumentedFiles) -> (r: Result<SymbolicSummaries, CheckerError>)
    ensures
        r matches Ok(s) && s.c_summaries@.len() == 0 && s.rust_summaries@.len() == 0,
{
    Ok(SymbolicSummaries { c_summaries: Vec::new(), rust_summaries: Vec::new() })
}

} // verus!
