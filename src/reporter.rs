//! The stage that renders the result.
use vstd::prelude::*;
use crate::types::{AnalysisConfig, CheckerError, EquivalenceResult};

verus! {

/// Where the report of a run is written.
pub fn generate(_config: &AnalysisConfig, _result: &EquivalenceResult) -> (r: Result<String, CheckerError>)
    ensures
        r matches Ok(path) && path@ == "output/report.html"@,
{
    Ok(String::from_str("output/report.html"))
}

} // verus!
