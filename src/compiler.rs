//! The stage that compiles both sources to intermediate representation.
use vstd::prelude::*;
use crate::types::{AnalysisConfig, CheckerError};

verus! {

/// Where the intermediate representation of each program is written.
pub struct IrFiles {
    pub c_ir_path: String,
    pub rust_ir_path: String,
}

/// `prefix ++ name ++ suffix`.
fn join(prefix: &str, name: &String, suffix: &str) -> (r: String)
    ensures
        r@ == prefix@ + name@ + suffix@,
{
    let mut s = String::from_str(prefix);
    s.append(name.as_str());
    s.append(suffix);
    s
}

/// The output paths for the function under test: `/tmp/<name>.bc` for the
/// C program and `/tmp/<name>_rust.bc` for the Rust one.
pub fn compile(config: &AnalysisConfig) -> (r: Result<IrFiles, CheckerError>)
    ensures
        r matches Ok(ir) && ir.c_ir_path@ == "/tmp/"@ + config.function_name@ + ".bc"@
            && ir.rust_ir_path@ == "/tmp/"@ + config.function_name@ + "_rust.bc"@,
{
    Ok(IrFiles {
        c_ir_path: join("/tmp/", &config.function_name, ".bc"),
        rust_ir_path: join("/tmp/", &config.function_name, "_rust.bc"),
    })
}

} // verus!
