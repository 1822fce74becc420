//! The two ways in which interpreting a source text can fail.
use vstd::prelude::*;

verus! {

/// Why a source text was not run to its result.
#[derive(Debug, Clone, Copy, PartialEq, Eq, Structural)]
pub enum DiabloError {
    /// The source text could not be turned into bytecode.
    CompileError,
    /// The bytecode faulted while it ran. `line` is the source line of the
    /// instruction that faulted.
    RuntimeError { line: usize },
}

} // verus!
