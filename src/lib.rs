//! A line-oriented text buffer that doubles as a small calculator notebook.
use vstd::prelude::*;

pub mod bignum;
pub mod buffer;
pub mod chars;
pub mod functions;
pub mod linear;
pub mod document;
pub mod recognize;
pub mod session;

verus! {

/// Why a committed line gave no result.
#[derive(PartialEq, Eq, Structural, Clone, Copy, Debug)]
pub enum EvalError {
    /// The line is neither a definition, nor a call, nor an equation.
    RecognitionFailure,
    /// A call or an equation names a function that is not defined.
    FunctionNotFound,
    /// The body is not a linear form, or its slope is zero.
    SolveFailure,
    /// The body, once the argument is substituted, is not arithmetic.
    ParseFailure,
}

} // verus!
