//! Runtime errors: a closed set of structured error kinds. Rendering to text
//! happens only at the boundary.
use vstd::prelude::*;
use crate::model::{values_view, ValueV};
use crate::value::Value;

verus! {

/// A runtime error raised by the evaluation engine. Execution stops at the
/// first error; the engine's state up to the failing statement remains in
/// effect.
#[derive(Debug, PartialEq)]
pub enum RuntimeError {
    /// An operation found fewer stack values than its arity requires.
    Arity { op: String, expected: usize, actual: usize },
    /// An operand does not support the requested operation.
    TypeMismatch { op: String, operands: Vec<Value> },
    /// A word was not bound in the environment.
    UnresolvedIdentifier { identifier: String },
    /// A list was indexed outside its bounds.
    IndexOutOfRange { index: i64, length: usize },
    /// The engine's step budget ran out before the pending queue drained.
    StepLimit,
}

/// Model of a runtime error.
pub ghost enum RtErrV {
    Arity { op: Seq<char>, expected: nat, actual: nat },
    TypeMismatch { op: Seq<char>, operands: Seq<ValueV> },
    UnresolvedIdentifier { identifier: Seq<char> },
    IndexOutOfRange { index: int, length: nat },
    StepLimit,
}

pub open spec fn err_view(e: RuntimeError) -> RtErrV {
    match e {
        RuntimeError::Arity { op, expected, actual } => RtErrV::Arity {
            op: op@,
            expected: expected as nat,
            actual: actual as nat,
        },
        RuntimeError::TypeMismatch { op, operands } => RtErrV::TypeMismatch {
            op: op@,
            operands: values_view(operands@),
        },
        RuntimeError::UnresolvedIdentifier { identifier } => RtErrV::UnresolvedIdentifier {
            identifier: identifier@,
        },
        RuntimeError::IndexOutOfRange { index, length } => RtErrV::IndexOutOfRange {
            index: index as int,
            length: length as nat,
        },
        RuntimeError::StepLimit => RtErrV::StepLimit,
    }
}

impl View for RuntimeError {
    type V = RtErrV;

    open spec fn view(&self) -> RtErrV {
        err_view(*self)
    }
}

} // verus!
