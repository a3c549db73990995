//! The error taxonomy of the interpreter core.
//!
//! Every fallible operation returns a `CrushResult`, and each variant of
//! `CrushError` names one failure class: wrong argument count, wrong argument
//! or receiver variant, an index that is not present, assignment to an
//! undeclared name, mutation of a readonly scope, a reassignment that changes
//! a variable's runtime type, a closure with no stages, an exhausted stream,
//! and a catch-all for the remaining invalid-value conditions.

use vstd::prelude::*;

verus! {

/// One failure class of the interpreter core.
#[derive(Clone, Copy, Debug, PartialEq, Eq, Structural)]
pub enum CrushError {
    /// A call supplied the wrong number of arguments.
    ArgumentArity { expected: usize, actual: usize },
    /// An argument or receiver held a different variant than the requested one.
    ArgumentKind,
    /// An argument index was not present in the argument vector.
    IndexOutOfBounds { index: usize },
    /// An assignment named a variable that no lexical ancestor declares.
    UnknownVariable,
    /// A mutation was attempted on a readonly scope.
    ReadOnlyViolation,
    /// A reassignment would change the runtime type of a variable.
    TypeMismatch,
    /// A closure was invoked whose body has no stages.
    EmptyBody,
    /// A stream was read past its end.
    EndOfStream,
    /// Invalid value or invalid cast; also reported when the nesting budget
    /// of an invocation is exhausted.
    Generic,
}

/// The result type of every fallible operation in this crate.
pub type CrushResult<T> = Result<T, CrushError>;

/// The outcome of a timed stream read: record-backed streams never wait, so
/// a failed timed read reports the stream as disconnected rather than timed out.
#[derive(Clone, Copy, Debug, PartialEq, Eq, Structural)]
pub enum RecvTimeoutError {
    Timeout,
    Disconnected,
}

} // verus!
