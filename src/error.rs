use vstd::prelude::*;
use crate::token::Position;

verus! {

/// The classes of failure that preprocessing can report.
#[derive(Clone, Copy, PartialEq, Eq, Structural, Debug)]
pub enum ErrorKind {
    /// A directive whose keyword was recognised has the wrong shape.
    SyntaxError,
    /// An `else` or `endif` without an open conditional, or a conditional left open.
    StructuralError,
    /// A stringified name that is not a parameter of the macro.
    UnboundName,
    /// A macro invoked with a number of arguments other than its parameter count.
    ArityMismatch,
    /// A path that could not be resolved.
    IncludeError,
    /// Malformed input of another kind.
    InvalidInput,
    /// An `error` directive was reached.
    ErrorDirective,
}

/// A failure, with the source position at which it was detected.
#[derive(Clone, Copy, PartialEq, Eq, Structural, Debug)]
pub struct PpError {
    pub kind: ErrorKind,
    pub position: Position,
}

impl PpError {
    pub fn new(kind: ErrorKind, position: Position) -> (r: PpError)
        ensures
            r == (PpError { kind, position }),
    {
        PpError { kind, position }
    }
}

} // verus!
