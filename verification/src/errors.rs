//! The error kinds a statement can fail with.
use vstd::prelude::*;

verus! {

/// What went wrong while parsing or running a statement.
///
/// `SyntaxError` carries the position of the offending token when one is
/// known; `LookupError` carries the name that was not found.
#[derive(Debug)]
pub enum InterpError {
    /// An unexpected token, premature end of input, or a parse tree whose
    /// shape a command cannot accept.
    SyntaxError { line: usize, offset: usize },
    /// A row's cell count disagrees with the header's.
    ShapeError,
    /// An unknown column name or an unbound variable.
    LookupError { name: String },
    /// An operand that had to be numeric was not.
    TypeError,
    /// A recognised but unimplemented command or operator.
    UnsupportedOperation,
}

/// The kind of an error, with payloads abstracted away; the spec-level
/// interpreter speaks of kinds only.
#[derive(PartialEq, Eq, Structural, Clone, Copy, Debug)]
pub enum ErrKind {
    Syntax,
    Shape,
    Lookup,
    Type,
    Unsupported,
}

impl InterpError {
    pub open spec fn kind(&self) -> ErrKind {
        match self {
            InterpError::SyntaxError { .. } => ErrKind::Syntax,
            InterpError::ShapeError => ErrKind::Shape,
            InterpError::LookupError { .. } => ErrKind::Lookup,
            InterpError::TypeError => ErrKind::Type,
            InterpError::UnsupportedOperation => ErrKind::Unsupported,
        }
    }
}

} // verus!
