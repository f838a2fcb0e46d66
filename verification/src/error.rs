//! Errors raised while parsing a scene description or building the typed
//! scene. Every failure is structured: it identifies the conversion that
//! was running and what was expected against what was found, and scene
//! construction aborts on the first one.

use vstd::prelude::*;

verus! {

/// The typed conversion that was being applied when a failure occurred.
#[derive(Debug, Clone, Copy, PartialEq, Eq, Structural)]
pub enum Target {
    /// Conversion to a single real number.
    Real,
    /// Conversion to a non-negative integer.
    Integer,
    /// Conversion to a three-component vector.
    Vector,
    /// Conversion to a color.
    Color,
    /// Conversion to the object list.
    Objects,
    /// Conversion to a sphere.
    Sphere,
}

#[derive(Debug, Clone, Copy, PartialEq, Eq, Structural)]
pub enum ErrorKind {
    /// A node name started with a digit or held a character outside
    /// ASCII alphanumerics, `-` and `_`.
    InvalidName,
    /// A value token could not be read as a number.
    InvalidNumber,
    /// A `}` line closed a block while none was open.
    UnmatchedClose,
    /// Blocks were still open at the end of the input.
    UnclosedBlocks { open: usize },
    /// The document did not hold exactly one top-level node.
    RootCount { found: usize },
    /// A path lookup found no child with the requested name; `segment`
    /// is the index of the path segment that failed.
    MissingChild { segment: usize },
    /// A node had children where the conversion allowed none.
    UnexpectedChildren { target: Target, found: usize },
    /// A node held the wrong number of values for the conversion.
    WrongValueCount { target: Target, expected: usize, found: usize },
    /// An object node's name matched no known object kind.
    UnknownObject,
    /// A value that had to be a whole number held a fractional part;
    /// `index` is the position of the value in the node.
    NotInteger { target: Target, index: usize },
    /// A value lay outside the valid range of the conversion's type.
    OutOfRange { target: Target, index: usize },
}

/// A scene-construction failure. When the failure occurred while
/// converting a child of the object list, `object` holds that child's
/// index and `kind` the child's own failure, re-reported.
#[derive(Debug, Clone, Copy, PartialEq, Eq, Structural)]
pub struct Error {
    pub object: Option<usize>,
    pub kind: ErrorKind,
}

/// The taxonomy of failures: syntax, schema, and range.
#[derive(Debug, Clone, Copy, PartialEq, Eq, Structural)]
pub enum ErrorClass {
    Syntax,
    Schema,
    Range,
}

pub open spec fn class_of(kind: ErrorKind) -> ErrorClass {
    match kind {
        ErrorKind::InvalidName => ErrorClass::Syntax,
        ErrorKind::InvalidNumber => ErrorClass::Syntax,
        ErrorKind::UnmatchedClose => ErrorClass::Syntax,
        ErrorKind::UnclosedBlocks { .. } => ErrorClass::Syntax,
        ErrorKind::RootCount { .. } => ErrorClass::Syntax,
        ErrorKind::MissingChild { .. } => ErrorClass::Schema,
        ErrorKind::UnexpectedChildren { .. } => ErrorClass::Schema,
        ErrorKind::WrongValueCount { .. } => ErrorClass::Schema,
        ErrorKind::UnknownObject => ErrorClass::Schema,
        ErrorKind::NotInteger { .. } => ErrorClass::Range,
        ErrorKind::OutOfRange { .. } => ErrorClass::Range,
    }
}

/// An error raised outside the object list: no object index attached.
pub open spec fn plain_err(kind: ErrorKind) -> Error {
    Error { object: None, kind }
}

/// An error of a child of the object list, re-reported with its index.
pub open spec fn object_err(index: int, kind: ErrorKind) -> Error {
    Error { object: Some(index as usize), kind }
}

impl Error {
    pub fn new(kind: ErrorKind) -> (e: Error)
        ensures
            e == plain_err(kind),
    {
        Error { object: None, kind }
    }

    /// Which of the three failure classes this error belongs to.
    pub fn class(&self) -> (c: ErrorClass)
        ensures
            c == class_of(self.kind),
    {
        match self.kind {
            ErrorKind::InvalidName => ErrorClass::Syntax,
            ErrorKind::InvalidNumber => ErrorClass::Syntax,
            ErrorKind::UnmatchedClose => ErrorClass::Syntax,
            ErrorKind::UnclosedBlocks { .. } => ErrorClass::Syntax,
            ErrorKind::RootCount { .. } => ErrorClass::Syntax,
            ErrorKind::MissingChild { .. } => ErrorClass::Schema,
            ErrorKind::UnexpectedChildren { .. } => ErrorClass::Schema,
            ErrorKind::WrongValueCount { .. } => ErrorClass::Schema,
            ErrorKind::UnknownObject => ErrorClass::Schema,
            ErrorKind::NotInteger { .. } => ErrorClass::Range,
            ErrorKind::OutOfRange { .. } => ErrorClass::Range,
        }
    }
}

} // verus!
