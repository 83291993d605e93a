//! Error taxonomies: configuration-time parse errors and render-time errors.

use vstd::prelude::*;

verus! {

/// Why a directive parameter was rejected.
#[derive(Debug, Clone, Copy, PartialEq, Eq, Structural)]
pub enum ParamIssue {
    /// A number slot held a quoted character.
    ExpectedNumber,
    /// A character slot held a number.
    ExpectedCharacter,
    /// A slot that this implementation reserves was filled.
    Unsupported,
    /// A numeric slot held more digits than a parameter can carry.
    TooLarge,
}

/// Why a conditional block was rejected.
#[derive(Debug, Clone, Copy, PartialEq, Eq, Structural)]
pub enum CondIssue {
    /// A boolean conditional must have exactly two choices and no default.
    BooleanArity,
    /// A consuming conditional must have exactly one choice and no default.
    ConsumingArity,
    /// Only the last section of a conditional can be the default.
    DefaultNotLast,
}

/// A configuration-time failure: the control string itself is bad.
#[derive(Debug, Clone, Copy, PartialEq, Eq, Structural)]
pub enum ParseError {
    /// A `~` introduced a letter that is not a directive; holds the
    /// upper-cased letter.
    InvalidDirective(char),
    /// The control string ended in the middle of a single-letter directive.
    UnterminatedDirective,
    /// A break directive stood outside every iteration body.
    BreakOutsideLoop,
    /// A conditional block broke one of the arity rules.
    MalformedConditional(CondIssue),
    /// A directive parameter had the wrong shape.
    BadParameter(ParamIssue),
}

/// A render-time failure: the arguments did not fit the tree, or the sink
/// failed.
#[derive(Debug, Clone, Copy, PartialEq, Eq, Structural)]
pub enum RenderError {
    /// An argument was required but the cursor was exhausted.
    MissingArgument,
    /// An argument had the wrong kind for the directive that popped it.
    TypeMismatch,
    /// The output sink failed; raised only by sinks outside this library.
    Io,
}

} // verus!
