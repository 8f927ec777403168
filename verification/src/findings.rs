//! What the analysis reports.

use crate::stacked_borrows::Tag;
use vstd::prelude::*;

verus! {

/// The kind of a finding.
#[derive(Clone, Copy, Debug, PartialEq, Eq)]
pub enum FindingKind {
    /// An access through a tag that no frame of the location's stack
    /// carries: the right was invalidated, or never given.
    TagNotFound,
    /// A call passes two mutable locations that may alias.
    AliasedMutableArguments,
    /// A construct that the analysis does not model.
    UnsupportedConstruct,
}

/// A place in the program: a statement of a block of a function. The
/// terminator of a block has the index that follows its last statement.
#[derive(Clone, Copy, Debug, PartialEq, Eq)]
pub struct Location {
    pub function: usize,
    pub block: usize,
    pub statement_index: usize,
}

/// What a finding is about.
#[derive(Clone, Copy, Debug, PartialEq, Eq)]
pub enum Detail {
    /// The tag that was not found.
    Tag(Tag),
    /// The two locations that may alias.
    Locals(u32, u32),
    /// A statement that is not modelled.
    Statement,
    /// The right-hand side of an assignment that is not modelled.
    Rvalue,
    /// A terminator that is not modelled.
    Terminator,
}

/// One finding.
#[derive(Clone, Copy, Debug, PartialEq, Eq)]
pub struct Finding {
    pub kind: FindingKind,
    pub location: Location,
    pub detail: Detail,
}

/// The body of a frame is malformed, or a call names a function that the
/// program does not hold: the analysis of that frame, and of every frame
/// that waits for it, ends without a result.
#[derive(Clone, Copy, Debug, PartialEq, Eq)]
pub struct Malformed {
    /// The function whose frame could not be analysed.
    pub function: usize,
}

} // verus!
