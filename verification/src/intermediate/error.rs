//! Errors raised while a definition is assembled or linked.

use vstd::prelude::*;

verus! {

/// What went wrong in a [`GrammarError`].
#[derive(Debug, Clone, Copy, PartialEq, Eq, Structural)]
pub enum GrammarErrorType {
    /// A structure cannot be linked as it stands.
    LinkerError,
    /// A name that linking depends on is not defined.
    MissingDependency,
}

/// A failure of one linking utility, not yet attached to a data element.
#[derive(Debug, PartialEq)]
pub struct GrammarError {
    pub details: String,
    pub kind: GrammarErrorType,
}

/// The mathematical content of a [`GrammarError`].
pub struct GrammarErrorModel {
    pub details: Seq<char>,
    pub kind: GrammarErrorType,
}

impl View for GrammarError {
    type V = GrammarErrorModel;

    open spec fn view(&self) -> GrammarErrorModel {
        GrammarErrorModel { details: self.details@, kind: self.kind }
    }
}

} // verus!
