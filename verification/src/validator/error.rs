//! Diagnostics reported by the linker and the validator.

use vstd::prelude::*;
use vstd::string::StringExecFns;
use crate::intermediate::error::{GrammarError, GrammarErrorModel, GrammarErrorType};

verus! {

/// The kind of a diagnostic.
#[derive(Debug, Clone, Copy, PartialEq, Eq, Structural)]
pub enum ValidatorErrorType {
    /// A reference by name could not be resolved.
    MissingDependency,
    /// A structure could not be linked.
    LinkerError,
    /// A constraint contradicts itself.
    InvalidConstraintsError,
    /// Any other semantic fault.
    SemanticError,
}

/// A diagnostic, optionally attached to the data element it concerns.
#[derive(Debug, PartialEq)]
pub struct ValidatorError {
    pub data_element: Option<String>,
    pub details: String,
    pub kind: ValidatorErrorType,
}

/// The mathematical content of a [`ValidatorError`].
pub struct ValidatorErrorModel {
    pub data_element: Option<Seq<char>>,
    pub details: Seq<char>,
    pub kind: ValidatorErrorType,
}

impl View for ValidatorError {
    type V = ValidatorErrorModel;

    open spec fn view(&self) -> ValidatorErrorModel {
        ValidatorErrorModel {
            data_element: match self.data_element {
                Some(n) => Some(n@),
                None => None,
            },
            details: self.details@,
            kind: self.kind,
        }
    }
}

impl ValidatorErrorModel {
    /// The diagnostic that a linking failure becomes once the data element is known.
    pub open spec fn from_grammar(e: GrammarErrorModel, data_element: Seq<char>) -> ValidatorErrorModel {
        ValidatorErrorModel {
            data_element: Some(data_element),
            details: e.details,
            kind: match e.kind {
                GrammarErrorType::LinkerError => ValidatorErrorType::LinkerError,
                GrammarErrorType::MissingDependency => ValidatorErrorType::MissingDependency,
            },
        }
    }

    /// The same diagnostic, attached to `data_element`.
    pub open spec fn with_data_element(self, data_element: Seq<char>) -> ValidatorErrorModel {
        ValidatorErrorModel { data_element: Some(data_element), ..self }
    }
}

impl ValidatorError {
    /// A diagnostic with the given parts.
    pub fn new(data_element: Option<String>, details: &str, kind: ValidatorErrorType) -> (e: ValidatorError)
        ensures
            e.data_element == data_element,
            e.details@ == details@,
            e.kind == kind,
    {
        ValidatorError { data_element, details: String::from_str(details), kind }
    }

    /// Attaches the diagnostic to `data_element`, replacing an earlier attachment.
    pub fn specify_data_element(&mut self, data_element: String)
        ensures
            final(self)@ == old(self)@.with_data_element(data_element@),
    {
        self.data_element = Some(data_element);
    }

    /// Turns a linking failure into a diagnostic on `data_element`.
    pub fn from_grammar_error(e: GrammarError, data_element: String) -> (r: ValidatorError)
        ensures
            r@ == ValidatorErrorModel::from_grammar(e@, data_element@),
    {
        let kind = match e.kind {
            GrammarErrorType::LinkerError => ValidatorErrorType::LinkerError,
            GrammarErrorType::MissingDependency => ValidatorErrorType::MissingDependency,
        };
        ValidatorError { data_element: Some(data_element), details: e.details, kind }
    }
}

} // verus!
