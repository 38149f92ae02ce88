//! Errors reported while a plan is validated and compiled.

use vstd::prelude::*;
use vstd::string::StringExecFns;

verus! {

#[verifier::external_type_specification]
#[verifier::external_body]
pub struct ExRegexError(regex::Error);

/// A specification node breaks one of its own rules.
#[derive(Debug)]
pub enum ValidationError {
    /// A required field is empty: `name`, or `base_path` of a node that does
    /// not inherit its scope.
    FieldIsMissing(String),
    /// A node must have exactly one of `extract` and `children`.
    ExtractOrDive,
}

/// A pipeline step cannot be compiled.
#[derive(Debug)]
pub enum PipelineError {
    /// The pattern of a `regex` or `regex_find` step does not compile.
    Regex(regex::Error),
    /// No procedure has this name.
    ProcDoesNotExist(String),
    /// The procedure, the arguments given, the arguments required.
    ProcNotEnoughArguments(String, usize, usize),
}

/// A plan cannot be built.
#[derive(Debug)]
pub enum ParseError {
    /// A node has no usable selector and may not go without one: the root,
    /// or a node that does not inherit its scope.
    RequireMatcher,
    Validation(ValidationError),
    Pipeline(PipelineError),
}

impl ValidationError {
    /// A description of the error.
    pub fn message(&self) -> (r: String)
        ensures
            match self {
                ValidationError::FieldIsMissing(f) => r@ == "the required `"@ + f@ + "` field is missing"@,
                ValidationError::ExtractOrDive => r@
                    == "it is only possible to use either 'extract' or 'children' options"@,
            },
    {
        match self {
            ValidationError::FieldIsMissing(f) => {
                let mut m = "the required `".to_owned();
                m.append(f.as_str());
                m.append("` field is missing");
                m
            },
            ValidationError::ExtractOrDive => {
                "it is only possible to use either 'extract' or 'children' options".to_owned()
            },
        }
    }
}

} // verus!
