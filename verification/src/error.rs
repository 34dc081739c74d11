//! The ways in which an expansion can fail.

use vstd::prelude::*;

verus! {

/// Why a text could not be expanded.
#[derive(Debug, Clone, Copy, PartialEq, Eq, Structural)]
pub enum PreprocessError {
    /// The parenthesis that directly follows the name in a `#define` does not
    /// open a well-formed, closed parameter list.
    MalformedParameterList,
    /// The text ends before the line that holds a `#define` does.
    UnterminatedDefinition,
    /// Arguments that have to be expanded before substitution are nested more
    /// deeply than the limit allows.
    NestingTooDeep,
}

impl PreprocessError {
    /// A sentence that names the construct at fault.
    pub fn message(&self) -> (r: String)
        ensures
            r@ == match *self {
                PreprocessError::MalformedParameterList => "malformed parameter list in #define"@,
                PreprocessError::UnterminatedDefinition => "unterminated #define"@,
                PreprocessError::NestingTooDeep => "macro arguments nested too deeply"@,
            },
    {
        match self {
            PreprocessError::MalformedParameterList => String::from_str(
                "malformed parameter list in #define",
            ),
            PreprocessError::UnterminatedDefinition => String::from_str("unterminated #define"),
            PreprocessError::NestingTooDeep => String::from_str(
                "macro arguments nested too deeply",
            ),
        }
    }
}

} // verus!
