//! Textual macro expansion for C-family source text: `#define` and `#undef`
//! directives are executed and every macro use is replaced by its expansion.

pub mod error;
pub mod laws;
pub mod parser;
pub mod preprocessor;
pub mod rewrite;
pub mod substitution;
pub mod text;

pub use error::PreprocessError;
pub use parser::Macro;
pub use preprocessor::{preprocess, HideSet, MacroPreprocessor, NESTING_LIMIT};
