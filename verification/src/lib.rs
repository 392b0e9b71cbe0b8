//! The calculator's expression language, verified: the whitespace-stripped
//! view of an input line, the grammar that turns it into a stack program or a
//! positioned error, variable-name validation, and small text helpers.
pub mod compile;
pub mod error;
pub mod grammar;
pub mod grammar_laws;
pub mod laws;
pub mod names;
pub mod parser;
pub mod program;
pub mod text;
pub mod variables;

pub use compile::{compile, Program};
pub use error::ParseError;
pub use names::validate_var_name;
pub use program::{Function, Op};
pub use text::{error_pointer, trim_fraction};
