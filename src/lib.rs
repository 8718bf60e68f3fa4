pub mod token;
pub mod error;
pub mod quote;
pub mod directives;
pub mod reader;
pub mod macros;
pub mod cond;
pub mod path;
pub mod preprocessor;
pub mod laws;
