//! Templates with `{{ variable }}` placeholders, and the shell scripts that
//! fill them in.
//!
//! `parse_template` reads a template, `generate_bash_script` writes the
//! script that renders it.

pub mod facts;
pub mod generate;
pub mod helpers;
pub mod parse;
pub mod path;
pub mod template;
pub mod text;

pub use generate::generate_bash_script;
pub use helpers::escape;
pub use parse::{parse_filtered_variable, parse_template, validate_ident, IdentifierFault, ParseError};
pub use template::{FilteredVariable, Template, Variable};
