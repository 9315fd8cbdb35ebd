//! Compiles an HTML-like template syntax, given as a stream of source tokens,
//! into an ordered sequence of literal text and runtime placeholders.
//!
//! The pipeline parses the tokens into nodes, checks that tags are balanced
//! and attributes unique, splits the nodes into parts, and merges the parts
//! into segments: literal text known at compile time, and placeholders for
//! the expressions evaluated when the output is written.

pub mod number;
mod text;
pub mod ast;
pub mod compile;
pub mod error;
pub mod escape;
pub mod laws;
pub mod lower;
pub mod merge;
pub mod parse;
pub mod token;
pub mod validate;

pub use ast::{Attribute, DashIdent, Doctype, Node, Tag, Template, Value};
pub use compile::{FormatArgs, WriteInput};
pub use error::{Error, ErrorKind};
pub use escape::{escape, escape_into, PreEscaped, Render};
pub use lower::Part;
pub use merge::Segment;
pub use token::{Delimiter, LitValue, Span, Token};
