//! Conversion of the syntax trees of a small statement language into a typed
//! document, and of that document into a canonical JSON tree.
//!
//! A grammar engine outside this crate turns source text into a [`Node`]:
//! a label, the source text that the node spans, and its children in order.
//! [`Document::from_pair`] turns the root node into a [`Document`], or fails
//! as a whole: no part of a document is ever handed out.
//! [`Document::serialize`] turns a document into the [`Json`] tree that
//! consumers read.
//!
//! Every function is verified against a mathematical model of its types.
//! Each type has a view (`NodeView`, `ValueView`, `StatementView`, ...)
//! built from `Seq`, and the contracts are stated over spec functions on
//! those views: `value_of`, `statement_of`, `block_of` and `document_of`
//! say what a node stands for, `json_of_value`, `json_of_statement`,
//! `json_of_block` and `json_of_document` how it is written. The module
//! `laws` holds what follows for conversion and serialization as a whole.
//!
//! A number is an IEEE 754 double, held by its bit pattern. The crate does
//! no floating-point arithmetic: it computes the double of an integer
//! literal with integers alone, and takes the double of a decimal literal
//! from the node that holds the literal.

pub mod document;
pub mod entries;
pub mod json;
pub mod laws;
pub mod number;
pub mod statement;
pub mod syntax;
pub mod value;

pub use crate::document::Document;
pub use crate::json::Json;
pub use crate::number::double_bits;
pub use crate::statement::{Block, Statement};
pub use crate::syntax::{Kind, Node};
pub use crate::value::Value;
