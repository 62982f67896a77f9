//! Front end for a compact interface-definition language, with its proofs.
//!
//! A source text holds type declarations and one service block. The scanner
//! turns it into tokens; the grammar turns the tokens into a document; the
//! emitter turns a document into its OpenAPI description.
//!
//! - `token`, `lexical`, `scanner`: the tokens, the lexical rules, and the
//!   scanner that follows them; `munch`, `truncation`, `stopping` and
//!   `shift` hold the laws of the longest match, of where scanning ends, and
//!   of what bytes before a source do to its tokens.
//! - `common`, `error`: the rules that match one token, and their failure.
//! - `struct_ref`, `service`, `annotation`, `parser`: the grammar of types,
//!   of the service block with its annotation, and of the whole document.
//! - `suffix`, `choice`, `scalars`, `failures`, `printing`, `counting`: laws
//!   of the grammar, up to the law that tokens which spell a document are
//!   read back as that document.
//! - `writing`, `naming`, `roundtrip`: the same law from the source text
//!   on: a document that is written down as text is scanned and parsed
//!   into the document that it was.
//! - `json`, `openapi`: JSON values of an outside crate, and the OpenAPI
//!   description that is built of them.

pub mod annotation;
pub mod choice;
pub mod common;
pub mod counting;
pub mod error;
pub mod failures;
pub mod json;
pub mod lexical;
pub mod munch;
pub mod naming;
pub mod openapi;
pub mod parser;
pub mod printing;
pub mod roundtrip;
pub mod scalars;
pub mod scanner;
pub mod service;
pub mod shift;
pub mod stopping;
pub mod struct_ref;
pub mod suffix;
pub mod token;
pub mod truncation;
pub mod writing;
