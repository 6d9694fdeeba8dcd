//! A template-language engine: it compiles text holding output expressions
//! and control constructs into an executable tree, then renders that tree
//! against caller-supplied data.
//!
//! The crate is organised leaf to root: the dynamic [`value::Value`] model;
//! the [`runtime::Runtime`] execution state (scope stack, per-block
//! registers, interrupt signal); [`expression::Expression`] and
//! [`filter_chain::FilterChain`] evaluation; the [`template::Renderable`]
//! tree and its verified renderer; the [`language::Language`] plugin
//! registry; and the [`parser`]. The laws the engine obeys are stated and
//! proved in [`laws`].

pub mod alist;
pub mod strutil;
pub mod value;
pub mod runtime;
pub mod error;
pub mod expression;
pub mod filters;
pub mod filter_chain;
pub mod template;
pub mod assign_tag;
pub mod ifchanged_block;
pub mod for_block;
pub mod if_block;
pub mod interrupt_tags;
pub mod language;
pub mod parser;
pub mod laws;

pub use crate::error::Error;
pub use crate::language::Language;
pub use crate::parser::parse;
pub use crate::runtime::Runtime;
pub use crate::template::Template;
pub use crate::value::Value;
