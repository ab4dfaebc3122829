//! Parser for a small textual profile-description language.
//!
//! A profile is a sequence of declarations: `extend`, `provide`, `require`
//! and `implement`. The parser turns raw source text into a typed syntax
//! tree with exact byte spans for diagnostics, attaching the comments that
//! immediately precede a declaration as its documentation.

pub mod ast;
pub mod error;
pub mod laws;
pub mod lex;
pub mod span;
pub mod token;
