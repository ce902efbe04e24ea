//! A small compiler for a toy expression language whose only value type is
//! a 64-bit float.
//!
//! Source text goes through these stages, of which all but the first and
//! the last are here:
//!
//! 1. a lexer cuts the text into tokens ([`lexer::token`] says what a token
//!    is; the lexing itself is left to the caller);
//! 2. [`parser::transform`] makes the block structure explicit that the
//!    layout of the text implies;
//! 3. [`parser`] reads the tokens into a syntax tree ([`parser::ast`]), by
//!    the grammar in [`parser::grammar`];
//! 4. [`compiler::codegen`] generates, from the tree, a module in
//!    SSA form ([`backend`]); what it does is defined in
//!    [`compiler::model`];
//! 5. [`compiler::runtime`] says what is needed to run the module;
//! 6. a native backend builds, verifies, optimizes and executes what the
//!    module describes.
//!
//! Numbers are held as the bit patterns of 64-bit IEEE-754 floats
//! throughout: no arithmetic is done on them here.
//!
//! What is proved beyond the contracts of the functions stands in
//! [`compiler::laws`], [`compiler::joins`], [`compiler::shape`] and
//! [`compiler::uses`], and, for the parser, at the end of
//! [`parser::grammar`] and [`parser::transform`].

pub mod span;
pub mod lexer;
pub mod parser;
pub mod backend;
pub mod compiler;
