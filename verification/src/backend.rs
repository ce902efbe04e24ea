//! A model of the code-generation backend: the module under construction is
//! held as plain tables of declarations and instructions, and every value,
//! block and function is a small handle into them.

pub mod types;
pub mod value;
pub mod basic_block;
pub mod module;
pub mod builder;
pub mod analysis;
pub mod context;
pub mod transformation;
