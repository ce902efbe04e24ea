//! From the syntax tree to a module of the backend.

pub mod error;
pub mod environment;
pub mod model;
pub mod codegen;
pub mod laws;
pub mod runtime;
pub mod shape;
pub mod uses;
pub mod joins;
