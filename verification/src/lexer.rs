//! The tokens that the parser reads. Turning source text into tokens is
//! not done here: a token stream is handed in.

pub mod token;
