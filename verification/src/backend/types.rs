//! Value types.

use vstd::prelude::*;

verus! {

/// A first-class type of the backend. The language itself only ever uses
/// `F64` for values, `I1` for comparison results and `Void` for `main`.
#[derive(Clone, Copy, Debug, PartialEq, Eq, Structural)]
pub enum Type {
    Void,
    I1,
    I8,
    I16,
    I32,
    I64,
    I128,
    F32,
    F64,
    F128,
}

/// The type of a function: what it returns and what it takes.
#[derive(Debug, PartialEq, Eq)]
pub struct FunctionType {
    pub ret: Type,
    pub params: Vec<Type>,
    pub is_var_arg: bool,
}

} // verus!
