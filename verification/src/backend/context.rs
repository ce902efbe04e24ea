//! The context: where types, builders and modules come from.

use vstd::prelude::*;
use vstd::slice::slice_to_vec;
use crate::backend::builder::Builder;
use crate::backend::module::{Module, ModuleView};
use crate::backend::types::{FunctionType, Type};

verus! {

/// The context of a compilation.
#[derive(Debug, PartialEq, Eq)]
pub struct Context {}

impl Context {
    pub fn new() -> Context {
        Context {  }
    }

    /// A builder without a position. The context stays as it is.
    pub fn create_builder(&mut self) -> (b: Builder)
        ensures
            *final(self) == *old(self),
            b == (Builder { position: None }),
    {
        Builder::new()
    }

    /// A module of the given name that holds nothing.
    pub fn create_module(&mut self, name: &str) -> (m: Module)
        ensures
            m@ == ModuleView::empty(name@),
    {
        Module::new(name)
    }

    pub fn void_type(&self) -> (t: Type)
        ensures
            t == Type::Void,
    {
        Type::Void
    }

    pub fn i8_type(&self) -> (t: Type)
        ensures
            t == Type::I8,
    {
        Type::I8
    }

    pub fn i16_type(&self) -> (t: Type)
        ensures
            t == Type::I16,
    {
        Type::I16
    }

    pub fn i32_type(&self) -> (t: Type)
        ensures
            t == Type::I32,
    {
        Type::I32
    }

    pub fn i64_type(&self) -> (t: Type)
        ensures
            t == Type::I64,
    {
        Type::I64
    }

    pub fn i128_type(&self) -> (t: Type)
        ensures
            t == Type::I128,
    {
        Type::I128
    }

    pub fn f32_type(&self) -> (t: Type)
        ensures
            t == Type::F32,
    {
        Type::F32
    }

    pub fn f64_type(&self) -> (t: Type)
        ensures
            t == Type::F64,
    {
        Type::F64
    }

    pub fn f128_type(&self) -> (t: Type)
        ensures
            t == Type::F128,
    {
        Type::F128
    }

    /// The type of the functions that take `args` and return `ret`.
    pub fn function_type(ret: Type, args: &[Type], is_argv: bool) -> (t: FunctionType)
        ensures
            t.ret == ret,
            t.params@ == args@,
            t.is_var_arg == is_argv,
    {
        FunctionType { ret, params: slice_to_vec(args), is_var_arg: is_argv }
    }
}

} // verus!
