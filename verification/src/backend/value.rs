//! Handles for values, functions and phi nodes.

use vstd::prelude::*;
use crate::backend::basic_block::BasicBlock;
use crate::backend::module::Module;
use crate::backend::types::Type;

verus! {

/// A value of the intermediate representation. Constants describe
/// themselves; everything else names a row of the module's tables.
#[derive(Clone, Copy, Debug, PartialEq, Eq, Structural)]
pub enum AnyValue {
    /// A floating-point constant, given by its IEEE-754 bit pattern.
    ConstReal { ty: Type, bits: u64 },
    /// An integer constant.
    ConstInt { ty: Type, value: u64, signed: bool },
    /// The `index`-th parameter of the `function`-th function.
    Param { function: usize, index: usize },
    /// The result of the instruction in the given row.
    Inst(usize),
    /// The function declared in the `index`-th row, which takes `arity`
    /// parameters.
    Function { index: usize, arity: usize },
}

/// A declared function.
#[derive(Clone, Copy, Debug, PartialEq, Eq, Structural)]
pub struct Function {
    /// Row of the declaration in the module.
    pub index: usize,
    /// Number of declared parameters.
    pub arity: usize,
}

/// A phi node.
#[derive(Clone, Copy, Debug, PartialEq, Eq, Structural)]
pub struct Phi {
    /// Row of the phi instruction in the module.
    pub index: usize,
}

impl AnyValue {
    /// Gives this value the name `name`.
    pub fn set_name(&mut self, module: &mut Module, name: &str)
        ensures
            *final(self) == *old(self),
            final(module)@ == old(module)@.set_name(*old(self), name@),
    {
        module.set_name(*self, name)
    }
}

impl Function {
    /// The parameters as values, in order.
    pub open spec fn spec_params(self) -> Seq<AnyValue> {
        Seq::new(self.arity as nat, |i: int| AnyValue::Param { function: self.index, index: i as usize })
    }

    pub open spec fn spec_value(self) -> AnyValue {
        AnyValue::Function { index: self.index, arity: self.arity }
    }

    pub fn as_value(&self) -> (v: AnyValue)
        ensures
            v == self.spec_value(),
    {
        AnyValue::Function { index: self.index, arity: self.arity }
    }

    pub fn to_value(self) -> (v: AnyValue)
        ensures
            v == self.spec_value(),
    {
        AnyValue::Function { index: self.index, arity: self.arity }
    }

    /// The first block that was appended to this function, if any.
    pub fn entry_block(&self, module: &Module) -> (entry: Option<BasicBlock>)
        ensures
            entry == module@.first_block(*self),
    {
        let mut i: usize = 0;
        while i < module.blocks.len()
            invariant
                i <= module.blocks.len(),
                forall|j: int| 0 <= j < i ==> module@.blocks[j].function != *self,
            decreases module.blocks.len() - i,
        {
            if module.blocks[i].function == *self {
                assert(module@.blocks[i as int].function == *self);
                return Some(BasicBlock { index: i, function: *self });
            }
            i = i + 1;
        }
        None
    }

    /// The function's parameters, one value for each, in declaration order.
    pub fn params(&self) -> (ps: Vec<AnyValue>)
        ensures
            ps@ == self.spec_params(),
    {
        let mut ps: Vec<AnyValue> = Vec::new();
        let mut i: usize = 0;
        while i < self.arity
            invariant
                i <= self.arity,
                ps@ == Seq::new(i as nat, |k: int| AnyValue::Param { function: self.index, index: k as usize }),
            decreases self.arity - i,
        {
            ps.push(AnyValue::Param { function: self.index, index: i });
            i = i + 1;
        }
        ps
    }
}

impl Phi {
    pub open spec fn spec_value(self) -> AnyValue {
        AnyValue::Inst(self.index)
    }

    pub fn as_value(&self) -> (v: AnyValue)
        ensures
            v == self.spec_value(),
    {
        AnyValue::Inst(self.index)
    }

    pub fn to_value(self) -> (v: AnyValue)
        ensures
            v == self.spec_value(),
    {
        AnyValue::Inst(self.index)
    }
}

} // verus!
