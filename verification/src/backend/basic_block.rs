//! Basic blocks.

use vstd::prelude::*;
use crate::backend::module::Module;
use crate::backend::value::Function;

verus! {

/// A basic block of a function.
#[derive(Clone, Copy, Debug, PartialEq, Eq, Structural)]
pub struct BasicBlock {
    /// Row of the block in the module.
    pub index: usize,
    /// The function the block was appended to.
    pub function: Function,
}

impl BasicBlock {
    /// Appends a block labelled `name` to the function `value`.
    pub fn new(name: &str, module: &mut Module, value: &mut Function) -> (bb: BasicBlock)
        ensures
            *final(value) == *old(value),
            final(module)@ == old(module)@.append_block(name@, *old(value)),
            bb == old(module)@.next_block(*old(value)),
    {
        module.append_block(name, *value)
    }

    /// The function that holds this block.
    pub fn parent(&self) -> (f: Function)
        ensures
            f == self.function,
    {
        self.function
    }
}

} // verus!
