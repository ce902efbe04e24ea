//! The pipeline of local optimizations that is run over each function.

use vstd::prelude::*;

verus! {

/// A local optimization.
#[derive(Clone, Copy, Debug, PartialEq, Eq, Structural)]
pub enum Pass {
    /// Peephole and bit-twiddling simplifications.
    InstructionCombining,
    /// Reassociation of expressions.
    Reassociate,
    /// Elimination of common subexpressions.
    Gvn,
    /// Simplification of the control-flow graph.
    CfgSimplification,
}

/// A pipeline of passes, in the order in which they run.
#[derive(Debug, PartialEq, Eq)]
pub struct FunctionPassManager {
    passes: Vec<Pass>,
}

/// A pipeline that is still being put together.
#[derive(Debug, PartialEq, Eq)]
pub struct FunctionPassManagerBuilder {
    passes: Vec<Pass>,
}

impl View for FunctionPassManager {
    type V = Seq<Pass>;

    closed spec fn view(&self) -> Seq<Pass> {
        self.passes@
    }
}

impl View for FunctionPassManagerBuilder {
    type V = Seq<Pass>;

    closed spec fn view(&self) -> Seq<Pass> {
        self.passes@
    }
}

impl FunctionPassManager {
    /// The passes, in the order in which they run.
    pub fn passes(&self) -> (ps: &Vec<Pass>)
        ensures
            ps@ == self@,
    {
        &self.passes
    }
}

impl FunctionPassManagerBuilder {
    /// A pipeline without passes.
    pub fn new() -> (b: FunctionPassManagerBuilder)
        ensures
            b@ == Seq::<Pass>::empty(),
    {
        FunctionPassManagerBuilder { passes: Vec::new() }
    }

    fn with(self, pass: Pass) -> (b: FunctionPassManagerBuilder)
        ensures
            b@ == self@.push(pass),
    {
        let mut passes = self.passes;
        passes.push(pass);
        FunctionPassManagerBuilder { passes }
    }

    pub fn add_instruction_combination_pass(self) -> (b: FunctionPassManagerBuilder)
        ensures
            b@ == self@.push(Pass::InstructionCombining),
    {
        self.with(Pass::InstructionCombining)
    }

    pub fn add_reassociate_pass(self) -> (b: FunctionPassManagerBuilder)
        ensures
            b@ == self@.push(Pass::Reassociate),
    {
        self.with(Pass::Reassociate)
    }

    pub fn add_gvn_pass(self) -> (b: FunctionPassManagerBuilder)
        ensures
            b@ == self@.push(Pass::Gvn),
    {
        self.with(Pass::Gvn)
    }

    pub fn add_cfg_simplification_pass(self) -> (b: FunctionPassManagerBuilder)
        ensures
            b@ == self@.push(Pass::CfgSimplification),
    {
        self.with(Pass::CfgSimplification)
    }

    /// The finished pipeline.
    pub fn build(self) -> (m: FunctionPassManager)
        ensures
            m@ == self@,
    {
        FunctionPassManager { passes: self.passes }
    }
}

} // verus!
