//! The module under construction and its mathematical model.

use vstd::prelude::*;
use vstd::string::StringExecFns;
use crate::backend::basic_block::BasicBlock;
use crate::backend::builder::RealPredicate;
use crate::backend::transformation::{FunctionPassManagerBuilder, Pass};
use crate::backend::types::{FunctionType, Type};
use crate::backend::value::{AnyValue, Function, Phi};

verus! {

/// The arithmetic instructions on two operands.
#[derive(Clone, Copy, Debug, PartialEq, Eq, Structural)]
pub enum BinaryKind {
    Add,
    Sub,
    Mul,
    FAdd,
    FSub,
    FMul,
}

/// What an instruction does.
#[derive(Debug, PartialEq, Eq)]
pub enum Op {
    Binary { kind: BinaryKind, lhs: AnyValue, rhs: AnyValue },
    FCmp { predicate: RealPredicate, lhs: AnyValue, rhs: AnyValue },
    UiToFp { value: AnyValue, ty: Type },
    Call { callee: Function, args: Vec<AnyValue> },
    Br { dest: BasicBlock },
    CondBr { cond: AnyValue, then_block: BasicBlock, else_block: BasicBlock },
    Phi { ty: Type },
    Ret { value: AnyValue },
    RetVoid,
}

/// An instruction: where it was inserted (nowhere, if the builder had no
/// position), the name asked for its result, and what it does.
#[derive(Debug, PartialEq, Eq)]
pub struct Inst {
    pub block: Option<BasicBlock>,
    pub name: Option<String>,
    pub op: Op,
}

/// A declared function.
#[derive(Debug, PartialEq, Eq)]
pub struct FunctionDecl {
    pub name: Option<String>,
    pub ty: FunctionType,
}

/// A basic block: its label and the function it was appended to.
#[derive(Debug, PartialEq, Eq)]
pub struct BlockDecl {
    pub name: String,
    pub function: Function,
}

/// One incoming edge of a phi node.
#[derive(Clone, Copy, Debug, PartialEq, Eq, Structural)]
pub struct Incoming {
    pub phi: Phi,
    pub value: AnyValue,
    pub block: BasicBlock,
}

/// A name given to a value after it was made.
#[derive(Debug, PartialEq, Eq)]
pub struct ValueName {
    pub value: AnyValue,
    pub name: String,
}

/// A module: every table only ever grows at its end, so a row number names
/// the same thing for as long as the module lives. The instructions of a
/// block are the rows of `insts` inserted into it, in row order; the blocks
/// of a function are the rows of `blocks` appended to it, in row order.
#[derive(Debug, PartialEq, Eq)]
pub struct Module {
    pub name: String,
    pub functions: Vec<FunctionDecl>,
    pub blocks: Vec<BlockDecl>,
    pub insts: Vec<Inst>,
    pub incoming: Vec<Incoming>,
    pub names: Vec<ValueName>,
}

pub enum OpView {
    Binary { kind: BinaryKind, lhs: AnyValue, rhs: AnyValue },
    FCmp { predicate: RealPredicate, lhs: AnyValue, rhs: AnyValue },
    UiToFp { value: AnyValue, ty: Type },
    Call { callee: Function, args: Seq<AnyValue> },
    Br { dest: BasicBlock },
    CondBr { cond: AnyValue, then_block: BasicBlock, else_block: BasicBlock },
    Phi { ty: Type },
    Ret { value: AnyValue },
    RetVoid,
}

pub struct InstView {
    pub block: Option<BasicBlock>,
    pub name: Option<Seq<char>>,
    pub op: OpView,
}

pub struct FunctionDeclView {
    pub name: Option<Seq<char>>,
    pub ret: Type,
    pub params: Seq<Type>,
    pub is_var_arg: bool,
}

pub struct BlockDeclView {
    pub name: Seq<char>,
    pub function: Function,
}

pub struct ValueNameView {
    pub value: AnyValue,
    pub name: Seq<char>,
}

#[verifier::ext_equal]
pub struct ModuleView {
    pub name: Seq<char>,
    pub functions: Seq<FunctionDeclView>,
    pub blocks: Seq<BlockDeclView>,
    pub insts: Seq<InstView>,
    pub incoming: Seq<Incoming>,
    pub names: Seq<ValueNameView>,
}

/// The model of an optional name.
pub open spec fn name_view(name: Option<String>) -> Option<Seq<char>> {
    match name {
        Some(s) => Some(s@),
        None => None,
    }
}

/// The model of an optional borrowed name.
pub open spec fn str_view(name: Option<&str>) -> Option<Seq<char>> {
    match name {
        Some(s) => Some(s@),
        None => None,
    }
}

impl View for Op {
    type V = OpView;

    open spec fn view(&self) -> OpView {
        match self {
            Op::Binary { kind, lhs, rhs } => OpView::Binary { kind: *kind, lhs: *lhs, rhs: *rhs },
            Op::FCmp { predicate, lhs, rhs } => OpView::FCmp { predicate: *predicate, lhs: *lhs, rhs: *rhs },
            Op::UiToFp { value, ty } => OpView::UiToFp { value: *value, ty: *ty },
            Op::Call { callee, args } => OpView::Call { callee: *callee, args: args@ },
            Op::Br { dest } => OpView::Br { dest: *dest },
            Op::CondBr { cond, then_block, else_block } => OpView::CondBr {
                cond: *cond,
                then_block: *then_block,
                else_block: *else_block,
            },
            Op::Phi { ty } => OpView::Phi { ty: *ty },
            Op::Ret { value } => OpView::Ret { value: *value },
            Op::RetVoid => OpView::RetVoid,
        }
    }
}

impl View for Inst {
    type V = InstView;

    open spec fn view(&self) -> InstView {
        InstView { block: self.block, name: name_view(self.name), op: self.op@ }
    }
}

impl View for FunctionDecl {
    type V = FunctionDeclView;

    open spec fn view(&self) -> FunctionDeclView {
        FunctionDeclView {
            name: name_view(self.name),
            ret: self.ty.ret,
            params: self.ty.params@,
            is_var_arg: self.ty.is_var_arg,
        }
    }
}

impl View for BlockDecl {
    type V = BlockDeclView;

    open spec fn view(&self) -> BlockDeclView {
        BlockDeclView { name: self.name@, function: self.function }
    }
}

impl View for ValueName {
    type V = ValueNameView;

    open spec fn view(&self) -> ValueNameView {
        ValueNameView { value: self.value, name: self.name@ }
    }
}

impl View for Module {
    type V = ModuleView;

    open spec fn view(&self) -> ModuleView {
        ModuleView {
            name: self.name@,
            functions: self.functions@.map_values(|d: FunctionDecl| d@),
            blocks: self.blocks@.map_values(|b: BlockDecl| b@),
            insts: self.insts@.map_values(|i: Inst| i@),
            incoming: self.incoming@,
            names: self.names@.map_values(|n: ValueName| n@),
        }
    }
}

impl ModuleView {
    /// A module of the given name that holds nothing.
    pub open spec fn empty(name: Seq<char>) -> ModuleView {
        ModuleView {
            name,
            functions: Seq::empty(),
            blocks: Seq::empty(),
            insts: Seq::empty(),
            incoming: Seq::empty(),
            names: Seq::empty(),
        }
    }

    /// The module with one more function declared.
    pub open spec fn declare(self, decl: FunctionDeclView) -> ModuleView {
        ModuleView { functions: self.functions.push(decl), ..self }
    }

    /// The handle of the function that `declare` adds.
    pub open spec fn next_function(self, decl: FunctionDeclView) -> Function {
        Function { index: self.functions.len() as usize, arity: decl.params.len() as usize }
    }

    /// The module with one more block appended to `function`.
    pub open spec fn append_block(self, name: Seq<char>, function: Function) -> ModuleView {
        ModuleView { blocks: self.blocks.push(BlockDeclView { name, function }), ..self }
    }

    /// The handle of the block that `append_block` adds.
    pub open spec fn next_block(self, function: Function) -> BasicBlock {
        BasicBlock { index: self.blocks.len() as usize, function }
    }

    /// The module with one more instruction.
    pub open spec fn emit(self, inst: InstView) -> ModuleView {
        ModuleView { insts: self.insts.push(inst), ..self }
    }

    /// The value of the instruction that `emit` adds.
    pub open spec fn next_value(self) -> AnyValue {
        AnyValue::Inst(self.insts.len() as usize)
    }

    /// The module with the given edges added to `phi`, in order.
    pub open spec fn add_incoming(self, phi: Phi, edges: Seq<(AnyValue, BasicBlock)>) -> ModuleView {
        ModuleView {
            incoming: self.incoming + Seq::new(
                edges.len(),
                |i: int| Incoming { phi, value: edges[i].0, block: edges[i].1 },
            ),
            ..self
        }
    }

    /// The module with `value` given the name `name`.
    pub open spec fn set_name(self, value: AnyValue, name: Seq<char>) -> ModuleView {
        ModuleView { names: self.names.push(ValueNameView { value, name }), ..self }
    }

    /// The first block appended to `f`, if there is one.
    pub open spec fn first_block(self, f: Function) -> Option<BasicBlock> {
        if exists|i: int| 0 <= i < self.blocks.len() && self.blocks[i].function == f {
            let i = choose|i: int|
                0 <= i < self.blocks.len() && self.blocks[i].function == f && forall|j: int|
                    0 <= j < i ==> self.blocks[j].function != f;
            Some(BasicBlock { index: i as usize, function: f })
        } else {
            None
        }
    }

    /// The first function declared under `name`, if there is one.
    pub open spec fn find_function(self, name: Seq<char>) -> Option<Function> {
        if exists|i: int| 0 <= i < self.functions.len() && self.functions[i].name == Some(name) {
            let i = choose|i: int|
                0 <= i < self.functions.len() && self.functions[i].name == Some(name) && forall|j: int|
                    0 <= j < i ==> self.functions[j].name != Some(name);
            Some(Function { index: i as usize, arity: self.functions[i].params.len() as usize })
        } else {
            None
        }
    }
}

/// The model of a function declared under `name` with type `ty`.
pub open spec fn decl_view(name: Option<Seq<char>>, ty: FunctionType) -> FunctionDeclView {
    FunctionDeclView { name, ret: ty.ret, params: ty.params@, is_var_arg: ty.is_var_arg }
}

/// An owned copy of an optional name.
pub fn own_name(name: Option<&str>) -> (owned: Option<String>)
    ensures
        name_view(owned) == str_view(name),
{
    match name {
        Some(s) => Some(String::from_str(s)),
        None => None,
    }
}

impl Module {
    /// A module of the given name that holds nothing.
    pub fn new(name: &str) -> (m: Module)
        ensures
            m@ == ModuleView::empty(name@),
    {
        let m = Module {
            name: String::from_str(name),
            functions: Vec::new(),
            blocks: Vec::new(),
            insts: Vec::new(),
            incoming: Vec::new(),
            names: Vec::new(),
        };
        assert(m@ =~= ModuleView::empty(name@));
        m
    }

    /// Declares a function of the given name and type.
    pub fn function_prototype(&mut self, name: Option<&str>, fn_type: FunctionType) -> (f: Function)
        ensures
            final(self)@ == old(self)@.declare(decl_view(str_view(name), fn_type)),
            f == old(self)@.next_function(decl_view(str_view(name), fn_type)),
    {
        let f = Function { index: self.functions.len(), arity: fn_type.params.len() };
        let decl = FunctionDecl { name: own_name(name), ty: fn_type };
        assert(decl@ == decl_view(str_view(name), fn_type));
        self.functions.push(decl);
        assert(self@.functions =~= old(self)@.functions.push(decl@));
        f
    }

    /// A pipeline of optimizations for the functions of this module, without
    /// passes yet.
    pub fn function_pass_manager_builder(&mut self) -> (b: FunctionPassManagerBuilder)
        ensures
            *final(self) == *old(self),
            b@ == Seq::<Pass>::empty(),
    {
        FunctionPassManagerBuilder::new()
    }

    /// Appends a block labelled `name` to `function`.
    pub fn append_block(&mut self, name: &str, function: Function) -> (bb: BasicBlock)
        ensures
            final(self)@ == old(self)@.append_block(name@, function),
            bb == old(self)@.next_block(function),
    {
        let bb = BasicBlock { index: self.blocks.len(), function };
        let decl = BlockDecl { name: String::from_str(name), function };
        self.blocks.push(decl);
        assert(self@.blocks =~= old(self)@.blocks.push(decl@));
        bb
    }

    /// Adds the instruction `op`, inserted at `block`, and returns its value.
    pub fn emit(&mut self, block: Option<BasicBlock>, name: Option<&str>, op: Op) -> (v: AnyValue)
        ensures
            final(self)@ == old(self)@.emit(InstView { block, name: str_view(name), op: op@ }),
            v == old(self)@.next_value(),
    {
        let v = AnyValue::Inst(self.insts.len());
        let inst = Inst { block, name: own_name(name), op };
        self.insts.push(inst);
        assert(self@.insts =~= old(self)@.insts.push(inst@));
        v
    }

    /// Adds the given edges to `phi`, in order.
    pub fn add_incoming(&mut self, phi: Phi, edges: &[(AnyValue, BasicBlock)])
        ensures
            final(self)@ == old(self)@.add_incoming(phi, edges@),
    {
        let mut i: usize = 0;
        while i < edges.len()
            invariant
                i <= edges.len(),
                self@ == old(self)@.add_incoming(phi, edges@.take(i as int)),
            decreases edges.len() - i,
        {
            let ghost before = self@;
            let edge = edges[i];
            self.incoming.push(Incoming { phi, value: edge.0, block: edge.1 });
            assert(self@.incoming =~= old(self)@.add_incoming(phi, edges@.take(i + 1)).incoming);
            i = i + 1;
        }
        assert(edges@.take(i as int) =~= edges@);
    }

    /// Records that `value` is to be called `name`.
    pub fn set_name(&mut self, value: AnyValue, name: &str)
        ensures
            final(self)@ == old(self)@.set_name(value, name@),
    {
        let row = ValueName { value, name: String::from_str(name) };
        self.names.push(row);
        assert(self@.names =~= old(self)@.names.push(row@));
    }

    /// The first function declared under `name`.
    pub fn get_function(&self, name: &str) -> (found: Option<Function>)
        ensures
            found == self@.find_function(name@),
    {
        let wanted = String::from_str(name);
        let mut i: usize = 0;
        while i < self.functions.len()
            invariant
                i <= self.functions.len(),
                wanted@ == name@,
                forall|j: int| 0 <= j < i ==> self@.functions[j].name != Some(name@),
            decreases self.functions.len() - i,
        {
            let hit = match &self.functions[i].name {
                Some(n) => *n == wanted,
                None => false,
            };
            if hit {
                assert(self@.functions[i as int].name == Some(name@));
                return Some(Function { index: i, arity: self.functions[i].ty.params.len() });
            }
            i = i + 1;
        }
        None
    }
}

} // verus!
