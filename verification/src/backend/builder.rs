//! The instruction builder.

use vstd::prelude::*;
use vstd::slice::slice_to_vec;
use crate::backend::basic_block::BasicBlock;
use crate::backend::module::{BinaryKind, InstView, Module, Op, OpView, str_view};
use crate::backend::types::Type;
use crate::backend::value::{AnyValue, Function, Phi};

verus! {

/// The predicates of a floating-point comparison. Those that begin with `O`
/// are false when an operand is not a number, those that begin with `U` are
/// true then.
#[derive(Clone, Copy, Debug, PartialEq, Eq, Structural)]
pub enum RealPredicate {
    False,
    OEQ,
    OGT,
    OGE,
    OLT,
    OLE,
    ONE,
    ORD,
    UNO,
    UEQ,
    UGT,
    UGE,
    ULT,
    ULE,
    UNE,
    True,
}

/// Why the builder refused an instruction.
#[derive(Clone, Copy, Debug, PartialEq, Eq, Structural)]
pub enum BuilderError {
    /// A call hands over `actual` arguments to a function declared with
    /// `expected` parameters.
    WrongArgumentsCount { expected: usize, actual: usize },
}

/// Where the next instruction goes: at the end of `position`, or nowhere
/// while there is none.
#[derive(Clone, Copy, Debug, PartialEq, Eq, Structural)]
pub struct Builder {
    pub position: Option<BasicBlock>,
}

/// What `build_call` returns for a callee and a number of arguments.
pub open spec fn call_check(f: Function, actual: nat) -> Option<BuilderError> {
    if f.arity == actual {
        None
    } else {
        Some(BuilderError::WrongArgumentsCount { expected: f.arity, actual: actual as usize })
    }
}

impl Builder {
    /// A builder without a position.
    pub fn new() -> (b: Builder)
        ensures
            b.position is None,
    {
        Builder { position: None }
    }

    /// The block at whose end instructions are inserted.
    pub fn get_insert_block(&self) -> (bb: Option<BasicBlock>)
        ensures
            bb == self.position,
    {
        self.position
    }

    /// Moves the builder to the end of `bb`.
    pub fn position_at_end(&mut self, bb: &BasicBlock)
        ensures
            final(self).position == Some(*bb),
    {
        self.position = Some(*bb);
    }

    /// An integer constant. Constants are not instructions: the module does
    /// not change.
    pub fn build_const_int(&mut self, ty: Type, value: u64, signed: bool) -> (v: AnyValue)
        ensures
            *final(self) == *old(self),
            v == (AnyValue::ConstInt { ty, value, signed }),
    {
        AnyValue::ConstInt { ty, value, signed }
    }

    /// A floating-point constant with the given bit pattern.
    pub fn build_const_fp(&mut self, ty: Type, bits: u64) -> (v: AnyValue)
        ensures
            *final(self) == *old(self),
            v == (AnyValue::ConstReal { ty, bits }),
    {
        AnyValue::ConstReal { ty, bits }
    }

    /// Inserts a return without a value.
    pub fn build_ret_void(&mut self, module: &mut Module) -> (v: AnyValue)
        ensures
            *final(self) == *old(self),
            final(module)@ == old(module)@.emit(
                InstView { block: old(self).position, name: None, op: OpView::RetVoid },
            ),
            v == old(module)@.next_value(),
    {
        module.emit(self.position, None, Op::RetVoid)
    }

    /// Inserts a return of `value`.
    pub fn build_ret(&mut self, module: &mut Module, value: &AnyValue) -> (v: AnyValue)
        ensures
            *final(self) == *old(self),
            final(module)@ == old(module)@.emit(
                InstView { block: old(self).position, name: None, op: OpView::Ret { value: *value } },
            ),
            v == old(module)@.next_value(),
    {
        module.emit(self.position, None, Op::Ret { value: *value })
    }

    /// Inserts a call of `f` on `args`, unless their number differs from the
    /// number of parameters that `f` was declared with; then nothing is
    /// inserted.
    pub fn build_call(
        &mut self,
        module: &mut Module,
        f: &Function,
        args: &[AnyValue],
        name: Option<&str>,
    ) -> (r: Result<AnyValue, BuilderError>)
        ensures
            *final(self) == *old(self),
            match call_check(*f, args@.len()) {
                Some(e) => r == Err::<AnyValue, BuilderError>(e) && final(module)@ == old(module)@,
                None => r == Ok::<AnyValue, BuilderError>(old(module)@.next_value()) && final(module)@
                    == old(module)@.emit(
                    InstView {
                        block: old(self).position,
                        name: str_view(name),
                        op: OpView::Call { callee: *f, args: args@ },
                    },
                ),
            },
    {
        let args_count = args.len();
        let params_count = f.arity;
        if args_count != params_count {
            return Err(BuilderError::WrongArgumentsCount { expected: params_count, actual: args_count });
        }
        let owned = slice_to_vec(args);
        Ok(module.emit(self.position, name, Op::Call { callee: *f, args: owned }))
    }

    /// Inserts the conversion of the unsigned integer `value` to the
    /// floating-point type `ty`.
    pub fn build_cast_uint_to_fp(
        &mut self,
        module: &mut Module,
        value: AnyValue,
        ty: Type,
        name: Option<&str>,
    ) -> (v: AnyValue)
        ensures
            *final(self) == *old(self),
            final(module)@ == old(module)@.emit(
                InstView { block: old(self).position, name: str_view(name), op: OpView::UiToFp { value, ty } },
            ),
            v == old(module)@.next_value(),
    {
        module.emit(self.position, name, Op::UiToFp { value, ty })
    }

    /// Inserts a branch to `dest`.
    pub fn build_br(&mut self, module: &mut Module, dest: &BasicBlock) -> (v: AnyValue)
        ensures
            *final(self) == *old(self),
            final(module)@ == old(module)@.emit(
                InstView { block: old(self).position, name: None, op: OpView::Br { dest: *dest } },
            ),
            v == old(module)@.next_value(),
    {
        module.emit(self.position, None, Op::Br { dest: *dest })
    }

    /// Inserts a branch to `then` where `cond` holds and to `el` where it
    /// does not.
    pub fn build_cond_br(
        &mut self,
        module: &mut Module,
        cond: &AnyValue,
        then: &BasicBlock,
        el: &BasicBlock,
    ) -> (v: AnyValue)
        ensures
            *final(self) == *old(self),
            final(module)@ == old(module)@.emit(
                InstView {
                    block: old(self).position,
                    name: None,
                    op: OpView::CondBr { cond: *cond, then_block: *then, else_block: *el },
                },
            ),
            v == old(module)@.next_value(),
    {
        module.emit(self.position, None, Op::CondBr { cond: *cond, then_block: *then, else_block: *el })
    }

    /// Inserts a phi node of type `ty`, without incoming edges yet.
    pub fn build_phi(&mut self, module: &mut Module, ty: Type, name: Option<&str>) -> (phi: Phi)
        ensures
            *final(self) == *old(self),
            final(module)@ == old(module)@.emit(
                InstView { block: old(self).position, name: str_view(name), op: OpView::Phi { ty } },
            ),
            phi.spec_value() == old(module)@.next_value(),
    {
        let index = module.insts.len();
        module.emit(self.position, name, Op::Phi { ty });
        Phi { index }
    }

    /// Inserts the comparison of `a` and `b` under `op`.
    pub fn build_fp_cmp(
        &mut self,
        module: &mut Module,
        op: RealPredicate,
        a: &AnyValue,
        b: &AnyValue,
        name: Option<&str>,
    ) -> (v: AnyValue)
        ensures
            *final(self) == *old(self),
            final(module)@ == old(module)@.emit(
                InstView {
                    block: old(self).position,
                    name: str_view(name),
                    op: OpView::FCmp { predicate: op, lhs: *a, rhs: *b },
                },
            ),
            v == old(module)@.next_value(),
    {
        module.emit(self.position, name, Op::FCmp { predicate: op, lhs: *a, rhs: *b })
    }

    /// Inserts the integer sum of `a` and `b`.
    pub fn build_add(&mut self, module: &mut Module, a: &AnyValue, b: &AnyValue, name: Option<&str>) -> (v: AnyValue)
        ensures
            *final(self) == *old(self),
            final(module)@ == old(module)@.emit(
                InstView {
                    block: old(self).position,
                    name: str_view(name),
                    op: OpView::Binary { kind: BinaryKind::Add, lhs: *a, rhs: *b },
                },
            ),
            v == old(module)@.next_value(),
    {
        self.build_binary(module, BinaryKind::Add, a, b, name)
    }

    /// Inserts the integer difference of `a` and `b`.
    pub fn build_sub(&mut self, module: &mut Module, a: &AnyValue, b: &AnyValue, name: Option<&str>) -> (v: AnyValue)
        ensures
            *final(self) == *old(self),
            final(module)@ == old(module)@.emit(
                InstView {
                    block: old(self).position,
                    name: str_view(name),
                    op: OpView::Binary { kind: BinaryKind::Sub, lhs: *a, rhs: *b },
                },
            ),
            v == old(module)@.next_value(),
    {
        self.build_binary(module, BinaryKind::Sub, a, b, name)
    }

    /// Inserts the integer product of `a` and `b`.
    pub fn build_mul(&mut self, module: &mut Module, a: &AnyValue, b: &AnyValue, name: Option<&str>) -> (v: AnyValue)
        ensures
            *final(self) == *old(self),
            final(module)@ == old(module)@.emit(
                InstView {
                    block: old(self).position,
                    name: str_view(name),
                    op: OpView::Binary { kind: BinaryKind::Mul, lhs: *a, rhs: *b },
                },
            ),
            v == old(module)@.next_value(),
    {
        self.build_binary(module, BinaryKind::Mul, a, b, name)
    }

    /// Inserts the floating-point sum of `a` and `b`.
    pub fn build_fp_add(&mut self, module: &mut Module, a: &AnyValue, b: &AnyValue, name: Option<&str>) -> (v: AnyValue)
        ensures
            *final(self) == *old(self),
            final(module)@ == old(module)@.emit(
                InstView {
                    block: old(self).position,
                    name: str_view(name),
                    op: OpView::Binary { kind: BinaryKind::FAdd, lhs: *a, rhs: *b },
                },
            ),
            v == old(module)@.next_value(),
    {
        self.build_binary(module, BinaryKind::FAdd, a, b, name)
    }

    /// Inserts the floating-point difference of `a` and `b`.
    pub fn build_fp_sub(&mut self, module: &mut Module, a: &AnyValue, b: &AnyValue, name: Option<&str>) -> (v: AnyValue)
        ensures
            *final(self) == *old(self),
            final(module)@ == old(module)@.emit(
                InstView {
                    block: old(self).position,
                    name: str_view(name),
                    op: OpView::Binary { kind: BinaryKind::FSub, lhs: *a, rhs: *b },
                },
            ),
            v == old(module)@.next_value(),
    {
        self.build_binary(module, BinaryKind::FSub, a, b, name)
    }

    /// Inserts the floating-point product of `a` and `b`.
    pub fn build_fp_mul(&mut self, module: &mut Module, a: &AnyValue, b: &AnyValue, name: Option<&str>) -> (v: AnyValue)
        ensures
            *final(self) == *old(self),
            final(module)@ == old(module)@.emit(
                InstView {
                    block: old(self).position,
                    name: str_view(name),
                    op: OpView::Binary { kind: BinaryKind::FMul, lhs: *a, rhs: *b },
                },
            ),
            v == old(module)@.next_value(),
    {
        self.build_binary(module, BinaryKind::FMul, a, b, name)
    }

    /// Inserts the arithmetic instruction `kind` on `a` and `b`.
    pub fn build_binary(
        &mut self,
        module: &mut Module,
        kind: BinaryKind,
        a: &AnyValue,
        b: &AnyValue,
        name: Option<&str>,
    ) -> (v: AnyValue)
        ensures
            *final(self) == *old(self),
            final(module)@ == old(module)@.emit(
                InstView {
                    block: old(self).position,
                    name: str_view(name),
                    op: OpView::Binary { kind, lhs: *a, rhs: *b },
                },
            ),
            v == old(module)@.next_value(),
    {
        module.emit(self.position, name, Op::Binary { kind, lhs: *a, rhs: *b })
    }
}

} // verus!
