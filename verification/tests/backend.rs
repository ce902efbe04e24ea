use dg_compiler::backend::analysis::{Verdict, VerifierFailureAction};
use dg_compiler::backend::basic_block::BasicBlock;
use dg_compiler::backend::builder::{Builder, BuilderError, RealPredicate};
use dg_compiler::backend::context::Context;
use dg_compiler::backend::module::{BinaryKind, Incoming, Module, Op};
use dg_compiler::backend::transformation::{FunctionPassManagerBuilder, Pass};
use dg_compiler::backend::types::Type;
use dg_compiler::backend::value::{AnyValue, Function, Phi};

fn setup() -> (Context, Module, Builder) {
    let mut context = Context::new();
    let module = context.create_module("unit");
    let builder = context.create_builder();
    (context, module, builder)
}

#[test]
fn a_context_gives_each_type() {
    let c = Context::new();
    assert_eq!(c.void_type(), Type::Void);
    assert_eq!(c.i8_type(), Type::I8);
    assert_eq!(c.i16_type(), Type::I16);
    assert_eq!(c.i32_type(), Type::I32);
    assert_eq!(c.i64_type(), Type::I64);
    assert_eq!(c.i128_type(), Type::I128);
    assert_eq!(c.f32_type(), Type::F32);
    assert_eq!(c.f64_type(), Type::F64);
    assert_eq!(c.f128_type(), Type::F128);
    let t = Context::function_type(Type::I32, &[Type::I32, Type::F64], true);
    assert_eq!(t.ret, Type::I32);
    assert_eq!(t.params, vec![Type::I32, Type::F64]);
    assert!(t.is_var_arg);
}

#[test]
fn a_new_module_holds_nothing() {
    let (_, module, builder) = setup();
    assert_eq!(module.name, "unit");
    assert!(module.functions.is_empty() && module.blocks.is_empty() && module.insts.is_empty());
    assert!(module.incoming.is_empty() && module.names.is_empty());
    assert_eq!(builder.get_insert_block(), None);
}

#[test]
fn functions_are_numbered_as_they_are_declared() {
    let (_, mut module, _) = setup();
    let f = module.function_prototype(Some("f"), Context::function_type(Type::F64, &[Type::F64, Type::F64], false));
    let g = module.function_prototype(None, Context::function_type(Type::Void, &[], false));
    assert_eq!(f, Function { index: 0, arity: 2 });
    assert_eq!(g, Function { index: 1, arity: 0 });
    assert_eq!(module.functions[0].name.as_deref(), Some("f"));
    assert_eq!(module.functions[1].name, None);
    assert_eq!(f.as_value(), AnyValue::Function { index: 0, arity: 2 });
    assert_eq!(g.to_value(), AnyValue::Function { index: 1, arity: 0 });
}

#[test]
fn a_function_is_found_by_its_name() {
    let (_, mut module, _) = setup();
    assert_eq!(module.get_function("f"), None);
    module.function_prototype(Some("f"), Context::function_type(Type::F64, &[Type::F64], false));
    module.function_prototype(Some("g"), Context::function_type(Type::F64, &[], false));
    module.function_prototype(Some("f"), Context::function_type(Type::F64, &[Type::F64, Type::F64], false));
    assert_eq!(module.get_function("f"), Some(Function { index: 0, arity: 1 }));
    assert_eq!(module.get_function("g"), Some(Function { index: 1, arity: 0 }));
    assert_eq!(module.get_function("h"), None);
    assert_eq!(module.get_function(""), None);
}

#[test]
fn parameters_are_values_in_order() {
    let f = Function { index: 3, arity: 3 };
    assert_eq!(
        f.params(),
        vec![
            AnyValue::Param { function: 3, index: 0 },
            AnyValue::Param { function: 3, index: 1 },
            AnyValue::Param { function: 3, index: 2 },
        ]
    );
    assert!(Function { index: 0, arity: 0 }.params().is_empty());
}

#[test]
fn values_can_be_named() {
    let (_, mut module, _) = setup();
    let mut p = AnyValue::Param { function: 0, index: 1 };
    p.set_name(&mut module, "width");
    assert_eq!(p, AnyValue::Param { function: 0, index: 1 });
    assert_eq!(module.names.len(), 1);
    assert_eq!(module.names[0].value, p);
    assert_eq!(module.names[0].name, "width");
}

#[test]
fn blocks_are_appended_to_their_function() {
    let (_, mut module, _) = setup();
    let mut f = module.function_prototype(Some("f"), Context::function_type(Type::Void, &[], false));
    let mut g = module.function_prototype(Some("g"), Context::function_type(Type::Void, &[], false));
    assert_eq!(f.entry_block(&module), None);
    let a = BasicBlock::new("entry", &mut module, &mut f);
    let b = BasicBlock::new("entry", &mut module, &mut g);
    let c = BasicBlock::new("next", &mut module, &mut f);
    assert_eq!(a, BasicBlock { index: 0, function: f });
    assert_eq!(b, BasicBlock { index: 1, function: g });
    assert_eq!(c, BasicBlock { index: 2, function: f });
    assert_eq!(a.parent(), f);
    assert_eq!(b.parent(), g);
    assert_eq!(f.entry_block(&module), Some(a));
    assert_eq!(g.entry_block(&module), Some(b));
    assert_eq!(module.blocks[2].name, "next");
}

#[test]
fn constants_are_no_instructions() {
    let (_, module, mut builder) = setup();
    assert_eq!(
        builder.build_const_fp(Type::F64, 2.5f64.to_bits()),
        AnyValue::ConstReal { ty: Type::F64, bits: 2.5f64.to_bits() }
    );
    assert_eq!(
        builder.build_const_int(Type::I32, 7, true),
        AnyValue::ConstInt { ty: Type::I32, value: 7, signed: true }
    );
    assert!(module.insts.is_empty());
}

#[test]
fn instructions_go_to_the_end_of_the_block_the_builder_stands_in() {
    let (_, mut module, mut builder) = setup();
    let mut f = module.function_prototype(Some("f"), Context::function_type(Type::I32, &[Type::I32, Type::I32], false));
    let first = BasicBlock::new("first", &mut module, &mut f);
    let second = BasicBlock::new("second", &mut module, &mut f);
    let p = f.params();

    builder.position_at_end(&first);
    assert_eq!(builder.get_insert_block(), Some(first));
    let a = builder.build_add(&mut module, &p[0], &p[1], Some("a"));
    builder.position_at_end(&second);
    let b = builder.build_sub(&mut module, &a, &p[1], None);
    builder.position_at_end(&first);
    let c = builder.build_mul(&mut module, &a, &a, Some("c"));
    assert_eq!((a, b, c), (AnyValue::Inst(0), AnyValue::Inst(1), AnyValue::Inst(2)));

    let placed: Vec<(usize, &Op, Option<&str>)> =
        module.insts.iter().map(|i| (i.block.unwrap().index, &i.op, i.name.as_deref())).collect();
    assert_eq!(
        placed,
        vec![
            (0, &Op::Binary { kind: BinaryKind::Add, lhs: p[0], rhs: p[1] }, Some("a")),
            (1, &Op::Binary { kind: BinaryKind::Sub, lhs: a, rhs: p[1] }, None),
            (0, &Op::Binary { kind: BinaryKind::Mul, lhs: a, rhs: a }, Some("c")),
        ]
    );
}

#[test]
fn each_instruction_is_recorded_as_it_is() {
    let (_, mut module, mut builder) = setup();
    let mut f = module.function_prototype(Some("f"), Context::function_type(Type::F64, &[Type::F64], false));
    let bb = BasicBlock::new("entry", &mut module, &mut f);
    let other = BasicBlock::new("other", &mut module, &mut f);
    builder.position_at_end(&bb);
    let x = f.params()[0];
    let one = builder.build_const_fp(Type::F64, 1.0f64.to_bits());

    let add = builder.build_fp_add(&mut module, &x, &one, Some("s"));
    let sub = builder.build_fp_sub(&mut module, &x, &one, Some("d"));
    let mul = builder.build_fp_mul(&mut module, &x, &one, Some("p"));
    let cmp = builder.build_fp_cmp(&mut module, RealPredicate::OLT, &x, &one, Some("c"));
    let cast = builder.build_cast_uint_to_fp(&mut module, cmp, Type::F64, Some("b"));
    let phi = builder.build_phi(&mut module, Type::F64, Some("phi"));
    let br = builder.build_br(&mut module, &other);
    let cond = builder.build_cond_br(&mut module, &cmp, &bb, &other);
    let ret = builder.build_ret(&mut module, &cast);
    let void = builder.build_ret_void(&mut module);
    let binary = builder.build_binary(&mut module, BinaryKind::FAdd, &add, &sub, None);

    assert_eq!(
        vec![add, sub, mul, cmp, cast, phi.to_value(), br, cond, ret, void, binary],
        (0..11).map(AnyValue::Inst).collect::<Vec<_>>()
    );
    assert_eq!(phi, Phi { index: 5 });
    assert_eq!(phi.as_value(), AnyValue::Inst(5));
    let ops: Vec<&Op> = module.insts.iter().map(|i| &i.op).collect();
    assert_eq!(
        ops,
        vec![
            &Op::Binary { kind: BinaryKind::FAdd, lhs: x, rhs: one },
            &Op::Binary { kind: BinaryKind::FSub, lhs: x, rhs: one },
            &Op::Binary { kind: BinaryKind::FMul, lhs: x, rhs: one },
            &Op::FCmp { predicate: RealPredicate::OLT, lhs: x, rhs: one },
            &Op::UiToFp { value: cmp, ty: Type::F64 },
            &Op::Phi { ty: Type::F64 },
            &Op::Br { dest: other },
            &Op::CondBr { cond: cmp, then_block: bb, else_block: other },
            &Op::Ret { value: cast },
            &Op::RetVoid,
            &Op::Binary { kind: BinaryKind::FAdd, lhs: add, rhs: sub },
        ]
    );
    assert!(module.insts.iter().all(|i| i.block == Some(bb)));
}

#[test]
fn a_call_needs_as_many_arguments_as_parameters() {
    let (_, mut module, mut builder) = setup();
    let f = module.function_prototype(Some("f"), Context::function_type(Type::F64, &[Type::F64, Type::F64], false));
    let one = builder.build_const_fp(Type::F64, 1.0f64.to_bits());

    assert_eq!(
        builder.build_call(&mut module, &f, &[one], None),
        Err(BuilderError::WrongArgumentsCount { expected: 2, actual: 1 })
    );
    assert_eq!(
        builder.build_call(&mut module, &f, &[], None),
        Err(BuilderError::WrongArgumentsCount { expected: 2, actual: 0 })
    );
    assert_eq!(
        builder.build_call(&mut module, &f, &[one, one, one], None),
        Err(BuilderError::WrongArgumentsCount { expected: 2, actual: 3 })
    );
    assert!(module.insts.is_empty());

    assert_eq!(builder.build_call(&mut module, &f, &[one, one], Some("r")), Ok(AnyValue::Inst(0)));
    assert_eq!(module.insts[0].op, Op::Call { callee: f, args: vec![one, one] });
    assert_eq!(module.insts[0].name.as_deref(), Some("r"));
    assert_eq!(module.insts[0].block, None);
}

#[test]
fn edges_are_added_to_a_phi_node_in_order() {
    let (_, mut module, mut builder) = setup();
    let mut f = module.function_prototype(Some("f"), Context::function_type(Type::F64, &[], false));
    let a = BasicBlock::new("a", &mut module, &mut f);
    let b = BasicBlock::new("b", &mut module, &mut f);
    let phi = builder.build_phi(&mut module, Type::F64, None);
    let one = builder.build_const_fp(Type::F64, 1.0f64.to_bits());
    let two = builder.build_const_fp(Type::F64, 2.0f64.to_bits());
    module.add_incoming(phi, &[]);
    assert!(module.incoming.is_empty());
    module.add_incoming(phi, &[(one, a), (two, b)]);
    module.add_incoming(phi, &[(two, a)]);
    assert_eq!(
        module.incoming,
        vec![
            Incoming { phi, value: one, block: a },
            Incoming { phi, value: two, block: b },
            Incoming { phi, value: two, block: a },
        ]
    );
}

#[test]
fn a_pipeline_keeps_its_passes_in_order() {
    let (_, mut module, _) = setup();
    let empty = module.function_pass_manager_builder().build();
    assert!(empty.passes().is_empty());
    let m = FunctionPassManagerBuilder::new()
        .add_gvn_pass()
        .add_cfg_simplification_pass()
        .add_instruction_combination_pass()
        .add_reassociate_pass()
        .add_gvn_pass()
        .build();
    assert_eq!(
        *m.passes(),
        vec![Pass::Gvn, Pass::CfgSimplification, Pass::InstructionCombining, Pass::Reassociate, Pass::Gvn]
    );
}

#[test]
fn verdicts_and_actions_compare_by_value() {
    assert_eq!(Verdict::Failed("a".to_string()), Verdict::Failed("a".to_string()));
    assert_ne!(Verdict::Failed("a".to_string()), Verdict::Passed);
    assert_ne!(VerifierFailureAction::AbortProcessAction, VerifierFailureAction::PrintMessageAction);
    assert_ne!(VerifierFailureAction::PrintMessageAction, VerifierFailureAction::ReturnStatusAction);
}
