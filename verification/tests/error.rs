use dg_compiler::backend::value::AnyValue;
use dg_compiler::compiler::environment::{lookup, Environment};
use dg_compiler::compiler::error::{decimal_string, pretty_span, CompilerError, ErrorKind};
use dg_compiler::span::Span;

#[test]
fn numbers_are_written_in_decimal() {
    assert_eq!(decimal_string(0), "0");
    assert_eq!(decimal_string(7), "7");
    assert_eq!(decimal_string(9), "9");
    assert_eq!(decimal_string(10), "10");
    assert_eq!(decimal_string(42), "42");
    assert_eq!(decimal_string(100), "100");
    assert_eq!(decimal_string(90817), "90817");
    assert_eq!(decimal_string(1234567890), "1234567890");
    assert_eq!(decimal_string(usize::MAX), usize::MAX.to_string());
}

#[test]
fn a_span_is_written_as_line_and_range() {
    assert_eq!(pretty_span(&Span::new(0, 0, 0)), "0:0..0");
    assert_eq!(pretty_span(&Span::new(13, 25, 4)), "4:13..25");
    assert_eq!(pretty_span(&Span::new(100, 7, 12)), "12:100..7");
}

#[test]
fn every_kind_of_error_has_its_message() {
    let at = Span::new(3, 9, 1);
    let cases = [
        (ErrorKind::UndefinedVariable, "x", "Unknown variable ref x at 1:3..9"),
        (ErrorKind::IllegalDiscardReference, "_", "Illegal reference _ at 1:3..9"),
        (ErrorKind::UndefinedFunction, "f", "Unknown function ref f at 1:3..9"),
        (
            ErrorKind::ArityMismatch { expected: 3, actual: 12 },
            "f",
            "WrongArgumentsCount { expected: 3, actual: 12 }",
        ),
        (ErrorKind::EmptyBlock, "", "Found empty block which is invalid value! 1:3..9"),
        (ErrorKind::FunctionVerificationFailed, "define double @f()", "define double @f()"),
        (ErrorKind::ModuleVerificationFailed, "bad module", "bad module"),
    ];
    for (kind, name, message) in cases {
        let e = CompilerError::new(kind, name, at);
        assert_eq!(e.kind, kind);
        assert_eq!(e.span, at);
        assert_eq!(e.message, message);
        assert_eq!(e.to_string(), message);
    }
}

#[test]
fn a_later_binding_replaces_an_earlier_one() {
    let entries = vec![("a".to_string(), 1u8), ("b".to_string(), 2), ("a".to_string(), 3)];
    assert_eq!(lookup(&entries, &"a".to_string()), Some(3));
    assert_eq!(lookup(&entries, &"b".to_string()), Some(2));
    assert_eq!(lookup(&entries, &"c".to_string()), None);
    assert_eq!(lookup(&Vec::<(String, u8)>::new(), &"a".to_string()), None);
}

#[test]
fn the_tables_of_an_environment_are_apart() {
    let mut env = Environment::new();
    let name = "x".to_string();
    assert_eq!(env.var(&name), None);
    assert_eq!(env.def(&name), None);
    env.bind_var("x".to_string(), AnyValue::Inst(1));
    assert_eq!(env.var(&name), Some(AnyValue::Inst(1)));
    assert_eq!(env.def(&name), None);
    env.bind_var("x".to_string(), AnyValue::Inst(2));
    assert_eq!(env.var(&name), Some(AnyValue::Inst(2)));
    env.define("x".to_string(), dg_compiler::backend::value::Function { index: 0, arity: 0 });
    env.clear_vars();
    assert_eq!(env.var(&name), None);
    assert_eq!(env.def(&name), Some(dg_compiler::backend::value::Function { index: 0, arity: 0 }));
}
