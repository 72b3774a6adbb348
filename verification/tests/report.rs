use imp::ast::{Expression, Instruction, Value};
use imp::parser::parse;
use imp::error::{EvalError, ParseError};
use imp::report::{id_of_instruction, result_line, type_of_value};

#[test]
fn binding_instructions_are_named() {
    let e = || Expression::Const(Value::Unit);
    assert_eq!(id_of_instruction(&Instruction::Let("x".to_string(), e())), "x");
    assert_eq!(id_of_instruction(&Instruction::LetMut("acc".to_string(), e())), "acc");
    assert_eq!(id_of_instruction(&Instruction::Mutate("i".to_string(), e())), "i");
    assert_eq!(id_of_instruction(&Instruction::Expr(e())), "-");
    assert_eq!(id_of_instruction(&Instruction::Block(vec![])), "-");
    assert_eq!(id_of_instruction(&parse("while x {let y = 1}".to_string()).unwrap()), "-");
    assert_eq!(id_of_instruction(&parse("if x {let y = 1} else {}".to_string()).unwrap()), "-");
}

#[test]
fn values_have_a_kind() {
    assert_eq!(type_of_value(Value::Integer(3)), "int");
    assert_eq!(type_of_value(Value::Boolean(false)), "bool");
    assert_eq!(type_of_value(Value::Unit), "unit");
}

#[test]
fn values_are_written_like_in_the_language() {
    assert_eq!(Value::Integer(0).to_text(), "0");
    assert_eq!(Value::Integer(7).to_text(), "7");
    assert_eq!(Value::Integer(10).to_text(), "10");
    assert_eq!(Value::Integer(720).to_text(), "720");
    assert_eq!(Value::Integer(-1).to_text(), "-1");
    assert_eq!(Value::Integer(-305).to_text(), "-305");
    assert_eq!(Value::Integer(i32::MAX).to_text(), "2147483647");
    assert_eq!(Value::Integer(i32::MIN).to_text(), "-2147483648");
    assert_eq!(Value::Boolean(true).to_text(), "true");
    assert_eq!(Value::Boolean(false).to_text(), "false");
    assert_eq!(Value::Unit.to_text(), "()");
}

#[test]
fn results_are_shown_on_one_line() {
    assert_eq!(result_line("x", Value::Integer(2)), "x : int = 2");
    assert_eq!(result_line("-", Value::Boolean(true)), "- : bool = true");
    assert_eq!(result_line("-", Value::Unit), "- : unit = ()");
    assert_eq!(result_line("acc", Value::Integer(-720)), "acc : int = -720");
    let instruction = parse("let mut acc = 1".to_string()).unwrap();
    assert_eq!(
        result_line(&id_of_instruction(&instruction), Value::Integer(1)),
        "acc : int = 1"
    );
}

#[test]
fn evaluation_errors_have_messages() {
    let x = || "x".to_string();
    assert_eq!(EvalError::UndefinedVariable(x()).message(), " x  is not defined.");
    assert_eq!(EvalError::AlreadyDefined(x()).message(), " x  is already defined.");
    assert_eq!(EvalError::NotMutable(x()).message(), " x  is not mutable.");
    assert_eq!(EvalError::NotDefined(x()).message(), " x  is not defined.");
    assert_eq!(
        EvalError::InvalidOperation(Value::Boolean(true), "+".to_string(), Value::Integer(1))
            .message(),
        "invalid operation: Boolean(true) \"+\" Integer(1)"
    );
    assert_eq!(
        EvalError::InvalidOperation(Value::Unit, "==".to_string(), Value::Integer(-4)).message(),
        "invalid operation: Unit \"==\" Integer(-4)"
    );
    assert_eq!(EvalError::TypeError.message(), "Expected a boolean value for the condition.");
    assert_eq!(EvalError::DivisionByZero.message(), "Division by zero.");
    assert_eq!(EvalError::CannotExitRoot.message(), "Cannot exit root block.");
}

#[test]
fn parse_errors_have_messages() {
    assert_eq!(
        ParseError::UnexpectedCharacter { offset: 0 }.message(),
        "unexpected character at offset 0"
    );
    assert_eq!(
        ParseError::IntegerTooLarge { offset: 12 }.message(),
        "integer too large at offset 12"
    );
    assert_eq!(
        ParseError::UnexpectedToken { offset: 305 }.message(),
        "unexpected token at offset 305"
    );
    assert_eq!(ParseError::UnexpectedEnd.message(), "unexpected end of input");
    assert_eq!(
        parse("let x = $".to_string()).unwrap_err().message(),
        "unexpected character at offset 8"
    );
}
