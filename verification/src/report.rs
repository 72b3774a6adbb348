//! What a shell shows of an instruction, of its value, and of an error.

use vstd::prelude::*;
use vstd::string::StringExecFns;
use crate::ast::{InstrModel, Instruction, Value};
use crate::error::{EvalError, EvalErrorModel, ParseError};

verus! {

/// The name that an instruction binds, or `-` if it binds none.
pub open spec fn id_of(i: InstrModel) -> Seq<char> {
    match i {
        InstrModel::Let(name, _) => name,
        InstrModel::LetMut(name, _) => name,
        InstrModel::Mutate(name, _) => name,
        _ => "-"@,
    }
}

/// The name of the kind of a value.
pub open spec fn kind_name(v: Value) -> Seq<char> {
    match v {
        Value::Integer(_) => "int"@,
        Value::Boolean(_) => "bool"@,
        Value::Unit => "unit"@,
    }
}

/// The character for a digit.
pub open spec fn digit_char(d: int) -> char {
    ('0' as int + d) as char
}

/// The decimal digits of a natural number, without leading zeros.
pub open spec fn digits_of(n: nat) -> Seq<char>
    decreases n,
{
    if n < 10 {
        seq![digit_char(n as int)]
    } else {
        digits_of(n / 10).push(digit_char((n % 10) as int))
    }
}

/// An integer in decimal, with `-` before a negative one.
pub open spec fn integer_text(n: int) -> Seq<char> {
    if n < 0 {
        "-"@ + digits_of((-n) as nat)
    } else {
        digits_of(n as nat)
    }
}

/// How a value is written.
pub open spec fn value_text(v: Value) -> Seq<char> {
    match v {
        Value::Integer(n) => integer_text(n as int),
        Value::Boolean(b) => if b {
            "true"@
        } else {
            "false"@
        },
        Value::Unit => "()"@,
    }
}

/// The line for the value of an instruction: what it binds, the kind of the
/// value, and the value.
pub open spec fn result_text(id: Seq<char>, v: Value) -> Seq<char> {
    id + " : "@ + kind_name(v) + " = "@ + value_text(v)
}

/// A value with its kind, as an error message names an operand.
pub open spec fn operand_text(v: Value) -> Seq<char> {
    match v {
        Value::Integer(n) => "Integer("@ + integer_text(n as int) + ")"@,
        Value::Boolean(b) => "Boolean("@ + value_text(v) + ")"@,
        Value::Unit => "Unit"@,
    }
}

/// The message for an evaluation error.
pub open spec fn eval_message(e: EvalErrorModel) -> Seq<char> {
    match e {
        EvalErrorModel::UndefinedVariable(name) => " "@ + name + "  is not defined."@,
        EvalErrorModel::AlreadyDefined(name) => " "@ + name + "  is already defined."@,
        EvalErrorModel::NotMutable(name) => " "@ + name + "  is not mutable."@,
        EvalErrorModel::NotDefined(name) => " "@ + name + "  is not defined."@,
        EvalErrorModel::InvalidOperation(left, op, right) => "invalid operation: "@
            + operand_text(left) + " \""@ + op + "\" "@ + operand_text(right),
        EvalErrorModel::TypeError => "Expected a boolean value for the condition."@,
        EvalErrorModel::DivisionByZero => "Division by zero."@,
        EvalErrorModel::CannotExitRoot => "Cannot exit root block."@,
    }
}

/// The message for a parse error.
pub open spec fn parse_message(e: ParseError) -> Seq<char> {
    match e {
        ParseError::UnexpectedCharacter { offset } => "unexpected character at offset "@
            + digits_of(offset as nat),
        ParseError::IntegerTooLarge { offset } => "integer too large at offset "@ + digits_of(
            offset as nat,
        ),
        ParseError::UnexpectedToken { offset } => "unexpected token at offset "@ + digits_of(
            offset as nat,
        ),
        ParseError::UnexpectedEnd => "unexpected end of input"@,
    }
}

/// The name that an instruction binds, or `-` if it binds none.
pub fn id_of_instruction(ast: &Instruction) -> (r: String)
    ensures
        r@ == id_of(ast@),
{
    match ast {
        Instruction::Let(x, _) => x.clone(),
        Instruction::LetMut(x, _) => x.clone(),
        Instruction::Mutate(x, _) => x.clone(),
        Instruction::Expr(_) => String::from_str("-"),
        Instruction::Block(_) => String::from_str("-"),
        Instruction::While(_, _) => String::from_str("-"),
        Instruction::IfElse { .. } => String::from_str("-"),
    }
}

/// The name of the kind of a value: `int`, `bool` or `unit`.
pub fn type_of_value(v: Value) -> (r: String)
    ensures
        r@ == kind_name(v),
{
    match v {
        Value::Integer(_) => String::from_str("int"),
        Value::Unit => String::from_str("unit"),
        Value::Boolean(_) => String::from_str("bool"),
    }
}

/// The text of one digit.
fn digit_text(d: u8) -> (r: &'static str)
    requires
        d < 10,
    ensures
        r@ == seq![digit_char(d as int)],
{
    proof {
        reveal_strlit("0");
        reveal_strlit("1");
        reveal_strlit("2");
        reveal_strlit("3");
        reveal_strlit("4");
        reveal_strlit("5");
        reveal_strlit("6");
        reveal_strlit("7");
        reveal_strlit("8");
        reveal_strlit("9");
    }
    let r = if d == 0 {
        "0"
    } else if d == 1 {
        "1"
    } else if d == 2 {
        "2"
    } else if d == 3 {
        "3"
    } else if d == 4 {
        "4"
    } else if d == 5 {
        "5"
    } else if d == 6 {
        "6"
    } else if d == 7 {
        "7"
    } else if d == 8 {
        "8"
    } else {
        "9"
    };
    assert(r@ =~= seq![digit_char(d as int)]);
    r
}

/// Appends the digits of `n` to `out`.
fn push_digits(out: &mut String, n: u64)
    ensures
        final(out)@ == old(out)@ + digits_of(n as nat),
    decreases n,
{
    if n >= 10 {
        push_digits(out, n / 10);
    }
    out.append(digit_text((n % 10) as u8));
    proof {
        if n >= 10 {
            assert(old(out)@ + digits_of((n / 10) as nat) + seq![digit_char((n % 10) as int)]
                =~= old(out)@ + digits_of(n as nat));
        }
    }
}

/// Appends an integer in decimal to `out`.
fn push_integer(out: &mut String, n: i32)
    ensures
        final(out)@ == old(out)@ + integer_text(n as int),
{
    if n < 0 {
        out.append("-");
        push_digits(out, (-(n as i64)) as u64);
        assert(out@ =~= old(out)@ + ("-"@ + digits_of((-(n as int)) as nat)));
    } else {
        push_digits(out, n as u64);
    }
}

/// Appends a value, as it is written, to `out`.
fn push_value(out: &mut String, v: Value)
    ensures
        final(out)@ == old(out)@ + value_text(v),
{
    match v {
        Value::Integer(n) => push_integer(out, n),
        Value::Boolean(b) => if b {
            out.append("true");
        } else {
            out.append("false");
        },
        Value::Unit => {
            out.append("()");
        },
    }
}

/// Appends a value with its kind to `out`.
fn push_operand(out: &mut String, v: Value)
    ensures
        final(out)@ == old(out)@ + operand_text(v),
{
    match v {
        Value::Integer(_) => {
            out.append("Integer(");
            push_value(out, v);
            out.append(")");
            assert(out@ =~= old(out)@ + operand_text(v));
        },
        Value::Boolean(_) => {
            out.append("Boolean(");
            push_value(out, v);
            out.append(")");
            assert(out@ =~= old(out)@ + operand_text(v));
        },
        Value::Unit => {
            out.append("Unit");
        },
    }
}

impl Value {
    /// The value as it is written: an integer in decimal, `true` or `false`,
    /// or `()`.
    pub fn to_text(&self) -> (r: String)
        ensures
            r@ == value_text(*self),
    {
        let mut out = String::new();
        push_value(&mut out, *self);
        assert(out@ =~= value_text(*self));
        out
    }
}

/// The line that shows the value of an instruction: `id`, which is what the
/// instruction binds, then the kind of the value, then the value.
pub fn result_line(id: &str, v: Value) -> (r: String)
    ensures
        r@ == result_text(id@, v),
{
    let mut out = String::from_str(id);
    out.append(" : ");
    out.append(type_of_value(v).as_str());
    out.append(" = ");
    push_value(&mut out, v);
    out
}

impl EvalError {
    /// The message for the error.
    pub fn message(&self) -> (r: String)
        ensures
            r@ == eval_message(self@),
    {
        match self {
            EvalError::UndefinedVariable(name) => {
                let mut out = String::from_str(" ");
                out.append(name.as_str());
                out.append("  is not defined.");
                out
            },
            EvalError::AlreadyDefined(name) => {
                let mut out = String::from_str(" ");
                out.append(name.as_str());
                out.append("  is already defined.");
                out
            },
            EvalError::NotMutable(name) => {
                let mut out = String::from_str(" ");
                out.append(name.as_str());
                out.append("  is not mutable.");
                out
            },
            EvalError::NotDefined(name) => {
                let mut out = String::from_str(" ");
                out.append(name.as_str());
                out.append("  is not defined.");
                out
            },
            EvalError::InvalidOperation(left, op, right) => {
                let mut out = String::from_str("invalid operation: ");
                push_operand(&mut out, *left);
                out.append(" \"");
                out.append(op.as_str());
                out.append("\" ");
                push_operand(&mut out, *right);
                out
            },
            EvalError::TypeError => String::from_str("Expected a boolean value for the condition."),
            EvalError::DivisionByZero => String::from_str("Division by zero."),
            EvalError::CannotExitRoot => String::from_str("Cannot exit root block."),
        }
    }
}

impl ParseError {
    /// The message for the error.
    pub fn message(&self) -> (r: String)
        ensures
            r@ == parse_message(*self),
    {
        match self {
            ParseError::UnexpectedCharacter { offset } => {
                let mut out = String::from_str("unexpected character at offset ");
                push_digits(&mut out, *offset as u64);
                out
            },
            ParseError::IntegerTooLarge { offset } => {
                let mut out = String::from_str("integer too large at offset ");
                push_digits(&mut out, *offset as u64);
                out
            },
            ParseError::UnexpectedToken { offset } => {
                let mut out = String::from_str("unexpected token at offset ");
                push_digits(&mut out, *offset as u64);
                out
            },
            ParseError::UnexpectedEnd => String::from_str("unexpected end of input"),
        }
    }
}

} // verus!
