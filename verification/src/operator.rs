//! The binary operators and what they compute.

use vstd::prelude::*;
use vstd::string::StrSliceExecFns;
use vstd::string::StringExecFns;
use crate::ast::Value;
use crate::error::{EvalError, EvalErrorModel, Outcome, outcome_of};

verus! {

/// A binary operator.
#[derive(Debug, Clone, Copy, PartialEq, Eq, Structural)]
pub enum Operator {
    Add,
    Sub,
    Mul,
    Div,
    Mod,
    Lt,
    Gt,
    Le,
    Ge,
    Equal,
    NotEqual,
    And,
    Or,
}

impl Operator {
    /// How the operator is written.
    pub open spec fn text(self) -> Seq<char> {
        match self {
            Operator::Add => seq!['+'],
            Operator::Sub => seq!['-'],
            Operator::Mul => seq!['*'],
            Operator::Div => seq!['/'],
            Operator::Mod => seq!['%'],
            Operator::Lt => seq!['<'],
            Operator::Gt => seq!['>'],
            Operator::Le => seq!['<', '='],
            Operator::Ge => seq!['>', '='],
            Operator::Equal => seq!['=', '='],
            Operator::NotEqual => seq!['!', '='],
            Operator::And => seq!['&', '&'],
            Operator::Or => seq!['|', '|'],
        }
    }

    /// The operator that is written `s`, if there is one.
    pub open spec fn named(s: Seq<char>) -> Option<Operator> {
        if exists|op: Operator| op.text() == s {
            Some(choose|op: Operator| op.text() == s)
        } else {
            None
        }
    }

    /// The first character of the operator.
    pub open spec fn head(self) -> char {
        match self {
            Operator::Add => '+',
            Operator::Sub => '-',
            Operator::Mul => '*',
            Operator::Div => '/',
            Operator::Mod => '%',
            Operator::Lt | Operator::Le => '<',
            Operator::Gt | Operator::Ge => '>',
            Operator::Equal => '=',
            Operator::NotEqual => '!',
            Operator::And => '&',
            Operator::Or => '|',
        }
    }

    /// The second character of the operator, if it has two.
    pub open spec fn tail(self) -> Option<char> {
        match self {
            Operator::Le | Operator::Ge | Operator::Equal | Operator::NotEqual => Some('='),
            Operator::And => Some('&'),
            Operator::Or => Some('|'),
            _ => None,
        }
    }

    /// An operator is written with its head, and with its tail if it has one.
    pub proof fn lemma_text_shape(self)
        ensures
            self.text().len() == if self.tail() is Some {
                2int
            } else {
                1int
            },
            self.text()[0] == self.head(),
            self.tail() is Some ==> self.text()[1] == self.tail()->0,
    {
    }

    /// No two operators are written alike.
    pub proof fn lemma_text_injective(a: Operator, b: Operator)
        requires
            a.text() == b.text(),
        ensures
            a == b,
    {
        a.lemma_text_shape();
        b.lemma_text_shape();
    }

    /// Reading back what an operator is written as gives the operator.
    pub proof fn lemma_named_text(op: Operator)
        ensures
            Operator::named(op.text()) == Some(op),
    {
        let found = choose|o: Operator| o.text() == op.text();
        Operator::lemma_text_injective(found, op);
    }

    /// How tightly the operator binds in the grammar: comparisons least,
    /// then sums, then products. The logical operators have no place in the
    /// grammar and no tier.
    pub open spec fn tier(self) -> nat {
        match self {
            Operator::Lt
            | Operator::Gt
            | Operator::Le
            | Operator::Ge
            | Operator::Equal
            | Operator::NotEqual => 1,
            Operator::Add | Operator::Sub => 2,
            Operator::Mul | Operator::Div | Operator::Mod => 3,
            Operator::And | Operator::Or => 0,
        }
    }

    /// The tier of the operator.
    pub fn precedence(self) -> (r: u8)
        ensures
            r == self.tier(),
    {
        match self {
            Operator::Lt
            | Operator::Gt
            | Operator::Le
            | Operator::Ge
            | Operator::Equal
            | Operator::NotEqual => 1,
            Operator::Add | Operator::Sub => 2,
            Operator::Mul | Operator::Div | Operator::Mod => 3,
            Operator::And | Operator::Or => 0,
        }
    }

    /// The operator written `s`.
    pub fn from_symbol(s: &str) -> (r: Option<Operator>)
        ensures
            r == Operator::named(s@),
    {
        let n: usize = s.unicode_len();
        let r = if n == 1 {
            let c = s.get_char(0);
            if c == '+' {
                Some(Operator::Add)
            } else if c == '-' {
                Some(Operator::Sub)
            } else if c == '*' {
                Some(Operator::Mul)
            } else if c == '/' {
                Some(Operator::Div)
            } else if c == '%' {
                Some(Operator::Mod)
            } else if c == '<' {
                Some(Operator::Lt)
            } else if c == '>' {
                Some(Operator::Gt)
            } else {
                None
            }
        } else if n == 2 {
            let c = s.get_char(0);
            let d = s.get_char(1);
            if c == '<' && d == '=' {
                Some(Operator::Le)
            } else if c == '>' && d == '=' {
                Some(Operator::Ge)
            } else if c == '=' && d == '=' {
                Some(Operator::Equal)
            } else if c == '!' && d == '=' {
                Some(Operator::NotEqual)
            } else if c == '&' && d == '&' {
                Some(Operator::And)
            } else if c == '|' && d == '|' {
                Some(Operator::Or)
            } else {
                None
            }
        } else {
            None
        };
        proof {
            match r {
                Some(op) => {
                    assert(op.text() =~= s@);
                    Operator::lemma_named_text(op);
                },
                None => {
                    assert forall|op: Operator| op.text() != s@ by {
                        op.lemma_text_shape();
                    }
                },
            }
        }
        r
    }

    /// The operator as it is written.
    pub fn symbol(self) -> (r: String)
        ensures
            r@ == self.text(),
    {
        let s: &str = match self {
            Operator::Add => "+",
            Operator::Sub => "-",
            Operator::Mul => "*",
            Operator::Div => "/",
            Operator::Mod => "%",
            Operator::Lt => "<",
            Operator::Gt => ">",
            Operator::Le => "<=",
            Operator::Ge => ">=",
            Operator::Equal => "==",
            Operator::NotEqual => "!=",
            Operator::And => "&&",
            Operator::Or => "||",
        };
        proof {
            reveal_strlit("+");
            reveal_strlit("-");
            reveal_strlit("*");
            reveal_strlit("/");
            reveal_strlit("%");
            reveal_strlit("<");
            reveal_strlit(">");
            reveal_strlit("<=");
            reveal_strlit(">=");
            reveal_strlit("==");
            reveal_strlit("!=");
            reveal_strlit("&&");
            reveal_strlit("||");
            assert(s@ =~= self.text());
        }
        String::from_str(s)
    }
}

/// The 32-bit two's complement integer that is congruent to `x`.
pub open spec fn wrap(x: int) -> i32 {
    ((x + 0x8000_0000) % 0x1_0000_0000 - 0x8000_0000) as i32
}

/// Wrapping leaves an integer of 32 bits as it is, and moves any other by a
/// multiple of 2^32.
pub proof fn law_wrap(x: int)
    ensures
        i32::MIN <= x <= i32::MAX ==> wrap(x) == x,
        (wrap(x) - x) % 0x1_0000_0000 == 0,
{
}

/// The magnitude of `x`.
pub open spec fn magnitude(x: int) -> int {
    if x < 0 {
        -x
    } else {
        x
    }
}

/// The quotient of `a` by `b`, rounded toward zero.
pub open spec fn quotient(a: int, b: int) -> int {
    let q = magnitude(a) / magnitude(b);
    if (a < 0) != (b < 0) {
        -q
    } else {
        q
    }
}

/// The remainder that goes with [`quotient`]; it has the sign of `a`.
pub open spec fn remainder(a: int, b: int) -> int {
    let r = magnitude(a) % magnitude(b);
    if a < 0 {
        -r
    } else {
        r
    }
}

/// Quotient and remainder make up the dividend.
pub proof fn law_quotient_remainder(a: int, b: int)
    requires
        b != 0,
    ensures
        b * quotient(a, b) + remainder(a, b) == a,
        magnitude(remainder(a, b)) < magnitude(b),
{
    let x = magnitude(a);
    let y = magnitude(b);
    assert(x == y * (x / y) + x % y && 0 <= x % y < y) by (nonlinear_arith)
        requires
            y > 0,
    ;
    assert(b * quotient(a, b) + remainder(a, b) == a) by (nonlinear_arith)
        requires
            x == y * (x / y) + x % y,
            x == magnitude(a),
            y == magnitude(b),
            b != 0,
    ;
}

/// What an operator computes on two integers. Sums, differences, products
/// and quotients that do not fit in 32 bits wrap around; a division by zero
/// fails; the logical operators are not defined.
pub open spec fn on_integers(op: Operator, a: i32, b: i32) -> Option<Outcome> {
    match op {
        Operator::Add => Some(Ok(Value::Integer(wrap(a + b)))),
        Operator::Sub => Some(Ok(Value::Integer(wrap(a - b)))),
        Operator::Mul => Some(Ok(Value::Integer(wrap(a * b)))),
        Operator::Div => Some(
            if b == 0 {
                Err(EvalErrorModel::DivisionByZero)
            } else {
                Ok(Value::Integer(wrap(quotient(a as int, b as int))))
            },
        ),
        Operator::Mod => Some(
            if b == 0 {
                Err(EvalErrorModel::DivisionByZero)
            } else {
                Ok(Value::Integer(wrap(remainder(a as int, b as int))))
            },
        ),
        Operator::Lt => Some(Ok(Value::Boolean(a < b))),
        Operator::Gt => Some(Ok(Value::Boolean(a > b))),
        Operator::Le => Some(Ok(Value::Boolean(a <= b))),
        Operator::Ge => Some(Ok(Value::Boolean(a >= b))),
        Operator::Equal => Some(Ok(Value::Boolean(a == b))),
        Operator::NotEqual => Some(Ok(Value::Boolean(a != b))),
        Operator::And | Operator::Or => None,
    }
}

/// What an operator computes on two booleans: the logical operators, and
/// equality. The others are not defined.
pub open spec fn on_booleans(op: Operator, a: bool, b: bool) -> Option<Outcome> {
    match op {
        Operator::And => Some(Ok(Value::Boolean(a && b))),
        Operator::Or => Some(Ok(Value::Boolean(a || b))),
        Operator::Equal => Some(Ok(Value::Boolean(a == b))),
        Operator::NotEqual => Some(Ok(Value::Boolean(a != b))),
        _ => None,
    }
}

/// What the operation defines for these operands, if it defines anything.
pub open spec fn defined(left: Value, op: Seq<char>, right: Value) -> Option<Outcome> {
    match (left, Operator::named(op), right) {
        (Value::Integer(a), Some(o), Value::Integer(b)) => on_integers(o, a, b),
        (Value::Boolean(a), Some(o), Value::Boolean(b)) => on_booleans(o, a, b),
        _ => None,
    }
}

/// The outcome of a binary operation. An unknown operator, and operands of
/// kinds that the operator is not defined on, are an invalid operation.
pub open spec fn apply(left: Value, op: Seq<char>, right: Value) -> Outcome {
    match defined(left, op, right) {
        Some(outcome) => outcome,
        None => Err(EvalErrorModel::InvalidOperation(left, op, right)),
    }
}

/// Operands that are not two integers or two booleans make an invalid
/// operation, whatever the operator.
pub proof fn law_mixed_operands(left: Value, op: Seq<char>, right: Value)
    requires
        !(left is Integer && right is Integer),
        !(left is Boolean && right is Boolean),
    ensures
        apply(left, op, right) == Err::<Value, _>(
            EvalErrorModel::InvalidOperation(left, op, right),
        ),
{
}

/// An operator that is not of the language makes an invalid operation.
pub proof fn law_unknown_operator(left: Value, op: Seq<char>, right: Value)
    requires
        Operator::named(op) is None,
    ensures
        apply(left, op, right) == Err::<Value, _>(
            EvalErrorModel::InvalidOperation(left, op, right),
        ),
{
}

/// Dividing an integer by zero, or taking its remainder by zero, is an
/// error, whatever the dividend.
pub proof fn law_division_by_zero(a: i32)
    ensures
        apply(Value::Integer(a), seq!['/'], Value::Integer(0)) == Err::<Value, _>(
            EvalErrorModel::DivisionByZero,
        ),
        apply(Value::Integer(a), seq!['%'], Value::Integer(0)) == Err::<Value, _>(
            EvalErrorModel::DivisionByZero,
        ),
{
    Operator::lemma_named_text(Operator::Div);
    Operator::lemma_named_text(Operator::Mod);
}

/// On two integers every operator but the logical ones is defined, and
/// fails only by a division by zero.
pub proof fn law_integer_operations(op: Operator, a: i32, b: i32)
    requires
        op != Operator::And,
        op != Operator::Or,
    ensures
        apply(Value::Integer(a), op.text(), Value::Integer(b)) is Err <==> (op == Operator::Div
            || op == Operator::Mod) && b == 0,
{
    Operator::lemma_named_text(op);
}

/// The quotient of two integers, rounded toward zero and wrapped to 32 bits.
pub fn divide(a: i32, b: i32) -> (q: i32)
    requires
        b != 0,
    ensures
        q == wrap(quotient(a as int, b as int)),
{
    let x: i64 = a as i64;
    let y: i64 = b as i64;
    let mx: i64 = if x < 0 { -x } else { x };
    let my: i64 = if y < 0 { -y } else { y };
    let m: i64 = mx / my;
    assert(0 <= m <= mx) by (nonlinear_arith)
        requires
            m == mx / my,
            mx >= 0,
            my > 0,
    ;
    let q: i64 = if (x < 0) != (y < 0) { -m } else { m };
    if q == 0x8000_0000 {
        i32::MIN
    } else {
        q as i32
    }
}

/// The remainder of a division rounded toward zero.
pub fn modulo(a: i32, b: i32) -> (r: i32)
    requires
        b != 0,
    ensures
        r == wrap(remainder(a as int, b as int)),
{
    let x: i64 = a as i64;
    let y: i64 = b as i64;
    let mx: i64 = if x < 0 { -x } else { x };
    let my: i64 = if y < 0 { -y } else { y };
    let m: i64 = mx % my;
    let r: i64 = if x < 0 { -m } else { m };
    r as i32
}

/// Applies the operator written `op` to two values.
pub fn apply_operator(left: Value, op: &String, right: Value) -> (r: Result<Value, EvalError>)
    ensures
        outcome_of(r) == apply(left, op@, right),
{
    let decoded = Operator::from_symbol(op.as_str());
    match (left, decoded, right) {
        (Value::Integer(a), Some(o), Value::Integer(b)) => {
            match o {
                Operator::Add => Ok(Value::Integer(a.wrapping_add(b))),
                Operator::Sub => Ok(Value::Integer(a.wrapping_sub(b))),
                Operator::Mul => {
                    proof {
                        lemma_wrapping_mul(a, b);
                    }
                    Ok(Value::Integer(a.wrapping_mul(b)))
                },
                Operator::Div => if b == 0 {
                    Err(EvalError::DivisionByZero)
                } else {
                    Ok(Value::Integer(divide(a, b)))
                },
                Operator::Mod => if b == 0 {
                    Err(EvalError::DivisionByZero)
                } else {
                    Ok(Value::Integer(modulo(a, b)))
                },
                Operator::Lt => Ok(Value::Boolean(a < b)),
                Operator::Gt => Ok(Value::Boolean(a > b)),
                Operator::Le => Ok(Value::Boolean(a <= b)),
                Operator::Ge => Ok(Value::Boolean(a >= b)),
                Operator::Equal => Ok(Value::Boolean(a == b)),
                Operator::NotEqual => Ok(Value::Boolean(a != b)),
                _ => Err(EvalError::InvalidOperation(left, op.clone(), right)),
            }
        },
        (Value::Boolean(a), Some(o), Value::Boolean(b)) => {
            match o {
                Operator::And => Ok(Value::Boolean(a && b)),
                Operator::Or => Ok(Value::Boolean(a || b)),
                Operator::Equal => Ok(Value::Boolean(a == b)),
                Operator::NotEqual => Ok(Value::Boolean(a != b)),
                _ => Err(EvalError::InvalidOperation(left, op.clone(), right)),
            }
        },
        _ => Err(EvalError::InvalidOperation(left, op.clone(), right)),
    }
}

/// The product that the machine computes is the wrapped product.
proof fn lemma_wrapping_mul(a: i32, b: i32)
    ensures
        vstd::wrapping::i32_specs::wrapping_mul(a, b) == wrap(a * b),
{
    let p: int = a * b;
    assert(((p + 0x8000_0000) % 0x1_0000_0000 - 0x8000_0000) == if p % 0x1_0000_0000
        > 0x7fff_ffff {
        p % 0x1_0000_0000 - 0x1_0000_0000
    } else {
        p % 0x1_0000_0000
    });
}

} // verus!
