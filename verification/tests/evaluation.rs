use imp::ast::{Expression, Instruction, Value};
use imp::error::{EvalError, NamespaceError};
use imp::eval::eval_expr;
use imp::machine::{eval, Machine, Progress};
use imp::namespace::{NameSpace, VNameSpace};
use imp::operator::{apply_operator, divide, modulo, Operator};
use imp::parser::parse;

type Outcome = Result<Value, EvalError>;

fn whole(n: i32) -> Value {
    Value::Integer(n)
}

fn lit(n: i32) -> Expression {
    Expression::Const(Value::Integer(n))
}

fn apply(left: Value, op: &str, right: Value) -> Outcome {
    apply_operator(left, &op.to_string(), right)
}

/// Steps a machine to its end, within a budget of steps.
fn run(instruction: &Instruction, ns: &mut VNameSpace) -> (Vec<Outcome>, Outcome) {
    let mut reports = Vec::new();
    let mut machine = Machine::start(instruction);
    for _ in 0..100_000 {
        match machine.step(ns) {
            Progress::Running(next) => machine = next,
            Progress::Reported(next, r) => {
                reports.push(r);
                machine = next;
            }
            Progress::Finished(r) => return (reports, r),
        }
    }
    panic!("the evaluation did not end");
}

fn session() -> VNameSpace {
    let mut ns = VNameSpace::root();
    ns.enter_block();
    ns
}

fn line(text: &str, ns: &mut VNameSpace) -> (Vec<Outcome>, Outcome) {
    let instruction = parse(text.to_string()).unwrap();
    run(&instruction, ns)
}

fn value(text: &str, ns: &mut VNameSpace) -> Outcome {
    line(text, ns).1
}

#[test]
fn arithmetic_on_integers() {
    assert_eq!(apply(whole(7), "+", whole(5)), Ok(whole(12)));
    assert_eq!(apply(whole(7), "-", whole(5)), Ok(whole(2)));
    assert_eq!(apply(whole(7), "*", whole(5)), Ok(whole(35)));
    assert_eq!(apply(whole(7), "/", whole(2)), Ok(whole(3)));
    assert_eq!(apply(whole(7), "%", whole(2)), Ok(whole(1)));
    assert_eq!(apply(whole(-7), "/", whole(2)), Ok(whole(-3)));
    assert_eq!(apply(whole(-7), "%", whole(2)), Ok(whole(-1)));
    assert_eq!(apply(whole(7), "/", whole(-2)), Ok(whole(-3)));
    assert_eq!(apply(whole(7), "%", whole(-2)), Ok(whole(1)));
    assert_eq!(apply(whole(-7), "/", whole(-2)), Ok(whole(3)));
    assert_eq!(apply(whole(-7), "%", whole(-2)), Ok(whole(-1)));
}

#[test]
fn arithmetic_wraps_at_32_bits() {
    assert_eq!(apply(whole(i32::MAX), "+", whole(1)), Ok(whole(i32::MIN)));
    assert_eq!(apply(whole(i32::MIN), "-", whole(1)), Ok(whole(i32::MAX)));
    assert_eq!(apply(whole(65536), "*", whole(65536)), Ok(whole(0)));
    assert_eq!(apply(whole(i32::MAX), "*", whole(2)), Ok(whole(-2)));
    assert_eq!(apply(whole(i32::MIN), "/", whole(-1)), Ok(whole(i32::MIN)));
    assert_eq!(apply(whole(i32::MIN), "%", whole(-1)), Ok(whole(0)));
    assert_eq!(divide(i32::MIN, -1), i32::MIN);
    assert_eq!(divide(i32::MIN, 1), i32::MIN);
    assert_eq!(divide(i32::MAX, -1), -i32::MAX);
    assert_eq!(modulo(i32::MIN, 3), -2);
    assert_eq!(modulo(i32::MIN, i32::MIN), 0);
}

#[test]
fn division_by_zero_is_an_error() {
    assert_eq!(apply(whole(1), "/", whole(0)), Err(EvalError::DivisionByZero));
    assert_eq!(apply(whole(1), "%", whole(0)), Err(EvalError::DivisionByZero));
    assert_eq!(apply(whole(0), "/", whole(0)), Err(EvalError::DivisionByZero));
    assert_eq!(apply(whole(i32::MIN), "%", whole(0)), Err(EvalError::DivisionByZero));
    let mut ns = session();
    assert_eq!(value("1 / (2 - 2)", &mut ns), Err(EvalError::DivisionByZero));
    assert_eq!(value("1 % 0", &mut ns), Err(EvalError::DivisionByZero));
}

#[test]
fn comparisons_on_integers() {
    assert_eq!(apply(whole(1), "<", whole(2)), Ok(Value::Boolean(true)));
    assert_eq!(apply(whole(2), "<", whole(2)), Ok(Value::Boolean(false)));
    assert_eq!(apply(whole(1), ">", whole(2)), Ok(Value::Boolean(false)));
    assert_eq!(apply(whole(2), "<=", whole(2)), Ok(Value::Boolean(true)));
    assert_eq!(apply(whole(1), ">=", whole(2)), Ok(Value::Boolean(false)));
    assert_eq!(apply(whole(2), "==", whole(2)), Ok(Value::Boolean(true)));
    assert_eq!(apply(whole(2), "!=", whole(2)), Ok(Value::Boolean(false)));
}

#[test]
fn logic_on_booleans() {
    let t = Value::Boolean(true);
    let f = Value::Boolean(false);
    assert_eq!(apply(t, "&&", f), Ok(f));
    assert_eq!(apply(t, "&&", t), Ok(t));
    assert_eq!(apply(f, "||", t), Ok(t));
    assert_eq!(apply(f, "||", f), Ok(f));
    assert_eq!(apply(t, "==", f), Ok(f));
    assert_eq!(apply(t, "!=", f), Ok(t));
}

#[test]
fn mismatched_operands_are_invalid() {
    let t = Value::Boolean(true);
    assert_eq!(apply(t, "+", whole(1)), Err(EvalError::InvalidOperation(t, "+".to_string(), whole(1))));
    assert_eq!(apply(whole(1), "*", t), Err(EvalError::InvalidOperation(whole(1), "*".to_string(), t)));
    assert_eq!(apply(t, "<", t), Err(EvalError::InvalidOperation(t, "<".to_string(), t)));
    assert_eq!(apply(t, "/", whole(0)), Err(EvalError::InvalidOperation(t, "/".to_string(), whole(0))));
    assert_eq!(apply(whole(1), "&&", whole(2)), Err(EvalError::InvalidOperation(whole(1), "&&".to_string(), whole(2))));
    assert_eq!(apply(whole(1), "**", whole(2)), Err(EvalError::InvalidOperation(whole(1), "**".to_string(), whole(2))));
    assert_eq!(apply(whole(1), "", whole(2)), Err(EvalError::InvalidOperation(whole(1), "".to_string(), whole(2))));
    assert_eq!(
        apply(Value::Unit, "==", Value::Unit),
        Err(EvalError::InvalidOperation(Value::Unit, "==".to_string(), Value::Unit))
    );
    let mut ns = session();
    assert_eq!(
        value("true + 1", &mut ns),
        Err(EvalError::InvalidOperation(t, "+".to_string(), whole(1)))
    );
    assert_eq!(
        value("(0 + 1) * true", &mut ns),
        Err(EvalError::InvalidOperation(whole(1), "*".to_string(), t))
    );
}

#[test]
fn operators_are_read_from_their_symbols() {
    assert_eq!(Operator::from_symbol("+"), Some(Operator::Add));
    assert_eq!(Operator::from_symbol("<="), Some(Operator::Le));
    assert_eq!(Operator::from_symbol("<"), Some(Operator::Lt));
    assert_eq!(Operator::from_symbol("||"), Some(Operator::Or));
    assert_eq!(Operator::from_symbol("=<"), None);
    assert_eq!(Operator::from_symbol("="), None);
    assert_eq!(Operator::from_symbol("+ "), None);
    for op in [
        Operator::Add,
        Operator::Sub,
        Operator::Mul,
        Operator::Div,
        Operator::Mod,
        Operator::Lt,
        Operator::Gt,
        Operator::Le,
        Operator::Ge,
        Operator::Equal,
        Operator::NotEqual,
        Operator::And,
        Operator::Or,
    ] {
        assert_eq!(Operator::from_symbol(&op.symbol()), Some(op));
    }
    assert_eq!(Operator::Mul.precedence(), 3);
    assert_eq!(Operator::Sub.precedence(), 2);
    assert_eq!(Operator::NotEqual.precedence(), 1);
    assert_eq!(Operator::And.precedence(), 0);
}

#[test]
fn expressions_read_the_namespace() {
    let mut ns = VNameSpace::root();
    assert_eq!(ns.add("y".to_string(), whole(10)), Ok(()));
    let e = Expression::BinOp(
        Box::new(Expression::Var("y".to_string())),
        "+".to_string(),
        Box::new(lit(1)),
    );
    assert_eq!(eval_expr(&e, &ns), Ok(whole(11)));
    assert_eq!(
        eval_expr(&Expression::Var("z".to_string()), &ns),
        Err(EvalError::UndefinedVariable("z".to_string()))
    );
    assert_eq!(eval_expr(&lit(3), &ns), Ok(whole(3)));
}

#[test]
fn the_left_operand_fails_first() {
    let ns = VNameSpace::root();
    let e = Expression::BinOp(
        Box::new(Expression::Var("a".to_string())),
        "+".to_string(),
        Box::new(Expression::Var("b".to_string())),
    );
    assert_eq!(eval_expr(&e, &ns), Err(EvalError::UndefinedVariable("a".to_string())));
    let e = Expression::BinOp(
        Box::new(lit(1)),
        "?".to_string(),
        Box::new(Expression::Var("b".to_string())),
    );
    assert_eq!(eval_expr(&e, &ns), Err(EvalError::UndefinedVariable("b".to_string())));
}

#[test]
fn expression_statements_give_their_value() {
    let mut ns = session();
    assert_eq!(line("1+1", &mut ns), (vec![], Ok(whole(2))));
    assert_eq!(value("6 % 3 == 1 - 2 / 2", &mut ns), Ok(Value::Boolean(true)));
    assert_eq!(value("(0 > 1) == true", &mut ns), Ok(Value::Boolean(false)));
    assert_eq!(value("1+2*3", &mut ns), Ok(whole(7)));
    assert_eq!(value("x", &mut ns), Err(EvalError::UndefinedVariable("x".to_string())));
}

#[test]
fn declarations_bind_and_give_the_value() {
    let mut ns = session();
    assert_eq!(value("let x = 1 + 1", &mut ns), Ok(whole(2)));
    assert_eq!(ns.get("x"), Some(whole(2)));
    assert!(!ns.is_mutable("x"));
    assert_eq!(value("let mut y = x * 2", &mut ns), Ok(whole(4)));
    assert_eq!(ns.get("y"), Some(whole(4)));
    assert!(ns.is_mutable("y"));
    assert_eq!(value("let z = w", &mut ns), Err(EvalError::UndefinedVariable("w".to_string())));
    assert_eq!(ns.get("z"), None);
}

#[test]
fn redeclaration_on_one_level_fails() {
    let mut ns = session();
    assert_eq!(value("let x = 1", &mut ns), Ok(whole(1)));
    assert_eq!(value("let x = 2", &mut ns), Err(EvalError::AlreadyDefined("x".to_string())));
    assert_eq!(value("let mut x = 2", &mut ns), Err(EvalError::AlreadyDefined("x".to_string())));
    assert_eq!(value("x", &mut ns), Ok(whole(1)));
}

#[test]
fn mutation_needs_let_mut() {
    let mut ns = session();
    assert_eq!(value("let x = 1", &mut ns), Ok(whole(1)));
    assert_eq!(value("x = 2", &mut ns), Err(EvalError::NotMutable("x".to_string())));
    assert_eq!(value("x", &mut ns), Ok(whole(1)));
    assert_eq!(value("let mut y = 1", &mut ns), Ok(whole(1)));
    assert_eq!(value("y = 2", &mut ns), Ok(whole(2)));
    assert_eq!(value("y", &mut ns), Ok(whole(2)));
    assert_eq!(value("u = 2", &mut ns), Err(EvalError::NotMutable("u".to_string())));
    assert_eq!(value("y = v", &mut ns), Err(EvalError::UndefinedVariable("v".to_string())));
    assert_eq!(value("y", &mut ns), Ok(whole(2)));
}

#[test]
fn conditionals_take_one_branch() {
    let mut ns = session();
    assert_eq!(line("if (true) {1} else {2}", &mut ns), (vec![Ok(whole(1))], Ok(Value::Unit)));
    assert_eq!(line("if (false) {1} else {2}", &mut ns), (vec![Ok(whole(2))], Ok(Value::Unit)));
    assert_eq!(
        line("if true {if false {0} else {1}} else {2}", &mut ns),
        (vec![Ok(whole(1)), Ok(Value::Unit)], Ok(Value::Unit))
    );
    let direct = |cond: bool| Instruction::IfElse {
        cond: Expression::Const(Value::Boolean(cond)),
        cond_true: Box::new(Instruction::Expr(lit(1))),
        cond_false: Box::new(Instruction::Expr(lit(2))),
    };
    assert_eq!(run(&direct(true), &mut ns), (vec![], Ok(whole(1))));
    assert_eq!(run(&direct(false), &mut ns), (vec![], Ok(whole(2))));
}

#[test]
fn the_branch_not_taken_has_no_effect() {
    let mut ns = session();
    assert_eq!(value("let mut x = 0", &mut ns), Ok(whole(0)));
    assert_eq!(
        line("if true {x = 1} else {x = 2}", &mut ns),
        (vec![Ok(whole(1))], Ok(Value::Unit))
    );
    assert_eq!(value("x", &mut ns), Ok(whole(1)));
    let failing = Instruction::IfElse {
        cond: Expression::Const(Value::Boolean(false)),
        cond_true: Box::new(Instruction::Expr(Expression::Var("nowhere".to_string()))),
        cond_false: Box::new(Instruction::Expr(lit(2))),
    };
    assert_eq!(run(&failing, &mut ns), (vec![], Ok(whole(2))));
}

#[test]
fn conditions_must_be_boolean() {
    let mut ns = session();
    assert_eq!(line("if 1 {1} else {2}", &mut ns), (vec![], Err(EvalError::TypeError)));
    assert_eq!(line("while 1 {1}", &mut ns), (vec![], Err(EvalError::TypeError)));
    assert_eq!(line("if nowhere {1} else {2}", &mut ns), (vec![], Err(EvalError::TypeError)));
    assert_eq!(line("while 1 / 0 {1}", &mut ns), (vec![], Err(EvalError::TypeError)));
}

#[test]
fn shadowing_in_a_block() {
    let mut ns = session();
    assert_eq!(value("let x = true", &mut ns), Ok(Value::Boolean(true)));
    assert_eq!(value("let y = 10", &mut ns), Ok(whole(10)));
    let (reports, last) = line("if x {let x = 1; {let x=2;x}; x+y} else {x}", &mut ns);
    assert_eq!(
        reports,
        vec![Ok(whole(1)), Ok(whole(2)), Ok(whole(2)), Ok(Value::Unit), Ok(whole(11))]
    );
    assert_eq!(last, Ok(Value::Unit));
    assert_eq!(value("x", &mut ns), Ok(Value::Boolean(true)));
}

#[test]
fn loops_run_until_the_condition_fails() {
    let mut ns = session();
    assert_eq!(value("let mut acc=1", &mut ns), Ok(whole(1)));
    assert_eq!(value("let mut i=1", &mut ns), Ok(whole(1)));
    assert_eq!(value("let n=6", &mut ns), Ok(whole(6)));
    let (reports, last) = line("while i<=n {acc=acc*i; i=i+1}", &mut ns);
    assert_eq!(last, Ok(Value::Unit));
    assert_eq!(reports.len(), 12);
    assert_eq!(reports[0], Ok(whole(1)));
    assert_eq!(reports[1], Ok(whole(2)));
    assert_eq!(reports[10], Ok(whole(720)));
    assert_eq!(reports[11], Ok(whole(7)));
    assert_eq!(ns.get("acc"), Some(whole(720)));
    assert_eq!(ns.get("i"), Some(whole(7)));
    assert_eq!(line("while false {1}", &mut ns), (vec![], Ok(Value::Unit)));
}

#[test]
fn a_failing_body_ends_its_loop() {
    let mut ns = session();
    let looping = Instruction::While(
        Expression::Const(Value::Boolean(true)),
        Box::new(Instruction::Expr(Expression::Var("nowhere".to_string()))),
    );
    assert_eq!(
        run(&looping, &mut ns),
        (vec![], Err(EvalError::UndefinedVariable("nowhere".to_string())))
    );
}

#[test]
fn a_block_goes_on_after_a_failure() {
    let mut ns = session();
    let (reports, last) = line("{let x = 1; let x = 2; y; x = 3; 1/0; x}", &mut ns);
    assert_eq!(
        reports,
        vec![
            Ok(whole(1)),
            Err(EvalError::AlreadyDefined("x".to_string())),
            Err(EvalError::UndefinedVariable("y".to_string())),
            Err(EvalError::NotMutable("x".to_string())),
            Err(EvalError::DivisionByZero),
            Ok(whole(1)),
        ]
    );
    assert_eq!(last, Ok(Value::Unit));
    assert_eq!(ns.get("x"), None);
    assert_eq!(line("{}", &mut ns), (vec![], Ok(Value::Unit)));
}

#[test]
fn a_block_cannot_leave_the_root() {
    let mut ns = VNameSpace::root();
    let block = Instruction::Block(vec![Instruction::Expr(lit(1))]);
    let mut machine = Machine::start(&block);
    machine = match machine.step(&mut ns) {
        Progress::Running(next) => next,
        other => panic!("unexpected {:?}", other),
    };
    machine = match machine.step(&mut ns) {
        Progress::Running(next) => next,
        other => panic!("unexpected {:?}", other),
    };
    assert_eq!(ns.exit_block(), Ok(()));
    let mut reports = Vec::new();
    let last = loop {
        match machine.step(&mut ns) {
            Progress::Running(next) => machine = next,
            Progress::Reported(next, r) => {
                reports.push(r);
                machine = next;
            }
            Progress::Finished(r) => break r,
        }
    };
    assert_eq!(reports, vec![Ok(whole(1))]);
    assert_eq!(last, Err(EvalError::CannotExitRoot));
}

#[test]
fn an_endless_loop_keeps_reporting() {
    let mut ns = session();
    let instruction = parse("while true {1}".to_string()).unwrap();
    let mut machine = Machine::start(&instruction);
    let mut reports = 0;
    for _ in 0..1000 {
        match machine.step(&mut ns) {
            Progress::Running(next) => machine = next,
            Progress::Reported(next, r) => {
                assert_eq!(r, Ok(whole(1)));
                reports += 1;
                machine = next;
            }
            Progress::Finished(r) => panic!("ended with {:?}", r),
        }
    }
    assert_eq!(reports, 200);
}

#[test]
fn namespace_errors_take_the_name() {
    let name = || "x".to_string();
    assert_eq!(
        EvalError::from_namespace(NamespaceError::AlreadyDefined, name()),
        EvalError::AlreadyDefined(name())
    );
    assert_eq!(
        EvalError::from_namespace(NamespaceError::NotMutable, name()),
        EvalError::NotMutable(name())
    );
    assert_eq!(
        EvalError::from_namespace(NamespaceError::NotDefined, name()),
        EvalError::NotDefined(name())
    );
    assert_eq!(
        EvalError::from_namespace(NamespaceError::CannotExitRoot, name()),
        EvalError::CannotExitRoot
    );
}

#[test]
fn eval_steps_to_the_end() {
    let mut ns = session();
    let instruction =
        parse("{let mut i = 0; while i < 3 {i = i + 1}; i}".to_string()).unwrap();
    let mut reports = vec![Ok(Value::Boolean(true))];
    assert_eq!(eval(&instruction, &mut ns, 1000, &mut reports), Some(Ok(Value::Unit)));
    assert_eq!(
        reports,
        vec![
            Ok(Value::Boolean(true)),
            Ok(whole(0)),
            Ok(whole(1)),
            Ok(whole(2)),
            Ok(whole(3)),
            Ok(Value::Unit),
            Ok(whole(3)),
        ]
    );
    assert_eq!(ns.get("i"), None);
    let mut none = Vec::new();
    let simple = parse("let z = 4 * 5".to_string()).unwrap();
    assert_eq!(eval(&simple, &mut ns, 2, &mut none), Some(Ok(whole(20))));
    assert_eq!(none, vec![]);
    assert_eq!(ns.get("z"), Some(whole(20)));
}

#[test]
fn eval_stops_when_the_budget_is_spent() {
    let mut ns = session();
    assert_eq!(value("let mut i = 0", &mut ns), Ok(whole(0)));
    let endless = parse("while true {i = i + 1}".to_string()).unwrap();
    let mut reports = Vec::new();
    assert_eq!(eval(&endless, &mut ns, 50, &mut reports), None);
    assert_eq!(reports.len(), 10);
    assert_eq!(reports[9], Ok(whole(10)));
    assert_eq!(ns.get("i"), Some(whole(10)));
    let simple = parse("1".to_string()).unwrap();
    let mut none = Vec::new();
    assert_eq!(eval(&simple, &mut ns, 0, &mut none), None);
    assert_eq!(eval(&simple, &mut ns, 1, &mut none), None);
    assert_eq!(eval(&simple, &mut ns, 2, &mut none), Some(Ok(whole(1))));
}
