use imp::ast::{Expression, Instruction, Value};
use imp::error::ParseError;
use imp::lexer::{tokenize, Token};
use imp::operator::Operator;
use imp::parser::{parse, parse_tokens, MyParser};

fn num(n: i32) -> Expression {
    Expression::Const(Value::Integer(n))
}

fn truth(b: bool) -> Expression {
    Expression::Const(Value::Boolean(b))
}

fn var(name: &str) -> Expression {
    Expression::Var(name.to_string())
}

fn bin(left: Expression, op: &str, right: Expression) -> Expression {
    Expression::BinOp(Box::new(left), op.to_string(), Box::new(right))
}

fn stmt(e: Expression) -> Instruction {
    Instruction::Expr(e)
}

fn parsed(text: &str) -> Instruction {
    parse(text.to_string()).expect(&format!("{} not parsed", text))
}

#[test]
fn test() {
    let mut examples: Vec<&str> = vec![];
    examples.push("1+1");
    examples.push("6 % 3 == 1 - 2 / 2");
    examples.push("(0 + 1) * true");
    examples.push("(0 > 1) == true");
    examples.push("true + 1");
    examples.push("if (true) {1} else {2}");
    examples.push("if true {if false {0} else {1}} else {2}");
    examples.push("let x = true");
    examples.push("let x = false");
    examples.push("x");
    examples.push("let y = 10");
    examples.push("if x {let x = 1; {let x=2;x}; x+y} else {x}");
    examples.push("let n = 6");
    examples.push("let mut acc = 1");
    examples.push("let mut i = 1");
    examples.push("i = 2");
    examples.push("while i <= n {acc = acc * i; i = i+1}");

    for s in examples {
        let instr = parse(s.to_string()).expect(&format!("{} not parsed", s));
        println!("{}\n{:?}\n\n", s, instr)
    }
}

#[test]
fn product_binds_tighter_than_sum() {
    assert_eq!(parsed("1+2*3"), stmt(bin(num(1), "+", bin(num(2), "*", num(3)))));
    assert_ne!(parsed("1+2*3"), stmt(bin(bin(num(1), "+", num(2)), "*", num(3))));
    assert_eq!(parsed("1*2+3"), stmt(bin(bin(num(1), "*", num(2)), "+", num(3))));
}

#[test]
fn comparison_binds_loosest() {
    let left = bin(num(6), "%", num(3));
    let right = bin(num(1), "-", bin(num(2), "/", num(2)));
    assert_eq!(parsed("6 % 3 == 1 - 2 / 2"), stmt(bin(left, "==", right)));
}

#[test]
fn operators_associate_to_the_left() {
    assert_eq!(parsed("1-2-3"), stmt(bin(bin(num(1), "-", num(2)), "-", num(3))));
    assert_eq!(parsed("8/4/2"), stmt(bin(bin(num(8), "/", num(4)), "/", num(2))));
    assert_eq!(parsed("1<2==true"), stmt(bin(bin(num(1), "<", num(2)), "==", truth(true))));
    assert_eq!(parsed("a != b"), stmt(bin(var("a"), "!=", var("b"))));
    assert_eq!(parsed("a >= b"), stmt(bin(var("a"), ">=", var("b"))));
    assert_eq!(parsed("a <= b"), stmt(bin(var("a"), "<=", var("b"))));
    assert_eq!(parsed("a > b"), stmt(bin(var("a"), ">", var("b"))));
}

#[test]
fn parentheses_group() {
    assert_eq!(parsed("(1+2)*3"), stmt(bin(bin(num(1), "+", num(2)), "*", num(3))));
    assert_eq!(parsed("((x))"), stmt(var("x")));
    assert_eq!(parsed("1-(2-3)"), stmt(bin(num(1), "-", bin(num(2), "-", num(3)))));
}

#[test]
fn statements_parse_to_their_trees() {
    assert_eq!(parsed("let x = 1"), Instruction::Let("x".to_string(), num(1)));
    assert_eq!(parsed("let mut acc = 1"), Instruction::LetMut("acc".to_string(), num(1)));
    assert_eq!(parsed("i = i+1"), Instruction::Mutate("i".to_string(), bin(var("i"), "+", num(1))));
    assert_eq!(parsed("i == 2"), stmt(bin(var("i"), "==", num(2))));
    assert_eq!(parsed("letter"), stmt(var("letter")));
    assert_eq!(parsed("_x1"), stmt(var("_x1")));
    assert_eq!(parsed("true"), stmt(truth(true)));
    assert_eq!(parsed("false"), stmt(truth(false)));
    assert_eq!(parsed("2147483647"), stmt(num(2147483647)));
    assert_eq!(parsed("007"), stmt(num(7)));
}

#[test]
fn conditional_and_loop_bodies_are_blocks() {
    assert_eq!(
        parsed("if (true) {1} else {2}"),
        Instruction::IfElse {
            cond: truth(true),
            cond_true: Box::new(Instruction::Block(vec![stmt(num(1))])),
            cond_false: Box::new(Instruction::Block(vec![stmt(num(2))])),
        }
    );
    assert_eq!(
        parsed("while i <= n {acc = acc * i; i = i+1}"),
        Instruction::While(
            bin(var("i"), "<=", var("n")),
            Box::new(Instruction::Block(vec![
                Instruction::Mutate("acc".to_string(), bin(var("acc"), "*", var("i"))),
                Instruction::Mutate("i".to_string(), bin(var("i"), "+", num(1))),
            ])),
        )
    );
}

#[test]
fn blocks_hold_separated_statements() {
    assert_eq!(parsed("{}"), Instruction::Block(vec![]));
    assert_eq!(parsed("{ }"), Instruction::Block(vec![]));
    assert_eq!(parsed("{1}"), Instruction::Block(vec![stmt(num(1))]));
    assert_eq!(parsed("{1;2}"), Instruction::Block(vec![stmt(num(1)), stmt(num(2))]));
    assert_eq!(parsed("{1\n2}"), Instruction::Block(vec![stmt(num(1)), stmt(num(2))]));
    assert_eq!(parsed("{\n  1;\n  2;\n}"), Instruction::Block(vec![stmt(num(1)), stmt(num(2))]));
    assert_eq!(
        parsed("{let x=2;x}"),
        Instruction::Block(vec![Instruction::Let("x".to_string(), num(2)), stmt(var("x"))])
    );
    assert_eq!(
        parsed("{{};{}}"),
        Instruction::Block(vec![Instruction::Block(vec![]), Instruction::Block(vec![])])
    );
}

#[test]
fn separators_may_surround_a_line() {
    assert_eq!(parsed("let x = 1;"), Instruction::Let("x".to_string(), num(1)));
    assert_eq!(parsed("\n1\n"), stmt(num(1)));
    assert_eq!(parsed(" \t 1 \r"), stmt(num(1)));
}

#[test]
fn parser_type_and_function_agree() {
    assert_eq!(MyParser::parse("1+1"), parse("1+1".to_string()));
    assert_eq!(MyParser::parse("1+"), parse("1+".to_string()));
}

#[test]
fn unknown_characters_are_refused() {
    assert_eq!(parse("1 & 2".to_string()), Err(ParseError::UnexpectedCharacter { offset: 2 }));
    assert_eq!(parse("a && b".to_string()), Err(ParseError::UnexpectedCharacter { offset: 2 }));
    assert_eq!(parse("a || b".to_string()), Err(ParseError::UnexpectedCharacter { offset: 2 }));
    assert_eq!(parse("!x".to_string()), Err(ParseError::UnexpectedCharacter { offset: 0 }));
    assert_eq!(parse("x # y".to_string()), Err(ParseError::UnexpectedCharacter { offset: 2 }));
    assert_eq!(parse("\u{e9}".to_string()), Err(ParseError::UnexpectedCharacter { offset: 0 }));
}

#[test]
fn literals_beyond_32_bits_are_refused() {
    assert_eq!(parse("2147483648".to_string()), Err(ParseError::IntegerTooLarge { offset: 0 }));
    assert_eq!(
        parse("x = 99999999999999999999999".to_string()),
        Err(ParseError::IntegerTooLarge { offset: 4 })
    );
}

#[test]
fn misplaced_tokens_are_refused() {
    assert_eq!(parse("1 2".to_string()), Err(ParseError::UnexpectedToken { offset: 2 }));
    assert_eq!(parse(")".to_string()), Err(ParseError::UnexpectedToken { offset: 0 }));
    assert_eq!(parse("1 + * 2".to_string()), Err(ParseError::UnexpectedToken { offset: 4 }));
    assert_eq!(parse("let 1 = 2".to_string()), Err(ParseError::UnexpectedToken { offset: 4 }));
    assert_eq!(parse("let mut = 2".to_string()), Err(ParseError::UnexpectedToken { offset: 8 }));
    assert_eq!(parse("let x 2".to_string()), Err(ParseError::UnexpectedToken { offset: 6 }));
    assert_eq!(parse("if x {1}; else {2}".to_string()), Err(ParseError::UnexpectedToken { offset: 8 }));
    assert_eq!(parse("{1 2}".to_string()), Err(ParseError::UnexpectedToken { offset: 3 }));
    assert_eq!(parse("{1}}".to_string()), Err(ParseError::UnexpectedToken { offset: 3 }));
    assert_eq!(parse("while {1}".to_string()), Err(ParseError::UnexpectedToken { offset: 6 }));
    assert_eq!(parse("1; 2".to_string()), Err(ParseError::UnexpectedToken { offset: 3 }));
}

#[test]
fn unfinished_texts_are_refused() {
    assert_eq!(parse("".to_string()), Err(ParseError::UnexpectedEnd));
    assert_eq!(parse("   ".to_string()), Err(ParseError::UnexpectedEnd));
    assert_eq!(parse("1 +".to_string()), Err(ParseError::UnexpectedEnd));
    assert_eq!(parse("(1 + 2".to_string()), Err(ParseError::UnexpectedEnd));
    assert_eq!(parse("{1; 2".to_string()), Err(ParseError::UnexpectedEnd));
    assert_eq!(parse("{".to_string()), Err(ParseError::UnexpectedEnd));
    assert_eq!(parse("if x {1}".to_string()), Err(ParseError::UnexpectedEnd));
    assert_eq!(parse("if x {1} else".to_string()), Err(ParseError::UnexpectedEnd));
    assert_eq!(parse("let x =".to_string()), Err(ParseError::UnexpectedEnd));
    assert_eq!(parse("let".to_string()), Err(ParseError::UnexpectedEnd));
}

#[test]
fn tokens_carry_their_offsets() {
    let lexed = tokenize("let mut x1 = 10 <= y;\n{ }").unwrap();
    assert_eq!(
        lexed.tokens,
        vec![
            Token::Let,
            Token::Mut,
            Token::Identifier("x1".to_string()),
            Token::Assign,
            Token::Integer(10),
            Token::Infix(Operator::Le),
            Token::Identifier("y".to_string()),
            Token::Separator,
            Token::Separator,
            Token::BlockOpen,
            Token::BlockClose,
        ]
    );
    assert_eq!(lexed.offsets, vec![0, 4, 8, 11, 13, 16, 19, 20, 21, 22, 24]);
}

#[test]
fn every_symbol_is_a_token() {
    let lexed = tokenize("+-*/%<><=>===!=()=if else while true false").unwrap();
    assert_eq!(
        lexed.tokens,
        vec![
            Token::Infix(Operator::Add),
            Token::Infix(Operator::Sub),
            Token::Infix(Operator::Mul),
            Token::Infix(Operator::Div),
            Token::Infix(Operator::Mod),
            Token::Infix(Operator::Lt),
            Token::Infix(Operator::Gt),
            Token::Infix(Operator::Le),
            Token::Infix(Operator::Ge),
            Token::Infix(Operator::Equal),
            Token::Infix(Operator::NotEqual),
            Token::Open,
            Token::Close,
            Token::Assign,
            Token::If,
            Token::Else,
            Token::While,
            Token::True,
            Token::False,
        ]
    );
}

#[test]
fn tokens_parse_without_a_text() {
    let tokens = vec![Token::Integer(1), Token::Infix(Operator::Add), Token::Integer(2)];
    assert_eq!(parse_tokens(&tokens), Ok(stmt(bin(num(1), "+", num(2)))));
    let logical = vec![Token::True, Token::Infix(Operator::And), Token::False];
    assert_eq!(parse_tokens(&logical), Err(1));
    assert_eq!(parse_tokens(&vec![Token::Open, Token::Integer(1)]), Err(2));
    assert!(Token::Identifier("a".to_string()).same(&Token::Identifier("a".to_string())));
    assert!(!Token::Identifier("a".to_string()).same(&Token::Identifier("b".to_string())));
    assert!(!Token::Integer(1).same(&Token::Integer(2)));
    assert!(!Token::Open.same(&Token::Close));
}
