use imp::ast::{Expression, Instruction, Value};
use imp::lexer::{tokenize, Token};
use imp::operator::Operator;
use imp::parser::parse;
use pest::iterators::{Pair, Pairs, PairsBuilder};
use pest::pratt_parser::{Assoc, Op, PrattParser};

#[derive(Clone, Copy, Debug, Eq, Hash, Ord, PartialEq, PartialOrd)]
enum Rule {
    Operand,
    Group,
    Equal,
    NotEqual,
    Le,
    Ge,
    Lt,
    Gt,
    Add,
    Sub,
    Mul,
    Div,
    Mod,
}

const OPERATORS: [Operator; 11] = [
    Operator::Equal,
    Operator::NotEqual,
    Operator::Le,
    Operator::Ge,
    Operator::Lt,
    Operator::Gt,
    Operator::Add,
    Operator::Sub,
    Operator::Mul,
    Operator::Div,
    Operator::Mod,
];

fn rule_of(op: Operator) -> Rule {
    match op {
        Operator::Equal => Rule::Equal,
        Operator::NotEqual => Rule::NotEqual,
        Operator::Le => Rule::Le,
        Operator::Ge => Rule::Ge,
        Operator::Lt => Rule::Lt,
        Operator::Gt => Rule::Gt,
        Operator::Add => Rule::Add,
        Operator::Sub => Rule::Sub,
        Operator::Mul => Rule::Mul,
        Operator::Div => Rule::Div,
        Operator::Mod => Rule::Mod,
        other => panic!("{:?} is not of the grammar", other),
    }
}

/// The three tiers, the loosest first, each associating to the left.
fn tiers() -> PrattParser<Rule> {
    PrattParser::new()
        .op(Op::infix(Rule::Equal, Assoc::Left)
            | Op::infix(Rule::NotEqual, Assoc::Left)
            | Op::infix(Rule::Le, Assoc::Left)
            | Op::infix(Rule::Ge, Assoc::Left)
            | Op::infix(Rule::Lt, Assoc::Left)
            | Op::infix(Rule::Gt, Assoc::Left))
        .op(Op::infix(Rule::Add, Assoc::Left) | Op::infix(Rule::Sub, Assoc::Left))
        .op(Op::infix(Rule::Mul, Assoc::Left)
            | Op::infix(Rule::Div, Assoc::Left)
            | Op::infix(Rule::Mod, Assoc::Left))
}

fn operand(text: &str) -> Expression {
    match text {
        "true" => Expression::Const(Value::Boolean(true)),
        "false" => Expression::Const(Value::Boolean(false)),
        _ => match text.parse::<i32>() {
            Ok(n) => Expression::Const(Value::Integer(n)),
            Err(_) => Expression::Var(text.to_string()),
        },
    }
}

/// Folds pairs of operands and operators with the Pratt parser.
fn fold(table: &PrattParser<Rule>, pairs: Pairs<Rule>) -> Expression {
    table
        .map_primary(|p: Pair<Rule>| match p.as_rule() {
            Rule::Group => fold(table, p.into_inner()),
            _ => operand(p.as_str()),
        })
        .map_infix(|l, op, r| {
            Expression::BinOp(Box::new(l), op.as_str().to_string(), Box::new(r))
        })
        .parse(pairs)
}

fn width(token: &Token) -> usize {
    match token {
        Token::Integer(n) => n.to_string().len(),
        Token::Identifier(name) => name.len(),
        Token::True => 4,
        Token::False => 5,
        Token::Infix(op) => op.symbol().len(),
        other => panic!("{:?} is not of an expression", other),
    }
}

/// The index of the parenthesis that closes the one at `open`.
fn closing(tokens: &[Token], open: usize) -> usize {
    let mut depth = 0;
    for (i, token) in tokens.iter().enumerate().skip(open) {
        match token {
            Token::Open => depth += 1,
            Token::Close => {
                depth -= 1;
                if depth == 0 {
                    return i;
                }
            }
            _ => {}
        }
    }
    panic!("no closing parenthesis");
}

/// Pairs for the tokens of an expression: a leaf for each operand and each
/// operator, and a group around what stands in parentheses.
fn pairs_of<'i>(
    mut builder: PairsBuilder<'i, Rule>,
    tokens: &[Token],
    offsets: &[usize],
) -> PairsBuilder<'i, Rule> {
    let mut at = 0;
    while at < tokens.len() {
        let start = offsets[at];
        match &tokens[at] {
            Token::Open => {
                let close = closing(tokens, at);
                let inside = &tokens[at + 1..close];
                let places = &offsets[at + 1..close];
                builder = builder.rule_with(Rule::Group, start, offsets[close] + 1, |inner| {
                    pairs_of(inner, inside, places)
                });
                at = close + 1;
            }
            Token::Infix(op) => {
                builder = builder.rule(rule_of(*op), start, start + width(&tokens[at]));
                at += 1;
            }
            token => {
                builder = builder.rule(Rule::Operand, start, start + width(token));
                at += 1;
            }
        }
    }
    builder
}

/// The expression that the Pratt parser makes of a text.
fn folded(text: &str) -> Expression {
    let lexed = tokenize(text).unwrap();
    let pairs = pairs_of(PairsBuilder::new(text), &lexed.tokens, &lexed.offsets).build();
    fold(&tiers(), pairs)
}

fn agrees(text: &str) {
    assert_eq!(parse(text.to_string()), Ok(Instruction::Expr(folded(text))), "{}", text);
}

#[test]
fn three_operators_fold_as_the_pratt_parser_folds_them() {
    let mut count = 0;
    for first in OPERATORS {
        for second in OPERATORS {
            for third in OPERATORS {
                let text = format!(
                    "a {} 2 {} c {} true",
                    first.symbol(),
                    second.symbol(),
                    third.symbol()
                );
                agrees(&text);
                count += 1;
            }
        }
    }
    assert_eq!(count, 1331);
}

#[test]
fn parentheses_fold_as_the_pratt_parser_folds_them() {
    for text in [
        "1",
        "x",
        "(x)",
        "((x))",
        "1+2*3",
        "(1+2)*3",
        "1-(2-3)",
        "a*(b+c)*d",
        "(a<b)==(c<d)",
        "6 % 3 == 1 - 2 / 2",
        "(0 + 1) * true",
        "(0 > 1) == true",
        "a - (b - (c - (d - e))) - f",
        "((a + b) * (c - d)) % (e / f) != g",
    ] {
        agrees(text);
    }
}

#[test]
fn the_pratt_parser_folds_to_the_expected_trees() {
    let var = |name: &str| Expression::Var(name.to_string());
    let bin = |l: Expression, op: &str, r: Expression| {
        Expression::BinOp(Box::new(l), op.to_string(), Box::new(r))
    };
    assert_eq!(folded("a+b*c"), bin(var("a"), "+", bin(var("b"), "*", var("c"))));
    assert_eq!(folded("a-b-c"), bin(bin(var("a"), "-", var("b")), "-", var("c")));
    assert_eq!(folded("a==b+c"), bin(var("a"), "==", bin(var("b"), "+", var("c"))));
}
