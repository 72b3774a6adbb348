//! From tokens to instructions.
//!
//! The grammar, with `sep` for a separator (`;` or a line break):
//!
//! ```text
//! line        = sep* instruction sep*
//! instruction = "let" "mut" name "=" expression
//!             | "let" name "=" expression
//!             | "if" expression block "else" block
//!             | "while" expression block
//!             | block
//!             | name "=" expression
//!             | expression
//! block       = "{" sep* [ instruction { sep+ instruction } sep* ] "}"
//! expression  = sum { ("<" | ">" | "<=" | ">=" | "==" | "!=") sum }
//! sum         = product { ("+" | "-") product }
//! product     = atom { ("*" | "/" | "%") atom }
//! atom        = integer | "true" | "false" | name | "(" expression ")"
//! ```
//!
//! Operators of one tier associate to the left.

use vstd::prelude::*;
use crate::ast::{ExprModel, Expression, InstrModel, Instruction, Value, lemma_block_model, models};
use crate::error::ParseError;
use crate::lexer::{Lexeme, Token, TokenModel, lexemes, token_models, tokenize, tokens_of};

verus! {

/// What was read at a position and the number of tokens it takes, or the
/// position at which reading stopped.
pub type Parsed<T> = Result<(T, nat), int>;

/// The token at `pos`, if there is one.
pub open spec fn token(ts: Seq<TokenModel>, pos: int) -> Option<TokenModel> {
    if 0 <= pos < ts.len() {
        Some(ts[pos])
    } else {
        None
    }
}

/// The number of tokens from `pos` on.
pub open spec fn remaining(ts: Seq<TokenModel>, pos: int) -> nat {
    if pos <= ts.len() {
        (ts.len() - pos) as nat
    } else {
        0
    }
}

/// `p`, read after `taken` tokens of the same construct.
pub open spec fn after<T>(taken: nat, p: Parsed<T>) -> Parsed<T> {
    match p {
        Ok((v, n)) => Ok((v, taken + n)),
        Err(at) => Err(at),
    }
}

/// The atom at `pos`.
pub open spec fn atom(ts: Seq<TokenModel>, pos: int) -> Parsed<ExprModel>
    decreases remaining(ts, pos), 0nat,
{
    match token(ts, pos) {
        Some(TokenModel::Integer(n)) => Ok((ExprModel::Const(Value::Integer(n)), 1)),
        Some(TokenModel::True) => Ok((ExprModel::Const(Value::Boolean(true)), 1)),
        Some(TokenModel::False) => Ok((ExprModel::Const(Value::Boolean(false)), 1)),
        Some(TokenModel::Identifier(name)) => Ok((ExprModel::Var(name), 1)),
        Some(TokenModel::Open) => match operand(ts, pos + 1, 1) {
            Err(at) => Err(at),
            Ok((e, n)) => if token(ts, pos + 1 + n) == Some(TokenModel::Close) {
                Ok((e, n + 2))
            } else {
                Err(pos + 1 + n)
            },
        },
        _ => Err(pos),
    }
}

/// The longest expression at `pos` whose operators outside parentheses are
/// all of tier `tier` or above. Above the third tier it is an atom.
pub open spec fn operand(ts: Seq<TokenModel>, pos: int, tier: nat) -> Parsed<ExprModel>
    decreases remaining(ts, pos), if tier <= 3 { 10 - 2 * tier } else { 2 },
{
    if tier > 3 {
        atom(ts, pos)
    } else {
        match operand(ts, pos, tier + 1) {
            Err(at) => Err(at),
            Ok((left, n)) => after(n, chain(ts, pos + n, tier, left)),
        }
    }
}

/// `left`, joined from the left with the operators of tier `tier` at `pos`
/// and their right operands, as long as such an operator follows.
pub open spec fn chain(ts: Seq<TokenModel>, pos: int, tier: nat, left: ExprModel) -> Parsed<
    ExprModel,
>
    decreases remaining(ts, pos), if tier <= 3 { 9 - 2 * tier } else { 1 },
{
    match token(ts, pos) {
        Some(TokenModel::Infix(op)) => if op.tier() == tier && tier <= 3 {
            match operand(ts, pos + 1, tier + 1) {
                Err(at) => Err(at),
                Ok((right, n)) => after(
                    1 + n,
                    chain(
                        ts,
                        pos + 1 + n,
                        tier,
                        ExprModel::BinOp(Box::new(left), op.text(), Box::new(right)),
                    ),
                ),
            }
        } else {
            Ok((left, 0))
        },
        _ => Ok((left, 0)),
    }
}

/// The expression at `pos`.
pub open spec fn expression(ts: Seq<TokenModel>, pos: int) -> Parsed<ExprModel> {
    operand(ts, pos, 1)
}

/// The number of separators at `pos`.
pub open spec fn separators(ts: Seq<TokenModel>, pos: int) -> nat
    decreases remaining(ts, pos),
{
    if token(ts, pos) == Some(TokenModel::Separator) {
        1 + separators(ts, pos + 1)
    } else {
        0
    }
}

/// What follows `let` or `let mut`: a name at `pos`, `=`, and an expression.
pub open spec fn binding(ts: Seq<TokenModel>, pos: int, mutable: bool) -> Parsed<InstrModel> {
    match token(ts, pos) {
        Some(TokenModel::Identifier(name)) => if token(ts, pos + 1) == Some(TokenModel::Assign) {
            match expression(ts, pos + 2) {
                Err(at) => Err(at),
                Ok((e, n)) => Ok(
                    (
                        if mutable {
                            InstrModel::LetMut(name, e)
                        } else {
                            InstrModel::Let(name, e)
                        },
                        2 + n,
                    ),
                ),
            }
        } else {
            Err(pos + 1)
        },
        _ => Err(pos),
    }
}

/// The instruction at `pos`.
pub open spec fn instruction(ts: Seq<TokenModel>, pos: int) -> Parsed<InstrModel>
    decreases remaining(ts, pos), 2nat,
{
    match token(ts, pos) {
        Some(TokenModel::Let) => if token(ts, pos + 1) == Some(TokenModel::Mut) {
            after(2, binding(ts, pos + 2, true))
        } else {
            after(1, binding(ts, pos + 1, false))
        },
        Some(TokenModel::If) => match expression(ts, pos + 1) {
            Err(at) => Err(at),
            Ok((cond, n)) => match block(ts, pos + 1 + n) {
                Err(at) => Err(at),
                Ok((yes, m)) => if token(ts, pos + 1 + n + m) == Some(TokenModel::Else) {
                    match block(ts, pos + 2 + n + m) {
                        Err(at) => Err(at),
                        Ok((no, k)) => Ok(
                            (
                                InstrModel::IfElse {
                                    cond,
                                    cond_true: Box::new(InstrModel::Block(yes)),
                                    cond_false: Box::new(InstrModel::Block(no)),
                                },
                                2 + n + m + k,
                            ),
                        ),
                    }
                } else {
                    Err(pos + 1 + n + m)
                },
            },
        },
        Some(TokenModel::While) => match expression(ts, pos + 1) {
            Err(at) => Err(at),
            Ok((cond, n)) => match block(ts, pos + 1 + n) {
                Err(at) => Err(at),
                Ok((body, m)) => Ok(
                    (InstrModel::While(cond, Box::new(InstrModel::Block(body))), 1 + n + m),
                ),
            },
        },
        Some(TokenModel::BlockOpen) => match block(ts, pos) {
            Err(at) => Err(at),
            Ok((stmts, n)) => Ok((InstrModel::Block(stmts), n)),
        },
        Some(TokenModel::Identifier(name)) => if token(ts, pos + 1) == Some(TokenModel::Assign) {
            match expression(ts, pos + 2) {
                Err(at) => Err(at),
                Ok((e, n)) => Ok((InstrModel::Mutate(name, e), 2 + n)),
            }
        } else {
            match expression(ts, pos) {
                Err(at) => Err(at),
                Ok((e, n)) => Ok((InstrModel::Expr(e), n)),
            }
        },
        _ => match expression(ts, pos) {
            Err(at) => Err(at),
            Ok((e, n)) => Ok((InstrModel::Expr(e), n)),
        },
    }
}

/// The statements of the block that opens at `pos`.
pub open spec fn block(ts: Seq<TokenModel>, pos: int) -> Parsed<Seq<InstrModel>>
    decreases remaining(ts, pos), 1nat,
{
    if token(ts, pos) == Some(TokenModel::BlockOpen) {
        let skipped = separators(ts, pos + 1);
        after(1 + skipped, statements(ts, pos + 1 + skipped))
    } else {
        Err(pos)
    }
}

/// The statements from `pos` to the brace that closes their block, which
/// counts among the tokens taken. Separators part two statements, and may
/// stand before the brace.
pub open spec fn statements(ts: Seq<TokenModel>, pos: int) -> Parsed<Seq<InstrModel>>
    decreases remaining(ts, pos), 3nat,
{
    if token(ts, pos) is None {
        Err(pos)
    } else if token(ts, pos) == Some(TokenModel::BlockClose) {
        Ok((Seq::empty(), 1))
    } else {
        match instruction(ts, pos) {
            Err(at) => Err(at),
            Ok((first, n)) => if token(ts, pos + n) == Some(TokenModel::BlockClose) {
                Ok((seq![first], n + 1))
            } else if token(ts, pos + n) == Some(TokenModel::Separator) {
                let skipped = separators(ts, pos + n + 1);
                match statements(ts, pos + n + 1 + skipped) {
                    Err(at) => Err(at),
                    Ok((rest, m)) => Ok((seq![first] + rest, n + 1 + skipped + m)),
                }
            } else {
                Err(pos + n)
            },
        }
    }
}

/// The instruction that the tokens make up, between separators.
pub open spec fn line(ts: Seq<TokenModel>) -> Result<InstrModel, int> {
    let start = separators(ts, 0) as int;
    match instruction(ts, start) {
        Err(at) => Err(at),
        Ok((i, n)) => {
            let end = start + n + separators(ts, start + n);
            if end == ts.len() {
                Ok(i)
            } else {
                Err(end)
            }
        },
    }
}

/// The error for tokens that stop making sense at token `at`.
pub open spec fn syntax_error(lexemes: Seq<Lexeme>, at: int) -> ParseError {
    if 0 <= at < lexemes.len() {
        ParseError::UnexpectedToken { offset: lexemes[at].1 as usize }
    } else {
        ParseError::UnexpectedEnd
    }
}

/// The instruction that a text denotes.
pub open spec fn parse_of(text: Seq<char>) -> Result<InstrModel, ParseError> {
    match lexemes(text) {
        Err(e) => Err(e),
        Ok(found) => match line(tokens_of(found)) {
            Ok(i) => Ok(i),
            Err(at) => Err(syntax_error(found, at)),
        },
    }
}

/// Whether what was read at `pos` is what the grammar gives, and ends
/// within `len` tokens.
pub open spec fn expr_agrees(
    r: Result<(Expression, usize), usize>,
    expected: Parsed<ExprModel>,
    pos: usize,
    len: nat,
) -> bool {
    match r {
        Ok((e, next)) => pos <= next <= len && expected == Ok::<_, int>(
            (e@, (next - pos) as nat),
        ),
        Err(at) => at <= len && expected == Err::<(ExprModel, nat), _>(at as int),
    }
}

/// The same for an instruction.
pub open spec fn instr_agrees(
    r: Result<(Instruction, usize), usize>,
    expected: Parsed<InstrModel>,
    pos: usize,
    len: nat,
) -> bool {
    match r {
        Ok((i, next)) => pos <= next <= len && expected == Ok::<_, int>(
            (i@, (next - pos) as nat),
        ),
        Err(at) => at <= len && expected == Err::<(InstrModel, nat), _>(at as int),
    }
}

/// The same for the statements of a block, read after the statements `before`.
pub open spec fn block_agrees(
    r: Result<(Vec<Instruction>, usize), usize>,
    before: Seq<InstrModel>,
    expected: Parsed<Seq<InstrModel>>,
    pos: usize,
    len: nat,
) -> bool {
    match r {
        Ok((stmts, next)) => pos <= next <= len && expected is Ok && expected->Ok_0.1 == next
            - pos && models(stmts@) == before + expected->Ok_0.0,
        Err(at) => at <= len && expected == Err::<(Seq<InstrModel>, nat), _>(at as int),
    }
}

/// Whether the token at `pos` is `want`.
fn found(ts: &Vec<Token>, pos: usize, want: &Token) -> (r: bool)
    ensures
        r == (token(token_models(ts@), pos as int) == Some(want@)),
{
    pos < ts.len() && ts[pos].same(want)
}

/// The position after the separators at `pos`.
fn skip_separators(ts: &Vec<Token>, pos: usize) -> (next: usize)
    requires
        pos <= ts@.len(),
    ensures
        next == pos + separators(token_models(ts@), pos as int),
        next <= ts@.len(),
{
    let len: usize = ts.len();
    let mut next: usize = pos;
    while next < len && ts[next].same(&Token::Separator)
        invariant
            len == ts@.len(),
            pos <= next <= ts@.len(),
            pos + separators(token_models(ts@), pos as int) == next + separators(
                token_models(ts@),
                next as int,
            ),
        decreases ts@.len() - next,
    {
        next = next + 1;
    }
    next
}

/// Reads the atom at `pos`.
fn parse_atom(ts: &Vec<Token>, pos: usize) -> (r: Result<(Expression, usize), usize>)
    requires
        pos <= ts@.len(),
    ensures
        expr_agrees(r, atom(token_models(ts@), pos as int), pos, ts@.len()),
    decreases ts@.len() - pos, 0nat,
{
    if pos >= ts.len() {
        return Err(pos);
    }
    match &ts[pos] {
        Token::Integer(n) => Ok((Expression::Const(Value::Integer(*n)), pos + 1)),
        Token::True => Ok((Expression::Const(Value::Boolean(true)), pos + 1)),
        Token::False => Ok((Expression::Const(Value::Boolean(false)), pos + 1)),
        Token::Identifier(name) => Ok((Expression::Var(name.clone()), pos + 1)),
        Token::Open => {
            let (e, next) = match parse_operand(ts, pos + 1, 1) {
                Ok(inner) => inner,
                Err(at) => {
                    return Err(at);
                },
            };
            if found(ts, next, &Token::Close) {
                Ok((e, next + 1))
            } else {
                Err(next)
            }
        },
        _ => Err(pos),
    }
}

/// Reads the operand of tier `tier` at `pos`.
fn parse_operand(ts: &Vec<Token>, pos: usize, tier: u8) -> (r: Result<(Expression, usize), usize>)
    requires
        pos <= ts@.len(),
        1 <= tier <= 4,
    ensures
        expr_agrees(r, operand(token_models(ts@), pos as int, tier as nat), pos, ts@.len()),
    decreases ts@.len() - pos, 10 - 2 * tier,
{
    if tier > 3 {
        return parse_atom(ts, pos);
    }
    let (left, next) = match parse_operand(ts, pos, tier + 1) {
        Ok(first) => first,
        Err(at) => {
            return Err(at);
        },
    };
    parse_chain(ts, next, tier, left)
}

/// Joins `left` with the operators of tier `tier` that follow at `pos`, and
/// their right operands.
fn parse_chain(ts: &Vec<Token>, pos: usize, tier: u8, left: Expression) -> (r: Result<
    (Expression, usize),
    usize,
>)
    requires
        pos <= ts@.len(),
        1 <= tier <= 3,
    ensures
        expr_agrees(r, chain(token_models(ts@), pos as int, tier as nat, left@), pos, ts@.len()),
    decreases ts@.len() - pos, 9 - 2 * tier,
{
    if pos < ts.len() {
        match &ts[pos] {
            Token::Infix(op) => {
                if op.precedence() == tier {
                    let (right, next) = match parse_operand(ts, pos + 1, tier + 1) {
                        Ok(second) => second,
                        Err(at) => {
                            return Err(at);
                        },
                    };
                    let joined = Expression::BinOp(Box::new(left), op.symbol(), Box::new(right));
                    return parse_chain(ts, next, tier, joined);
                }
            },
            _ => {},
        }
    }
    Ok((left, pos))
}

/// Reads the expression at `pos`.
fn parse_expr(ts: &Vec<Token>, pos: usize) -> (r: Result<(Expression, usize), usize>)
    requires
        pos <= ts@.len(),
    ensures
        expr_agrees(r, expression(token_models(ts@), pos as int), pos, ts@.len()),
{
    parse_operand(ts, pos, 1)
}

/// Reads what follows `let` or `let mut`.
fn parse_binding(ts: &Vec<Token>, pos: usize, mutable: bool) -> (r: Result<
    (Instruction, usize),
    usize,
>)
    requires
        pos <= ts@.len(),
    ensures
        instr_agrees(r, binding(token_models(ts@), pos as int, mutable), pos, ts@.len()),
{
    if pos >= ts.len() {
        return Err(pos);
    }
    match &ts[pos] {
        Token::Identifier(name) => {
            if !found(ts, pos + 1, &Token::Assign) {
                return Err(pos + 1);
            }
            let (e, next) = match parse_expr(ts, pos + 2) {
                Ok(value) => value,
                Err(at) => {
                    return Err(at);
                },
            };
            if mutable {
                Ok((Instruction::LetMut(name.clone(), e), next))
            } else {
                Ok((Instruction::Let(name.clone(), e), next))
            }
        },
        _ => Err(pos),
    }
}

/// Reads the instruction at `pos`.
fn parse_instr(ts: &Vec<Token>, pos: usize) -> (r: Result<(Instruction, usize), usize>)
    requires
        pos <= ts@.len(),
    ensures
        instr_agrees(r, instruction(token_models(ts@), pos as int), pos, ts@.len()),
    decreases ts@.len() - pos, 2nat,
{
    if pos >= ts.len() {
        return parse_plain(ts, pos);
    }
    match &ts[pos] {
        Token::Let => {
            if found(ts, pos + 1, &Token::Mut) {
                parse_binding(ts, pos + 2, true)
            } else {
                parse_binding(ts, pos + 1, false)
            }
        },
        Token::If => parse_conditional(ts, pos),
        Token::While => parse_loop(ts, pos),
        Token::BlockOpen => {
            let (stmts, next) = match parse_block(ts, pos) {
                Ok(stmts) => stmts,
                Err(at) => {
                    return Err(at);
                },
            };
            proof {
                lemma_block_model(stmts);
            }
            Ok((Instruction::Block(stmts), next))
        },
        Token::Identifier(name) => {
            if found(ts, pos + 1, &Token::Assign) {
                let (e, next) = match parse_expr(ts, pos + 2) {
                    Ok(value) => value,
                    Err(at) => {
                        return Err(at);
                    },
                };
                Ok((Instruction::Mutate(name.clone(), e), next))
            } else {
                parse_plain(ts, pos)
            }
        },
        _ => parse_plain(ts, pos),
    }
}

/// Reads the conditional whose `if` stands at `pos`.
fn parse_conditional(ts: &Vec<Token>, pos: usize) -> (r: Result<(Instruction, usize), usize>)
    requires
        pos < ts@.len(),
        ts@[pos as int]@ == TokenModel::If,
    ensures
        instr_agrees(r, instruction(token_models(ts@), pos as int), pos, ts@.len()),
    decreases ts@.len() - pos, 1nat,
{
    assert(pos < ts.len());
    let (cond, next) = match parse_expr(ts, pos + 1) {
        Ok(value) => value,
        Err(at) => {
            return Err(at);
        },
    };
    let (yes, next) = match parse_block(ts, next) {
        Ok(stmts) => stmts,
        Err(at) => {
            return Err(at);
        },
    };
    if !found(ts, next, &Token::Else) {
        return Err(next);
    }
    let (no, next) = match parse_block(ts, next + 1) {
        Ok(stmts) => stmts,
        Err(at) => {
            return Err(at);
        },
    };
    proof {
        lemma_block_model(yes);
        lemma_block_model(no);
    }
    Ok(
        (
            Instruction::IfElse {
                cond,
                cond_true: Box::new(Instruction::Block(yes)),
                cond_false: Box::new(Instruction::Block(no)),
            },
            next,
        ),
    )
}

/// Reads the loop whose `while` stands at `pos`.
fn parse_loop(ts: &Vec<Token>, pos: usize) -> (r: Result<(Instruction, usize), usize>)
    requires
        pos < ts@.len(),
        ts@[pos as int]@ == TokenModel::While,
    ensures
        instr_agrees(r, instruction(token_models(ts@), pos as int), pos, ts@.len()),
    decreases ts@.len() - pos, 1nat,
{
    assert(pos < ts.len());
    let (cond, next) = match parse_expr(ts, pos + 1) {
        Ok(value) => value,
        Err(at) => {
            return Err(at);
        },
    };
    let (body, next) = match parse_block(ts, next) {
        Ok(stmts) => stmts,
        Err(at) => {
            return Err(at);
        },
    };
    proof {
        lemma_block_model(body);
    }
    Ok((Instruction::While(cond, Box::new(Instruction::Block(body))), next))
}

/// Reads the expression at `pos` as an instruction.
fn parse_plain(ts: &Vec<Token>, pos: usize) -> (r: Result<(Instruction, usize), usize>)
    requires
        pos <= ts@.len(),
    ensures
        match r {
            Ok((i, next)) => pos <= next <= ts@.len() && i is Expr && expression(
                token_models(ts@),
                pos as int,
            ) == Ok::<_, int>((i->Expr_0@, (next - pos) as nat)),
            Err(at) => at <= ts@.len() && expression(token_models(ts@), pos as int) == Err::<
                (ExprModel, nat),
                _,
            >(at as int),
        },
{
    match parse_expr(ts, pos) {
        Ok((e, next)) => Ok((Instruction::Expr(e), next)),
        Err(at) => Err(at),
    }
}

/// Reads the block that opens at `pos`.
fn parse_block(ts: &Vec<Token>, pos: usize) -> (r: Result<(Vec<Instruction>, usize), usize>)
    requires
        pos <= ts@.len(),
    ensures
        block_agrees(r, Seq::empty(), block(token_models(ts@), pos as int), pos, ts@.len()),
    decreases ts@.len() - pos, 1nat,
{
    if pos >= ts.len() || !found(ts, pos, &Token::BlockOpen) {
        return Err(pos);
    }
    let start = skip_separators(ts, pos + 1);
    let stmts: Vec<Instruction> = Vec::new();
    assert(models(stmts@) =~= Seq::empty());
    parse_statements(ts, start, stmts)
}

/// Reads the statements from `pos` to the end of their block, after the
/// statements `before` of the same block.
fn parse_statements(ts: &Vec<Token>, pos: usize, before: Vec<Instruction>) -> (r: Result<
    (Vec<Instruction>, usize),
    usize,
>)
    requires
        pos <= ts@.len(),
    ensures
        block_agrees(
            r,
            models(before@),
            statements(token_models(ts@), pos as int),
            pos,
            ts@.len(),
        ),
    decreases ts@.len() - pos, 3nat,
{
    if pos >= ts.len() {
        return Err(pos);
    }
    if found(ts, pos, &Token::BlockClose) {
        assert(models(before@) + Seq::<InstrModel>::empty() =~= models(before@));
        return Ok((before, pos + 1));
    }
    let (first, next) = match parse_instr(ts, pos) {
        Ok(first) => first,
        Err(at) => {
            return Err(at);
        },
    };
    let mut stmts = before;
    stmts.push(first);
    assert(models(stmts@) =~= models(before@) + seq![first@]);
    if found(ts, next, &Token::BlockClose) {
        Ok((stmts, next + 1))
    } else if found(ts, next, &Token::Separator) {
        let start = skip_separators(ts, next + 1);
        let r = parse_statements(ts, start, stmts);
        proof {
            let rest = statements(token_models(ts@), start as int);
            if rest is Ok {
                assert(models(before@) + (seq![first@] + rest->Ok_0.0) =~= models(before@)
                    + seq![first@] + rest->Ok_0.0);
            }
        }
        r
    } else {
        Err(next)
    }
}

/// Reads the one instruction that the tokens make up.
pub fn parse_tokens(ts: &Vec<Token>) -> (r: Result<Instruction, usize>)
    ensures
        match r {
            Ok(i) => line(token_models(ts@)) == Ok::<_, int>(i@),
            Err(at) => at <= ts@.len() && line(token_models(ts@)) == Err::<InstrModel, _>(
                at as int,
            ),
        },
{
    let start = skip_separators(ts, 0);
    let (i, next) = match parse_instr(ts, start) {
        Ok(read) => read,
        Err(at) => {
            return Err(at);
        },
    };
    let end = skip_separators(ts, next);
    if end == ts.len() {
        Ok(i)
    } else {
        Err(end)
    }
}

/// The parser of the language.
pub struct MyParser;

impl MyParser {
    /// Reads a text as one instruction.
    pub fn parse(input: &str) -> (r: Result<Instruction, ParseError>)
        ensures
            match r {
                Ok(i) => parse_of(input@) == Ok::<_, ParseError>(i@),
                Err(e) => parse_of(input@) == Err::<InstrModel, _>(e),
            },
    {
        let lexed = match tokenize(input) {
            Ok(lexed) => lexed,
            Err(e) => {
                return Err(e);
            },
        };
        assert(token_models(lexed.tokens@) =~= tokens_of(lexed@));
        match parse_tokens(&lexed.tokens) {
            Ok(i) => Ok(i),
            Err(at) => {
                if at < lexed.offsets.len() {
                    Err(ParseError::UnexpectedToken { offset: lexed.offsets[at] })
                } else {
                    Err(ParseError::UnexpectedEnd)
                }
            },
        }
    }
}

/// Reads a text as one instruction.
pub fn parse(input: String) -> (r: Result<Instruction, ParseError>)
    ensures
        match r {
            Ok(i) => parse_of(input@) == Ok::<_, ParseError>(i@),
            Err(e) => parse_of(input@) == Err::<InstrModel, _>(e),
        },
{
    MyParser::parse(input.as_str())
}

} // verus!
