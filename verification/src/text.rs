//! Writing tokens and trees as text, and that reading the text back gives
//! them.

use vstd::prelude::*;
use crate::ast::{ExprModel, InstrModel, Value};
use crate::error::ParseError;
use crate::lexer::{
    Lexeme,
    TokenModel,
    decimal,
    digits,
    following,
    is_blank,
    is_digit,
    is_word_char,
    is_word_start,
    lemma_span,
    lemma_span_end,
    lemma_token_length,
    lexemes,
    lexemes_from,
    span,
    token_at,
    tokens_of,
    word_chars,
    word_token,
};
use crate::operator::Operator;
use crate::parser::{
    atom,
    block,
    chain,
    expression,
    instruction,
    operand,
    parse_of,
    remaining,
    separators,
    statements,
    token,
};
use crate::report::{digit_char, digits_of};
use crate::unparse::{
    bare,
    joined,
    theorem_read_back,
    writable,
    writable_instruction,
    written,
    written_instruction,
};

verus! {

/// Whether a word can name a variable: it starts with a letter or an
/// underscore, goes on with letters, digits and underscores, and is no
/// keyword.
pub open spec fn is_name(word: Seq<char>) -> bool {
    &&& word.len() >= 1
    &&& is_word_start(word[0])
    &&& forall|k: int| 0 <= k < word.len() ==> is_word_char(#[trigger] word[k])
    &&& word_token(word) == TokenModel::Identifier(word)
}

/// How a token is spelled.
pub open spec fn spelling(t: TokenModel) -> Seq<char> {
    match t {
        TokenModel::Integer(n) => digits_of(n as nat),
        TokenModel::True => "true"@,
        TokenModel::False => "false"@,
        TokenModel::Identifier(name) => name,
        TokenModel::Let => "let"@,
        TokenModel::Mut => "mut"@,
        TokenModel::If => "if"@,
        TokenModel::Else => "else"@,
        TokenModel::While => "while"@,
        TokenModel::Open => seq!['('],
        TokenModel::Close => seq![')'],
        TokenModel::BlockOpen => seq!['{'],
        TokenModel::BlockClose => seq!['}'],
        TokenModel::Assign => seq!['='],
        TokenModel::Separator => seq![';'],
        TokenModel::Infix(op) => op.text(),
    }
}

/// Whether a token has a spelling: an integer is not negative, an
/// identifier is a name, an operator is of the grammar.
pub open spec fn spellable(t: TokenModel) -> bool {
    match t {
        TokenModel::Integer(n) => n >= 0,
        TokenModel::Identifier(name) => is_name(name),
        TokenModel::Infix(op) => op.tier() >= 1,
        _ => true,
    }
}

/// Tokens as text: each is spelled, and a space follows it.
pub open spec fn text_of(ts: Seq<TokenModel>) -> Seq<char>
    decreases ts.len(),
{
    if ts.len() == 0 {
        Seq::empty()
    } else {
        spelling(ts[0]) + seq![' '] + text_of(ts.drop_first())
    }
}

/// The digits of a number are digits, and denote the number.
pub proof fn lemma_digits(n: nat)
    ensures
        digits_of(n).len() >= 1,
        forall|k: int| 0 <= k < digits_of(n).len() ==> is_digit(#[trigger] digits_of(n)[k]),
        decimal(digits_of(n)) == n,
    decreases n,
{
    let d = digit_char((n % 10) as int);
    assert(d as int == '0' as int + n % 10);
    if n < 10 {
        assert(digits_of(n).drop_last() =~= Seq::empty());
        assert(decimal(Seq::<char>::empty()) == 0);
    } else {
        lemma_digits(n / 10);
        assert(digits_of(n).drop_last() =~= digits_of(n / 10));
    }
}

/// The spelling of a token that has one is read as that token, where a
/// space follows it.
pub proof fn lemma_token_read_back(text: Seq<char>, pos: int, t: TokenModel)
    requires
        spellable(t),
        0 <= pos,
        pos + spelling(t).len() < text.len(),
        text.subrange(pos, pos + spelling(t).len()) == spelling(t),
        text[pos + spelling(t).len()] == ' ',
    ensures
        spelling(t).len() >= 1,
        !is_blank(text[pos]),
        token_at(text, pos) == Ok::<_, ParseError>((t, spelling(t).len())),
{
    let sp = spelling(t);
    let m = sp.len() as int;
    assert forall|k: int| 0 <= k < m implies text[pos + k] == #[trigger] sp[k] by {
        assert(text.subrange(pos, pos + m)[k] == text[pos + k]);
    }
    reveal_strlit("let");
    reveal_strlit("mut");
    reveal_strlit("if");
    reveal_strlit("else");
    reveal_strlit("while");
    reveal_strlit("true");
    reveal_strlit("false");
    match t {
        TokenModel::Integer(n) => {
            lemma_digits(n as nat);
            assert(sp[0] == text[pos]);
            assert forall|k: int| pos <= k < pos + m implies digits()(#[trigger] text[k]) by {
                assert(text[pos + (k - pos)] == sp[k - pos]);
            }
            lemma_span_end(text, pos, pos + m, digits());
        },
        TokenModel::Infix(op) => {
            op.lemma_text_shape();
            assert(sp[0] == text[pos]);
            if m == 2 {
                assert(sp[1] == text[pos + 1]);
            }
        },
        TokenModel::Open
        | TokenModel::Close
        | TokenModel::BlockOpen
        | TokenModel::BlockClose
        | TokenModel::Assign
        | TokenModel::Separator => {
            assert(sp[0] == text[pos]);
        },
        _ => {
            // A word: a keyword or a name.
            assert(sp[0] == text[pos]);
            assert forall|k: int| 0 <= k < m implies is_word_char(#[trigger] sp[k]) by {
                if t is Identifier {
                } else {
                    assert(k == 0 || k == 1 || k == 2 || k == 3 || k == 4);
                }
            }
            assert forall|k: int| pos <= k < pos + m implies word_chars()(#[trigger] text[k]) by {
                assert(text[pos + (k - pos)] == sp[k - pos]);
            }
            lemma_span_end(text, pos, pos + m, word_chars());
            assert(word_token(sp) == t) by {
                if !(t is Identifier) {
                    assert("let"@.len() == 3 && "mut"@.len() == 3 && "if"@.len() == 2
                        && "else"@.len() == 4 && "while"@.len() == 5 && "true"@.len() == 4
                        && "false"@.len() == 5);
                    assert("let"@[0] == 'l' && "mut"@[0] == 'm' && "else"@[0] == 'e'
                        && "true"@[0] == 't' && "while"@[0] == 'w' && "false"@[0] == 'f');
                }
            }
        },
    }
}

/// The text of tokens that have a spelling is read as those tokens.
pub proof fn lemma_tokens_read_back(text: Seq<char>, pos: int, ts: Seq<TokenModel>)
    requires
        0 <= pos <= text.len(),
        text.subrange(pos, text.len() as int) == text_of(ts),
        forall|k: int| 0 <= k < ts.len() ==> spellable(#[trigger] ts[k]),
    ensures
        lexemes_from(text, pos) is Ok,
        tokens_of(lexemes_from(text, pos)->Ok_0) == ts,
    decreases ts.len(),
{
    let tail = text.subrange(pos, text.len() as int);
    if ts.len() == 0 {
        assert(tail.len() == 0);
        assert(tokens_of(Seq::<Lexeme>::empty()) =~= ts);
    } else {
        let t = ts[0];
        let sp = spelling(t);
        let m = sp.len() as int;
        let rest = ts.drop_first();
        assert(tail == sp + seq![' '] + text_of(rest));
        assert(pos + m < text.len()) by {
            assert(tail.len() == m + 1 + text_of(rest).len());
        }
        assert(text.subrange(pos, pos + m) =~= sp) by {
            assert forall|k: int| 0 <= k < m implies text.subrange(pos, pos + m)[k] == sp[k] by {
                assert(tail[k] == text[pos + k]);
            }
        }
        assert(text[pos + m] == ' ') by {
            assert(tail[m] == text[pos + m]);
        }
        lemma_token_read_back(text, pos, t);
        assert(text.subrange(pos + m + 1, text.len() as int) =~= text_of(rest)) by {
            assert forall|k: int| 0 <= k < text_of(rest).len() implies text.subrange(
                pos + m + 1,
                text.len() as int,
            )[k] == text_of(rest)[k] by {
                assert(tail[m + 1 + k] == text[pos + m + 1 + k]);
            }
        }
        assert forall|k: int| 0 <= k < rest.len() implies spellable(#[trigger] rest[k]) by {
            assert(rest[k] == ts[k + 1]);
        }
        lemma_tokens_read_back(text, pos + m + 1, rest);
        let more = lexemes_from(text, pos + m + 1)->Ok_0;
        assert(lexemes_from(text, pos + m) == lexemes_from(text, pos + m + 1));
        assert(lexemes_from(text, pos) == following(
            seq![(t, pos)],
            lexemes_from(text, pos + m),
        ));
        let all = seq![(t, pos)] + more;
        assert(tokens_of(all) =~= ts) by {
            assert(tokens_of(more) == rest);
            assert forall|k: int| 0 <= k < ts.len() implies tokens_of(all)[k] == ts[k] by {
                if k > 0 {
                    assert(all[k] == more[k - 1]);
                    assert(tokens_of(more)[k - 1] == more[k - 1].0);
                    assert(rest[k - 1] == ts[k]);
                }
            }
        }
    }
}

/// Reading the text of tokens gives the tokens, if each of them has a
/// spelling.
pub proof fn theorem_tokens_read_back(ts: Seq<TokenModel>)
    requires
        forall|k: int| 0 <= k < ts.len() ==> spellable(#[trigger] ts[k]),
    ensures
        lexemes(text_of(ts)) is Ok,
        tokens_of(lexemes(text_of(ts))->Ok_0) == ts,
{
    let text = text_of(ts);
    assert(text.subrange(0, text.len() as int) =~= text);
    lemma_tokens_read_back(text, 0, ts);
}

/// Whether each of the tokens has a spelling.
pub open spec fn all_spellable(ts: Seq<TokenModel>) -> bool {
    forall|k: int| 0 <= k < ts.len() ==> spellable(#[trigger] ts[k])
}

/// Whether an expression can be written as text: its integers are not
/// negative, its variables are names, its operators are of the grammar.
pub open spec fn printable(e: ExprModel) -> bool
    decreases e,
{
    match e {
        ExprModel::Const(Value::Integer(n)) => n >= 0,
        ExprModel::Const(Value::Boolean(_)) => true,
        ExprModel::Const(Value::Unit) => false,
        ExprModel::Var(name) => is_name(name),
        ExprModel::BinOp(left, op, right) => Operator::named(op) is Some && Operator::named(
            op,
        )->0.tier() >= 1 && printable(*left) && printable(*right),
    }
}

/// Whether an instruction can be written as text: its expressions can, the
/// names it binds are names, and the branches of its conditionals and the
/// bodies of its loops are blocks.
pub open spec fn printable_instruction(i: InstrModel) -> bool
    decreases i,
{
    match i {
        InstrModel::Expr(e) => printable(e),
        InstrModel::Let(name, e) => is_name(name) && printable(e),
        InstrModel::LetMut(name, e) => is_name(name) && printable(e),
        InstrModel::Mutate(name, e) => is_name(name) && printable(e),
        InstrModel::IfElse { cond, cond_true, cond_false } => printable(cond) && *cond_true is Block
            && *cond_false is Block && printable_instruction(*cond_true) && printable_instruction(
            *cond_false,
        ),
        InstrModel::While(cond, body) => printable(cond) && *body is Block
            && printable_instruction(*body),
        InstrModel::Block(stmts) => forall|k: int|
            0 <= k < stmts.len() ==> printable_instruction(#[trigger] stmts[k]),
    }
}

/// Tokens that have spellings, put together, have spellings.
proof fn lemma_spellable_joined(a: Seq<TokenModel>, b: Seq<TokenModel>)
    requires
        all_spellable(a),
        all_spellable(b),
    ensures
        all_spellable(a + b),
{
    assert forall|k: int| 0 <= k < (a + b).len() implies spellable(#[trigger] (a + b)[k]) by {
        if k < a.len() {
            assert((a + b)[k] == a[k]);
        } else {
            assert((a + b)[k] == b[k - a.len()]);
        }
    }
}

/// An expression that can be written as text can be written as tokens, and
/// each of its tokens has a spelling.
pub proof fn lemma_printable(e: ExprModel, tier: nat)
    requires
        printable(e),
    ensures
        writable(e),
        all_spellable(bare(e)),
        all_spellable(written(e, tier)),
    decreases e,
{
    match e {
        ExprModel::BinOp(left, op, right) => {
            let o = Operator::named(op)->0;
            lemma_printable(*left, o.tier());
            lemma_printable(*right, o.tier() + 1);
            lemma_spellable_joined(written(*left, o.tier()), seq![TokenModel::Infix(o)]);
            lemma_spellable_joined(
                written(*left, o.tier()) + seq![TokenModel::Infix(o)],
                written(*right, o.tier() + 1),
            );
        },
        _ => {},
    }
    lemma_spellable_joined(seq![TokenModel::Open], bare(e));
    lemma_spellable_joined(seq![TokenModel::Open] + bare(e), seq![TokenModel::Close]);
}

/// An instruction that can be written as text can be written as tokens, and
/// each of its tokens has a spelling.
pub proof fn lemma_printable_instruction(i: InstrModel)
    requires
        printable_instruction(i),
    ensures
        writable_instruction(i),
        all_spellable(written_instruction(i)),
    decreases i, 0nat,
{
    match i {
        InstrModel::Expr(e) => {
            lemma_printable(e, 1);
        },
        InstrModel::Let(name, e) => {
            lemma_printable(e, 1);
            lemma_spellable_joined(
                seq![TokenModel::Let, TokenModel::Identifier(name), TokenModel::Assign],
                written(e, 1),
            );
        },
        InstrModel::LetMut(name, e) => {
            lemma_printable(e, 1);
            lemma_spellable_joined(
                seq![
                    TokenModel::Let,
                    TokenModel::Mut,
                    TokenModel::Identifier(name),
                    TokenModel::Assign,
                ],
                written(e, 1),
            );
        },
        InstrModel::Mutate(name, e) => {
            lemma_printable(e, 1);
            lemma_spellable_joined(
                seq![TokenModel::Identifier(name), TokenModel::Assign],
                written(e, 1),
            );
        },
        InstrModel::IfElse { cond, cond_true, cond_false } => {
            lemma_printable(cond, 1);
            lemma_printable_instruction(*cond_true);
            lemma_printable_instruction(*cond_false);
            let a = seq![TokenModel::If] + written(cond, 1);
            lemma_spellable_joined(seq![TokenModel::If], written(cond, 1));
            lemma_spellable_joined(a, written_instruction(*cond_true));
            lemma_spellable_joined(a + written_instruction(*cond_true), seq![TokenModel::Else]);
            lemma_spellable_joined(
                a + written_instruction(*cond_true) + seq![TokenModel::Else],
                written_instruction(*cond_false),
            );
        },
        InstrModel::While(cond, body) => {
            lemma_printable(cond, 1);
            lemma_printable_instruction(*body);
            lemma_spellable_joined(seq![TokenModel::While], written(cond, 1));
            lemma_spellable_joined(
                seq![TokenModel::While] + written(cond, 1),
                written_instruction(*body),
            );
        },
        InstrModel::Block(stmts) => {
            lemma_printable_statements(stmts, 0);
            lemma_spellable_joined(seq![TokenModel::BlockOpen], joined(stmts, 0));
            lemma_spellable_joined(
                seq![TokenModel::BlockOpen] + joined(stmts, 0),
                seq![TokenModel::BlockClose],
            );
        },
    }
}

/// The same for the statements of a block.
pub proof fn lemma_printable_statements(stmts: Seq<InstrModel>, from: int)
    requires
        forall|k: int| 0 <= k < stmts.len() ==> printable_instruction(#[trigger] stmts[k]),
    ensures
        forall|k: int| 0 <= k < stmts.len() ==> writable_instruction(#[trigger] stmts[k]),
        all_spellable(joined(stmts, from)),
    decreases stmts, stmts.len() - from,
{
    assert forall|k: int| 0 <= k < stmts.len() implies writable_instruction(
        #[trigger] stmts[k],
    ) by {
        lemma_printable_instruction(stmts[k]);
    }
    if 0 <= from < stmts.len() {
        lemma_printable_instruction(stmts[from]);
        if from < stmts.len() - 1 {
            lemma_printable_statements(stmts, from + 1);
            lemma_spellable_joined(
                written_instruction(stmts[from]),
                seq![TokenModel::Separator],
            );
            lemma_spellable_joined(
                written_instruction(stmts[from]) + seq![TokenModel::Separator],
                joined(stmts, from + 1),
            );
        }
    }
}

/// Reading what was written gives back what was written: the text of an
/// instruction that can be written as text denotes that instruction.
pub proof fn theorem_text_read_back(i: InstrModel)
    requires
        printable_instruction(i),
    ensures
        parse_of(text_of(written_instruction(i))) == Ok::<_, ParseError>(i),
{
    lemma_printable_instruction(i);
    theorem_tokens_read_back(written_instruction(i));
    theorem_read_back(i);
}

/// A token that is read from a text has a spelling.
pub proof fn lemma_read_token_spellable(text: Seq<char>, pos: int)
    requires
        0 <= pos < text.len(),
        token_at(text, pos) is Ok,
    ensures
        spellable(token_at(text, pos)->Ok_0.0),
{
    let c = text[pos];
    if is_digit(c) {
    } else if is_word_start(c) {
        let n = span(text, pos, word_chars());
        let word = text.subrange(pos, pos + n);
        lemma_span(text, pos, word_chars());
        assert(n >= 1);
        assert forall|k: int| 0 <= k < word.len() implies is_word_char(#[trigger] word[k]) by {
            assert(word_chars()(text[pos + k]));
        }
    } else {
    }
}

/// The tokens that are read from a text have spellings.
pub proof fn lemma_read_tokens_spellable(text: Seq<char>, pos: int)
    requires
        lexemes_from(text, pos) is Ok,
    ensures
        all_spellable(tokens_of(lexemes_from(text, pos)->Ok_0)),
    decreases text.len() - pos,
{
    if pos < 0 || pos >= text.len() {
    } else if is_blank(text[pos]) {
        lemma_read_tokens_spellable(text, pos + 1);
    } else {
        let t = token_at(text, pos)->Ok_0.0;
        let n = token_at(text, pos)->Ok_0.1;
        lemma_token_length(text, pos);
        lemma_read_token_spellable(text, pos);
        lemma_read_tokens_spellable(text, pos + n);
        let rest = lexemes_from(text, pos + n)->Ok_0;
        let all = seq![(t, pos)] + rest;
        assert forall|k: int| 0 <= k < tokens_of(all).len() implies spellable(
            #[trigger] tokens_of(all)[k],
        ) by {
            if k > 0 {
                assert(all[k] == rest[k - 1]);
                assert(tokens_of(rest)[k - 1] == rest[k - 1].0);
            }
        }
    }
}

/// An atom that is read from tokens with spellings can be written as text.
pub proof fn lemma_atom_printable(ts: Seq<TokenModel>, pos: int)
    requires
        all_spellable(ts),
        atom(ts, pos) is Ok,
    ensures
        printable(atom(ts, pos)->Ok_0.0),
    decreases remaining(ts, pos), 0nat,
{
    match token(ts, pos) {
        Some(TokenModel::Open) => {
            lemma_operand_printable(ts, pos + 1, 1);
        },
        Some(t) => {
            assert(spellable(ts[pos]));
        },
        None => {},
    }
}

/// The same for an operand.
pub proof fn lemma_operand_printable(ts: Seq<TokenModel>, pos: int, tier: nat)
    requires
        all_spellable(ts),
        operand(ts, pos, tier) is Ok,
    ensures
        printable(operand(ts, pos, tier)->Ok_0.0),
    decreases remaining(ts, pos), (if tier <= 3 { 10 - 2 * tier } else { 2 }),
{
    if tier > 3 {
        lemma_atom_printable(ts, pos);
    } else {
        lemma_operand_printable(ts, pos, tier + 1);
        let first = operand(ts, pos, tier + 1)->Ok_0;
        lemma_chain_printable(ts, pos + first.1, tier, first.0);
    }
}

/// The same for an operand joined with what follows it.
pub proof fn lemma_chain_printable(ts: Seq<TokenModel>, pos: int, tier: nat, left: ExprModel)
    requires
        all_spellable(ts),
        printable(left),
        chain(ts, pos, tier, left) is Ok,
    ensures
        printable(chain(ts, pos, tier, left)->Ok_0.0),
    decreases remaining(ts, pos), (if tier <= 3 { 9 - 2 * tier } else { 1 }),
{
    match token(ts, pos) {
        Some(TokenModel::Infix(op)) => {
            if op.tier() == tier && tier <= 3 {
                lemma_operand_printable(ts, pos + 1, tier + 1);
                let second = operand(ts, pos + 1, tier + 1)->Ok_0;
                let joined = ExprModel::BinOp(Box::new(left), op.text(), Box::new(second.0));
                assert(spellable(ts[pos]));
                Operator::lemma_named_text(op);
                assert(printable(joined));
                lemma_chain_printable(ts, pos + 1 + second.1, tier, joined);
            }
        },
        _ => {},
    }
}

/// An instruction that is read from tokens with spellings can be written as
/// text.
pub proof fn lemma_instruction_printable(ts: Seq<TokenModel>, pos: int)
    requires
        all_spellable(ts),
        instruction(ts, pos) is Ok,
    ensures
        printable_instruction(instruction(ts, pos)->Ok_0.0),
    decreases remaining(ts, pos), 2nat,
{
    match token(ts, pos) {
        Some(TokenModel::Let) => {
            let at = if token(ts, pos + 1) == Some(TokenModel::Mut) {
                pos + 2
            } else {
                pos + 1
            };
            if token(ts, at) is Some {
                assert(spellable(ts[at]));
            }
            if expression(ts, at + 2) is Ok {
                lemma_operand_printable(ts, at + 2, 1);
            }
        },
        Some(TokenModel::If) => {
            lemma_operand_printable(ts, pos + 1, 1);
            let n = expression(ts, pos + 1)->Ok_0.1;
            lemma_block_printable(ts, pos + 1 + n);
            let m = block(ts, pos + 1 + n)->Ok_0.1;
            lemma_block_printable(ts, pos + 2 + n + m);
        },
        Some(TokenModel::While) => {
            lemma_operand_printable(ts, pos + 1, 1);
            let n = expression(ts, pos + 1)->Ok_0.1;
            lemma_block_printable(ts, pos + 1 + n);
        },
        Some(TokenModel::BlockOpen) => {
            lemma_block_printable(ts, pos);
        },
        Some(TokenModel::Identifier(name)) => {
            assert(spellable(ts[pos]));
            if token(ts, pos + 1) == Some(TokenModel::Assign) {
                lemma_operand_printable(ts, pos + 2, 1);
            } else {
                lemma_operand_printable(ts, pos, 1);
            }
        },
        _ => {
            lemma_operand_printable(ts, pos, 1);
        },
    }
}

/// The same for the statements of a block.
pub proof fn lemma_block_printable(ts: Seq<TokenModel>, pos: int)
    requires
        all_spellable(ts),
        block(ts, pos) is Ok,
    ensures
        printable_instruction(InstrModel::Block(block(ts, pos)->Ok_0.0)),
    decreases remaining(ts, pos), 1nat,
{
    lemma_statements_printable(ts, pos + 1 + separators(ts, pos + 1));
}

/// Whether each of the statements can be written as text.
pub open spec fn all_printable(stmts: Seq<InstrModel>) -> bool {
    forall|k: int| 0 <= k < stmts.len() ==> printable_instruction(#[trigger] stmts[k])
}

/// The statements of a block that can be written as text can be.
proof fn lemma_printable_parts(i: InstrModel)
    requires
        i is Block,
        printable_instruction(i),
    ensures
        all_printable(i->Block_0),
{
}

/// The same for the statements up to the end of their block.
pub proof fn lemma_statements_printable(ts: Seq<TokenModel>, pos: int)
    requires
        all_spellable(ts),
        statements(ts, pos) is Ok,
    ensures
        printable_instruction(InstrModel::Block(statements(ts, pos)->Ok_0.0)),
    decreases remaining(ts, pos), 3nat,
{
    if token(ts, pos) == Some(TokenModel::BlockClose) {
    } else {
        lemma_instruction_printable(ts, pos);
        let first = instruction(ts, pos)->Ok_0;
        if token(ts, pos + first.1) == Some(TokenModel::BlockClose) {
        } else {
            let at = pos + first.1 + 1 + separators(ts, pos + first.1 + 1);
            lemma_statements_printable(ts, at);
            let rest = statements(ts, at)->Ok_0.0;
            let all = seq![first.0] + rest;
            lemma_printable_parts(InstrModel::Block(rest));
            assert forall|k: int| 0 <= k < all.len() implies printable_instruction(
                #[trigger] all[k],
            ) by {
                if k > 0 {
                    assert(all[k] == rest[k - 1]);
                }
            }
        }
    }
}

/// What is read can be written: an instruction that a text denotes can be
/// written as text.
pub proof fn theorem_read_is_printable(text: Seq<char>)
    requires
        parse_of(text) is Ok,
    ensures
        printable_instruction(parse_of(text)->Ok_0),
{
    lemma_read_tokens_spellable(text, 0);
    let ts = tokens_of(lexemes(text)->Ok_0);
    lemma_instruction_printable(ts, separators(ts, 0) as int);
}

/// Writing is a normal form: the instruction that a text denotes, written
/// as text, denotes the same instruction.
pub proof fn theorem_written_again(text: Seq<char>)
    requires
        parse_of(text) is Ok,
    ensures
        parse_of(text_of(written_instruction(parse_of(text)->Ok_0))) == parse_of(text),
{
    theorem_read_is_printable(text);
    theorem_text_read_back(parse_of(text)->Ok_0);
}

} // verus!
