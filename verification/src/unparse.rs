//! Writing trees as tokens, and that reading them back gives the trees.

use vstd::prelude::*;
use crate::ast::{ExprModel, InstrModel, Value};
use crate::lexer::TokenModel;
use crate::operator::Operator;
use crate::parser::{
    after,
    atom,
    binding,
    block,
    chain,
    expression,
    instruction,
    line,
    operand,
    separators,
    statements,
    token,
};

verus! {

/// Whether an expression can be written: its constants are integers or
/// booleans, and its operators are operators of the grammar.
pub open spec fn writable(e: ExprModel) -> bool
    decreases e,
{
    match e {
        ExprModel::Const(v) => v is Integer || v is Boolean,
        ExprModel::Var(_) => true,
        ExprModel::BinOp(left, op, right) => Operator::named(op) is Some && Operator::named(
            op,
        )->0.tier() >= 1 && writable(*left) && writable(*right),
    }
}

/// The tier of the operator at the root of an expression, and 4 for an
/// expression without operator.
pub open spec fn top_tier(e: ExprModel) -> nat {
    match e {
        ExprModel::BinOp(_, op, _) => Operator::named(op)->0.tier(),
        _ => 4,
    }
}

/// An expression as tokens, without parentheses around it. The left operand
/// of an operator is written as an operand of the operator's tier, the right
/// one as an operand of the tier above.
pub open spec fn bare(e: ExprModel) -> Seq<TokenModel>
    decreases e, 0nat,
{
    match e {
        ExprModel::Const(Value::Integer(n)) => seq![TokenModel::Integer(n)],
        ExprModel::Const(Value::Boolean(b)) => seq![
            if b {
                TokenModel::True
            } else {
                TokenModel::False
            },
        ],
        ExprModel::Const(Value::Unit) => Seq::empty(),
        ExprModel::Var(name) => seq![TokenModel::Identifier(name)],
        ExprModel::BinOp(left, op, right) => {
            let o = Operator::named(op)->0;
            written(*left, o.tier()) + seq![TokenModel::Infix(o)] + written(*right, o.tier() + 1)
        },
    }
}

/// An expression as tokens, where an operand of tier `tier` is wanted: in
/// parentheses if its root operator is of a lower tier, and only then.
pub open spec fn written(e: ExprModel, tier: nat) -> Seq<TokenModel>
    decreases e, 1nat,
{
    if top_tier(e) >= tier {
        bare(e)
    } else {
        seq![TokenModel::Open] + bare(e) + seq![TokenModel::Close]
    }
}

/// Whether the token at `at` is no operator of a tier above `tier`.
pub open spec fn calm(ts: Seq<TokenModel>, at: int, tier: nat) -> bool {
    match token(ts, at) {
        Some(TokenModel::Infix(op)) => op.tier() <= tier,
        _ => true,
    }
}

/// Whether the tokens from `pos` on start with `w`.
pub open spec fn holds(ts: Seq<TokenModel>, pos: int, w: Seq<TokenModel>) -> bool {
    0 <= pos && pos + w.len() <= ts.len() && ts.subrange(pos, pos + w.len()) == w
}

/// Where tokens hold a sequence, they hold each part of it.
proof fn lemma_part(ts: Seq<TokenModel>, pos: int, w: Seq<TokenModel>, a: int, b: int)
    requires
        holds(ts, pos, w),
        0 <= a <= b <= w.len(),
    ensures
        holds(ts, pos + a, w.subrange(a, b)),
        forall|i: int| 0 <= i < w.len() ==> token(ts, pos + i) == Some(#[trigger] w[i]),
{
    assert(ts.subrange(pos + a, pos + b) =~= w.subrange(a, b)) by {
        assert forall|i: int| 0 <= i < b - a implies ts.subrange(pos + a, pos + b)[i]
            == w.subrange(a, b)[i] by {
            assert(ts.subrange(pos, pos + w.len())[a + i] == ts[pos + a + i]);
        }
    }
    assert forall|i: int| 0 <= i < w.len() implies token(ts, pos + i) == Some(#[trigger] w[i]) by {
        assert(ts.subrange(pos, pos + w.len())[i] == ts[pos + i]);
    }
}

/// What is read as an operand of a higher tier is read the same as an
/// operand of a lower tier, and then joined with what follows at that tier,
/// if no operator of a tier between follows.
proof fn lemma_descend(ts: Seq<TokenModel>, pos: int, x: ExprModel, n: nat, hi: nat, lo: nat)
    requires
        1 <= lo < hi <= 4,
        operand(ts, pos, hi) == Ok::<_, int>((x, n)),
        calm(ts, pos + n, lo),
    ensures
        operand(ts, pos, lo) == after(n, chain(ts, pos + n, lo, x)),
    decreases hi - lo,
{
    if lo + 1 < hi {
        lemma_descend(ts, pos, x, n, hi, lo + 1);
    }
}

/// A written expression is read back: where the tokens at `pos` are those of
/// `e` as an operand of tier `tier`, and no operator of a higher tier
/// follows them, the operand of that tier at `pos` is `e`, joined with what
/// follows at that tier.
pub proof fn lemma_operand_read_back(ts: Seq<TokenModel>, pos: int, e: ExprModel, tier: nat)
    requires
        writable(e),
        1 <= tier <= 4,
        holds(ts, pos, written(e, tier)),
        calm(ts, pos + written(e, tier).len(), tier),
    ensures
        operand(ts, pos, tier) == after(
            written(e, tier).len(),
            chain(ts, pos + written(e, tier).len(), tier, e),
        ),
    decreases e, (if top_tier(e) >= tier { 0nat } else { 1nat }),
{
    let w = written(e, tier);
    let n = w.len();
    if top_tier(e) < tier {
        // In parentheses.
        let inner = bare(e);
        let m = inner.len() as int;
        assert(written(e, 1) == inner);
        lemma_part(ts, pos, w, 1, 1 + m);
        assert(w.subrange(1, 1 + m) =~= inner);
        assert(w[0] == TokenModel::Open);
        assert(w[1 + m] == TokenModel::Close);
        lemma_operand_read_back(ts, pos + 1, e, 1);
        assert(atom(ts, pos) == Ok::<_, int>((e, n)));
        assert(operand(ts, pos, 4) == atom(ts, pos));
        if tier < 4 {
            lemma_descend(ts, pos, e, n, 4, tier);
        }
    } else {
        match e {
            ExprModel::BinOp(left, op, right) => {
                let o = Operator::named(op)->0;
                let k = o.tier();
                assert(o.text() == op);
                let wl = written(*left, k);
                let wr = written(*right, k + 1);
                let nl = wl.len() as int;
                assert(w == wl + seq![TokenModel::Infix(o)] + wr);
                lemma_part(ts, pos, w, 0, nl);
                assert(w.subrange(0, nl) =~= wl);
                lemma_part(ts, pos, w, nl + 1, n as int);
                assert(w.subrange(nl + 1, n as int) =~= wr);
                assert(w[nl] == TokenModel::Infix(o));
                lemma_operand_read_back(ts, pos, *left, k);
                lemma_operand_read_back(ts, pos + nl + 1, *right, k + 1);
                assert(operand(ts, pos + nl + 1, k + 1) == Ok::<_, int>((*right, wr.len())));
                assert(chain(ts, pos + nl, k, *left) == after(
                    1 + wr.len(),
                    chain(ts, pos + n, k, e),
                ));
                assert(operand(ts, pos, k) == after(n, chain(ts, pos + n, k, e)));
                if k > tier {
                    assert(operand(ts, pos, k) == Ok::<_, int>((e, n)));
                    lemma_descend(ts, pos, e, n, k, tier);
                }
            },
            _ => {
                lemma_part(ts, pos, w, 0, 1);
                assert(atom(ts, pos) == Ok::<_, int>((e, n)));
                assert(operand(ts, pos, 4) == atom(ts, pos));
                if tier < 4 {
                    lemma_descend(ts, pos, e, n, 4, tier);
                }
            },
        }
    }
}

/// Whether an instruction can be written: its expressions can, and the
/// branches of its conditionals and the bodies of its loops are blocks.
pub open spec fn writable_instruction(i: InstrModel) -> bool
    decreases i,
{
    match i {
        InstrModel::Expr(e) => writable(e),
        InstrModel::Let(_, e) => writable(e),
        InstrModel::LetMut(_, e) => writable(e),
        InstrModel::Mutate(_, e) => writable(e),
        InstrModel::IfElse { cond, cond_true, cond_false } => writable(cond) && *cond_true is Block
            && *cond_false is Block && writable_instruction(*cond_true) && writable_instruction(
            *cond_false,
        ),
        InstrModel::While(cond, body) => writable(cond) && *body is Block && writable_instruction(
            *body,
        ),
        InstrModel::Block(stmts) => forall|k: int|
            0 <= k < stmts.len() ==> writable_instruction(#[trigger] stmts[k]),
    }
}


/// An instruction as tokens.
pub open spec fn written_instruction(i: InstrModel) -> Seq<TokenModel>
    decreases i, 0nat,
{
    match i {
        InstrModel::Expr(e) => written(e, 1),
        InstrModel::Let(name, e) => seq![
            TokenModel::Let,
            TokenModel::Identifier(name),
            TokenModel::Assign,
        ] + written(e, 1),
        InstrModel::LetMut(name, e) => seq![
            TokenModel::Let,
            TokenModel::Mut,
            TokenModel::Identifier(name),
            TokenModel::Assign,
        ] + written(e, 1),
        InstrModel::Mutate(name, e) => seq![TokenModel::Identifier(name), TokenModel::Assign]
            + written(e, 1),
        InstrModel::IfElse { cond, cond_true, cond_false } => seq![TokenModel::If] + written(
            cond,
            1,
        ) + written_instruction(*cond_true) + seq![TokenModel::Else] + written_instruction(
            *cond_false,
        ),
        InstrModel::While(cond, body) => seq![TokenModel::While] + written(cond, 1)
            + written_instruction(*body),
        InstrModel::Block(stmts) => seq![TokenModel::BlockOpen] + joined(stmts, 0)
            + seq![TokenModel::BlockClose],
    }
}

/// The statements from index `from` on as tokens, with a separator between
/// two statements.
pub open spec fn joined(stmts: Seq<InstrModel>, from: int) -> Seq<TokenModel>
    decreases stmts, stmts.len() - from,
{
    if from < 0 || from >= stmts.len() {
        Seq::empty()
    } else if from == stmts.len() - 1 {
        written_instruction(stmts[from])
    } else {
        written_instruction(stmts[from]) + seq![TokenModel::Separator] + joined(stmts, from + 1)
    }
}

/// Whether a token can start an expression.
pub open spec fn starts_expression(t: TokenModel) -> bool {
    t is Integer || t is True || t is False || t is Identifier || t is Open
}

/// Whether a token can start an instruction.
pub open spec fn starts_instruction(t: TokenModel) -> bool {
    starts_expression(t) || t is Let || t is If || t is While || t is BlockOpen
}

/// Whether a statement may end before the token at `at`: a separator, the
/// end of a block, or nothing.
pub open spec fn closes(ts: Seq<TokenModel>, at: int) -> bool {
    match token(ts, at) {
        None => true,
        Some(t) => t is Separator || t is BlockClose,
    }
}

/// A written expression starts like an expression; and after a name at its
/// start comes an operator, if anything.
pub proof fn lemma_expression_start(e: ExprModel, tier: nat)
    requires
        writable(e),
        1 <= tier <= 4,
    ensures
        written(e, tier).len() >= 1,
        starts_expression(written(e, tier)[0]),
        written(e, tier)[0] is Identifier && written(e, tier).len() > 1 ==> written(
            e,
            tier,
        )[1] is Infix,
    decreases e,
{
    if top_tier(e) >= tier {
        match e {
            ExprModel::BinOp(left, op, right) => {
                let o = Operator::named(op)->0;
                lemma_expression_start(*left, o.tier());
            },
            _ => {},
        }
    }
}

/// A written instruction starts like an instruction.
pub proof fn lemma_instruction_start(i: InstrModel)
    requires
        writable_instruction(i),
    ensures
        written_instruction(i).len() >= 1,
        starts_instruction(written_instruction(i)[0]),
{
    match i {
        InstrModel::Expr(e) => {
            lemma_expression_start(e, 1);
        },
        _ => {},
    }
}

/// A written expression that something other than an operator follows is
/// read back.
pub proof fn lemma_expression_read_back(ts: Seq<TokenModel>, pos: int, e: ExprModel)
    requires
        writable(e),
        holds(ts, pos, written(e, 1)),
        !(token(ts, pos + written(e, 1).len()) matches Some(t) && t is Infix),
    ensures
        expression(ts, pos) == Ok::<_, int>((e, written(e, 1).len())),
{
    lemma_operand_read_back(ts, pos, e, 1);
}

/// A written expression statement is read back.
proof fn lemma_plain_read_back(ts: Seq<TokenModel>, pos: int, e: ExprModel)
    requires
        writable(e),
        holds(ts, pos, written(e, 1)),
        closes(ts, pos + written(e, 1).len()),
    ensures
        instruction(ts, pos) == Ok::<_, int>((InstrModel::Expr(e), written(e, 1).len())),
{
    let w = written(e, 1);
    lemma_expression_start(e, 1);
    lemma_part(ts, pos, w, 0, 1);
    lemma_expression_read_back(ts, pos, e);
}

/// A written declaration is read back.
proof fn lemma_declaration_read_back(
    ts: Seq<TokenModel>,
    pos: int,
    name: Seq<char>,
    e: ExprModel,
    mutable: bool,
)
    requires
        writable(e),
        holds(
            ts,
            pos,
            written_instruction(
                if mutable {
                    InstrModel::LetMut(name, e)
                } else {
                    InstrModel::Let(name, e)
                },
            ),
        ),
        closes(
            ts,
            pos + written_instruction(
                if mutable {
                    InstrModel::LetMut(name, e)
                } else {
                    InstrModel::Let(name, e)
                },
            ).len(),
        ),
    ensures
        instruction(ts, pos) == Ok::<_, int>(
            (
                if mutable {
                    InstrModel::LetMut(name, e)
                } else {
                    InstrModel::Let(name, e)
                },
                written_instruction(
                    if mutable {
                        InstrModel::LetMut(name, e)
                    } else {
                        InstrModel::Let(name, e)
                    },
                ).len(),
            ),
        ),
{
    let i = if mutable {
        InstrModel::LetMut(name, e)
    } else {
        InstrModel::Let(name, e)
    };
    let w = written_instruction(i);
    let n = w.len() as int;
    let we = written(e, 1);
    if mutable {
        lemma_part(ts, pos, w, 4, n);
        assert(w.subrange(4, n) =~= we);
        assert(w[0] == TokenModel::Let && w[1] == TokenModel::Mut && w[2]
            == TokenModel::Identifier(name) && w[3] == TokenModel::Assign);
        lemma_expression_read_back(ts, pos + 4, e);
        assert(binding(ts, pos + 2, true) == Ok::<_, int>((i, (2 + we.len()) as nat)));
    } else {
        lemma_part(ts, pos, w, 3, n);
        assert(w.subrange(3, n) =~= we);
        assert(w[0] == TokenModel::Let && w[1] == TokenModel::Identifier(name) && w[2]
            == TokenModel::Assign);
        lemma_expression_read_back(ts, pos + 3, e);
        assert(binding(ts, pos + 1, false) == Ok::<_, int>((i, (2 + we.len()) as nat)));
    }
}

/// A written mutation is read back.
proof fn lemma_mutation_read_back(ts: Seq<TokenModel>, pos: int, name: Seq<char>, e: ExprModel)
    requires
        writable(e),
        holds(ts, pos, written_instruction(InstrModel::Mutate(name, e))),
        closes(ts, pos + written_instruction(InstrModel::Mutate(name, e)).len()),
    ensures
        instruction(ts, pos) == Ok::<_, int>(
            (
                InstrModel::Mutate(name, e),
                written_instruction(InstrModel::Mutate(name, e)).len(),
            ),
        ),
{
    let w = written_instruction(InstrModel::Mutate(name, e));
    let n = w.len() as int;
    let we = written(e, 1);
    lemma_part(ts, pos, w, 2, n);
    assert(w.subrange(2, n) =~= we);
    assert(w[0] == TokenModel::Identifier(name) && w[1] == TokenModel::Assign);
    lemma_expression_read_back(ts, pos + 2, e);
}

/// A written conditional is read back.
proof fn lemma_conditional_read_back(ts: Seq<TokenModel>, pos: int, i: InstrModel)
    requires
        i is IfElse,
        writable_instruction(i),
        holds(ts, pos, written_instruction(i)),
    ensures
        instruction(ts, pos) == Ok::<_, int>((i, written_instruction(i).len())),
    decreases i, 0nat,
{
    let w = written_instruction(i);
    let n = w.len() as int;
    match i {
        InstrModel::IfElse { cond, cond_true, cond_false } => {
            let wc = written(cond, 1);
            let wy = written_instruction(*cond_true);
            let wn = written_instruction(*cond_false);
            let yes = (*cond_true)->Block_0;
            let no = (*cond_false)->Block_0;
            let a = 1 + wc.len() as int;
            let b = a + wy.len();
            assert(w == seq![TokenModel::If] + wc + wy + seq![TokenModel::Else] + wn);
            lemma_part(ts, pos, w, 1, a);
            assert(w.subrange(1, a) =~= wc);
            lemma_part(ts, pos, w, a, b);
            assert(w.subrange(a, b) =~= wy);
            lemma_part(ts, pos, w, b + 1, n);
            assert(w.subrange(b + 1, n) =~= wn);
            assert(w[0] == TokenModel::If);
            assert(w[a] == wy[0]);
            assert(w[b] == TokenModel::Else);
            lemma_expression_read_back(ts, pos + 1, cond);
            lemma_block_writable(*cond_true);
            lemma_block_writable(*cond_false);
            lemma_block_read_back(ts, pos + a, yes);
            lemma_block_read_back(ts, pos + b + 1, no);
            assert(block(ts, pos + 1 + wc.len()) == Ok::<_, int>((yes, wy.len())));
            assert(block(ts, pos + 2 + wc.len() + wy.len()) == Ok::<_, int>((no, wn.len())));
        },
        _ => {},
    }
}

/// A written loop is read back.
proof fn lemma_loop_read_back(ts: Seq<TokenModel>, pos: int, i: InstrModel)
    requires
        i is While,
        writable_instruction(i),
        holds(ts, pos, written_instruction(i)),
    ensures
        instruction(ts, pos) == Ok::<_, int>((i, written_instruction(i).len())),
    decreases i, 0nat,
{
    let w = written_instruction(i);
    let n = w.len() as int;
    match i {
        InstrModel::While(cond, body) => {
            let wc = written(cond, 1);
            let wb = written_instruction(*body);
            let stmts = (*body)->Block_0;
            let a = 1 + wc.len() as int;
            assert(w == seq![TokenModel::While] + wc + wb);
            lemma_part(ts, pos, w, 1, a);
            assert(w.subrange(1, a) =~= wc);
            lemma_part(ts, pos, w, a, n);
            assert(w.subrange(a, n) =~= wb);
            assert(w[0] == TokenModel::While);
            assert(w[a] == wb[0]);
            lemma_expression_read_back(ts, pos + 1, cond);
            lemma_block_writable(*body);
            lemma_block_read_back(ts, pos + a, stmts);
            assert(block(ts, pos + 1 + wc.len()) == Ok::<_, int>((stmts, wb.len())));
        },
        _ => {},
    }
}

/// A written instruction is read back, where a statement may end after it.
pub proof fn lemma_instruction_read_back(ts: Seq<TokenModel>, pos: int, i: InstrModel)
    requires
        writable_instruction(i),
        holds(ts, pos, written_instruction(i)),
        closes(ts, pos + written_instruction(i).len()),
    ensures
        instruction(ts, pos) == Ok::<_, int>((i, written_instruction(i).len())),
    decreases i, 1nat,
{
    match i {
        InstrModel::Expr(e) => lemma_plain_read_back(ts, pos, e),
        InstrModel::Let(name, e) => lemma_declaration_read_back(ts, pos, name, e, false),
        InstrModel::LetMut(name, e) => lemma_declaration_read_back(ts, pos, name, e, true),
        InstrModel::Mutate(name, e) => lemma_mutation_read_back(ts, pos, name, e),
        InstrModel::IfElse { .. } => lemma_conditional_read_back(ts, pos, i),
        InstrModel::While(..) => lemma_loop_read_back(ts, pos, i),
        InstrModel::Block(stmts) => {
            lemma_part(ts, pos, written_instruction(i), 0, 1);
            lemma_block_read_back(ts, pos, stmts);
        },
    }
}

/// The statements of a block that can be written can be written.
proof fn lemma_block_writable(i: InstrModel)
    requires
        i is Block,
        writable_instruction(i),
    ensures
        all_writable(i->Block_0),
{
}

/// Whether each of the statements can be written.
pub open spec fn all_writable(stmts: Seq<InstrModel>) -> bool {
    forall|k: int| 0 <= k < stmts.len() ==> writable_instruction(#[trigger] stmts[k])
}

/// A written block is read back.
pub proof fn lemma_block_read_back(ts: Seq<TokenModel>, pos: int, stmts: Seq<InstrModel>)
    requires
        all_writable(stmts),
        holds(ts, pos, written_instruction(InstrModel::Block(stmts))),
    ensures
        block(ts, pos) == Ok::<_, int>(
            (stmts, written_instruction(InstrModel::Block(stmts)).len()),
        ),
    decreases stmts, stmts.len() + 1,
{
    let w = written_instruction(InstrModel::Block(stmts));
    let inside = joined(stmts, 0);
    let n = w.len() as int;
    lemma_part(ts, pos, w, 1, n);
    assert(w.subrange(1, n) =~= inside + seq![TokenModel::BlockClose]);
    assert(w[0] == TokenModel::BlockOpen);
    if stmts.len() > 0 {
        lemma_instruction_start(stmts[0]);
        assert(w[1] == written_instruction(stmts[0])[0]);
    } else {
        assert(w[1] == TokenModel::BlockClose);
    }
    assert(separators(ts, pos + 1) == 0);
    lemma_statements_read_back(ts, pos + 1, stmts, 0);
    assert(stmts.subrange(0, stmts.len() as int) =~= stmts);
}

/// The written statements of a block from index `from` on, with the brace
/// that closes the block, are read back.
pub proof fn lemma_statements_read_back(
    ts: Seq<TokenModel>,
    pos: int,
    stmts: Seq<InstrModel>,
    from: int,
)
    requires
        0 <= from <= stmts.len(),
        all_writable(stmts),
        holds(ts, pos, joined(stmts, from) + seq![TokenModel::BlockClose]),
    ensures
        statements(ts, pos) == Ok::<_, int>(
            (stmts.subrange(from, stmts.len() as int), joined(stmts, from).len() + 1),
        ),
    decreases stmts, stmts.len() - from,
{
    let w = joined(stmts, from) + seq![TokenModel::BlockClose];
    let n = w.len() as int;
    let rest = stmts.subrange(from, stmts.len() as int);
    if from == stmts.len() {
        lemma_part(ts, pos, w, 0, 1);
        assert(w[0] == TokenModel::BlockClose);
        assert(rest =~= Seq::empty());
        assert(statements(ts, pos) == Ok::<_, int>((rest, 1nat)));
    } else {
        let first = stmts[from];
        let wf = written_instruction(first);
        let a = wf.len() as int;
        lemma_instruction_start(first);
        lemma_part(ts, pos, w, 0, a);
        assert(w.subrange(0, a) =~= wf);
        assert(w[0] == wf[0]);
        if from == stmts.len() - 1 {
            assert(w[a] == TokenModel::BlockClose);
            lemma_instruction_read_back(ts, pos, first);
            assert(rest =~= seq![first]);
            assert(statements(ts, pos) == Ok::<_, int>((rest, (a + 1) as nat)));
        } else {
            let more = joined(stmts, from + 1) + seq![TokenModel::BlockClose];
            assert(w =~= wf + seq![TokenModel::Separator] + more);
            assert(w[a] == TokenModel::Separator);
            lemma_instruction_read_back(ts, pos, first);
            lemma_part(ts, pos, w, a + 1, n);
            assert(w.subrange(a + 1, n) =~= more);
            lemma_instruction_start(stmts[from + 1]);
            assert(w[a + 1] == written_instruction(stmts[from + 1])[0]);
            assert(separators(ts, pos + a + 1) == 0);
            lemma_statements_read_back(ts, pos + a + 1, stmts, from + 1);
            assert(rest =~= seq![first] + stmts.subrange(from + 1, stmts.len() as int));
            assert(statements(ts, pos + a + 1) == Ok::<_, int>(
                (stmts.subrange(from + 1, stmts.len() as int), more.len()),
            ));
            assert(statements(ts, pos) == Ok::<_, int>((rest, (a + 1 + more.len()) as nat)));
        }
    }
}

/// Reading what was written gives back what was written: the tokens of an
/// instruction that can be written make up that instruction.
pub proof fn theorem_read_back(i: InstrModel)
    requires
        writable_instruction(i),
    ensures
        line(written_instruction(i)) == Ok::<_, int>(i),
{
    let ts = written_instruction(i);
    lemma_instruction_start(i);
    assert(ts.subrange(0, ts.len() as int) =~= ts);
    assert(separators(ts, 0) == 0);
    lemma_instruction_read_back(ts, 0, i);
    assert(separators(ts, ts.len() as int) == 0);
}

/// The expression of an operator between two operands.
pub open spec fn joined_by(left: ExprModel, op: Operator, right: ExprModel) -> ExprModel {
    ExprModel::BinOp(Box::new(left), op.text(), Box::new(right))
}

/// The tokens of an operator between two operands that need no
/// parentheses.
proof fn lemma_joined_by(left: ExprModel, op: Operator, right: ExprModel)
    requires
        writable(left),
        writable(right),
        1 <= op.tier() <= top_tier(left),
        op.tier() < top_tier(right),
    ensures
        writable(joined_by(left, op, right)),
        top_tier(joined_by(left, op, right)) == op.tier(),
        bare(joined_by(left, op, right)) == bare(left) + seq![TokenModel::Infix(op)] + bare(
            right,
        ),
{
    Operator::lemma_named_text(op);
    assert(written(left, op.tier()) == bare(left));
    assert(written(right, op.tier() + 1) == bare(right));
}

/// Precedence: of two operators in a row between operands without
/// operators of their own, the one of the higher tier takes the operand
/// between them, whichever comes first.
pub proof fn law_precedence(
    a: ExprModel,
    low: Operator,
    b: ExprModel,
    high: Operator,
    c: ExprModel,
)
    requires
        writable(a) && top_tier(a) == 4,
        writable(b) && top_tier(b) == 4,
        writable(c) && top_tier(c) == 4,
        1 <= low.tier() < high.tier(),
    ensures
        line(
            bare(a) + seq![TokenModel::Infix(low)] + bare(b) + seq![TokenModel::Infix(high)]
                + bare(c),
        ) == Ok::<_, int>(InstrModel::Expr(joined_by(a, low, joined_by(b, high, c)))),
        line(
            bare(a) + seq![TokenModel::Infix(high)] + bare(b) + seq![TokenModel::Infix(low)]
                + bare(c),
        ) == Ok::<_, int>(InstrModel::Expr(joined_by(joined_by(a, high, b), low, c))),
{
    let right = joined_by(b, high, c);
    let first = joined_by(a, low, right);
    lemma_joined_by(b, high, c);
    lemma_joined_by(a, low, right);
    assert(written_instruction(InstrModel::Expr(first)) =~= bare(a) + seq![
        TokenModel::Infix(low),
    ] + bare(b) + seq![TokenModel::Infix(high)] + bare(c));
    theorem_read_back(InstrModel::Expr(first));
    let left = joined_by(a, high, b);
    let second = joined_by(left, low, c);
    lemma_joined_by(a, high, b);
    lemma_joined_by(left, low, c);
    assert(written_instruction(InstrModel::Expr(second)) =~= bare(a) + seq![
        TokenModel::Infix(high),
    ] + bare(b) + seq![TokenModel::Infix(low)] + bare(c));
    theorem_read_back(InstrModel::Expr(second));
}

/// Association: two operators of one tier in a row are taken from the left.
pub proof fn law_left_association(
    a: ExprModel,
    first: Operator,
    b: ExprModel,
    second: Operator,
    c: ExprModel,
)
    requires
        writable(a) && top_tier(a) == 4,
        writable(b) && top_tier(b) == 4,
        writable(c) && top_tier(c) == 4,
        1 <= first.tier() == second.tier(),
    ensures
        line(
            bare(a) + seq![TokenModel::Infix(first)] + bare(b) + seq![TokenModel::Infix(second)]
                + bare(c),
        ) == Ok::<_, int>(InstrModel::Expr(joined_by(joined_by(a, first, b), second, c))),
{
    let left = joined_by(a, first, b);
    let whole = joined_by(left, second, c);
    lemma_joined_by(a, first, b);
    lemma_joined_by(left, second, c);
    assert(written_instruction(InstrModel::Expr(whole)) =~= bare(a) + seq![
        TokenModel::Infix(first),
    ] + bare(b) + seq![TokenModel::Infix(second)] + bare(c));
    theorem_read_back(InstrModel::Expr(whole));
}

} // verus!
