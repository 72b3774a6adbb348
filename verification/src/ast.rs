//! The values and syntax trees of the language, with their mathematical models.

use vstd::prelude::*;

verus! {

/// A runtime value. Values are small and copied freely.
#[derive(Debug, Clone, Copy, PartialEq, Eq, Structural)]
pub enum Value {
    Integer(i32),
    Boolean(bool),
    Unit,
}

/// An expression: a constant, a variable, or a binary operation whose
/// operator is kept as written (`"+"`, `"<="`, ...).
#[derive(Debug, PartialEq, Eq)]
pub enum Expression {
    Const(Value),
    Var(String),
    BinOp(Box<Expression>, String, Box<Expression>),
}

/// An instruction of the language.
#[derive(Debug, PartialEq, Eq)]
pub enum Instruction {
    Expr(Expression),
    IfElse { cond: Expression, cond_true: Box<Instruction>, cond_false: Box<Instruction> },
    Let(String, Expression),
    LetMut(String, Expression),
    Mutate(String, Expression),
    While(Expression, Box<Instruction>),
    Block(Vec<Instruction>),
}

/// The model of an [`Expression`]: the same tree over sequences of characters.
pub ghost enum ExprModel {
    Const(Value),
    Var(Seq<char>),
    BinOp(Box<ExprModel>, Seq<char>, Box<ExprModel>),
}

/// The model of an [`Instruction`].
pub ghost enum InstrModel {
    Expr(ExprModel),
    IfElse { cond: ExprModel, cond_true: Box<InstrModel>, cond_false: Box<InstrModel> },
    Let(Seq<char>, ExprModel),
    LetMut(Seq<char>, ExprModel),
    Mutate(Seq<char>, ExprModel),
    While(ExprModel, Box<InstrModel>),
    Block(Seq<InstrModel>),
}

impl Expression {
    /// The tree that this expression stands for.
    pub open spec fn model(self) -> ExprModel
        decreases self,
    {
        match self {
            Expression::Const(v) => ExprModel::Const(v),
            Expression::Var(name) => ExprModel::Var(name@),
            Expression::BinOp(left, op, right) => ExprModel::BinOp(
                Box::new(left.model()),
                op@,
                Box::new(right.model()),
            ),
        }
    }
}

impl View for Expression {
    type V = ExprModel;

    open spec fn view(&self) -> ExprModel {
        self.model()
    }
}

impl Instruction {
    /// The tree that this instruction stands for.
    pub open spec fn model(self) -> InstrModel
        decreases self,
    {
        match self {
            Instruction::Expr(e) => InstrModel::Expr(e@),
            Instruction::IfElse { cond, cond_true, cond_false } => InstrModel::IfElse {
                cond: cond@,
                cond_true: Box::new(cond_true.model()),
                cond_false: Box::new(cond_false.model()),
            },
            Instruction::Let(name, e) => InstrModel::Let(name@, e@),
            Instruction::LetMut(name, e) => InstrModel::LetMut(name@, e@),
            Instruction::Mutate(name, e) => InstrModel::Mutate(name@, e@),
            Instruction::While(cond, body) => InstrModel::While(cond@, Box::new(body.model())),
            Instruction::Block(stmts) => InstrModel::Block(
                Seq::new(
                    stmts@.len(),
                    |i: int|
                        if 0 <= i < stmts@.len() {
                            stmts@[i].model()
                        } else {
                            InstrModel::Block(Seq::empty())
                        },
                ),
            ),
        }
    }
}

impl View for Instruction {
    type V = InstrModel;

    open spec fn view(&self) -> InstrModel {
        self.model()
    }
}

/// The models of a sequence of instructions, one by one.
pub open spec fn models(stmts: Seq<Instruction>) -> Seq<InstrModel> {
    Seq::new(stmts.len(), |i: int| stmts[i]@)
}

/// A block stands for the block of its statements' models.
pub proof fn lemma_block_model(stmts: Vec<Instruction>)
    ensures
        Instruction::Block(stmts)@ == InstrModel::Block(models(stmts@)),
{
    assert(Instruction::Block(stmts)@->Block_0 =~= models(stmts@));
}

} // verus!
