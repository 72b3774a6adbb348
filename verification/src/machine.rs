//! The evaluation of instructions, one step at a time.
//!
//! A loop of the language may run forever, and a block reports the result of
//! each of its statements as soon as it is known. So an instruction is not
//! evaluated by one call: a [`Machine`] is started on it and stepped by its
//! driver, which acts on what each step hands back.

use vstd::prelude::*;
use crate::ast::{ExprModel, InstrModel, Instruction, Value, lemma_block_model, models};
use crate::error::{EvalError, EvalErrorModel, Outcome, outcome_of};
use crate::eval::{eval_expr, value_of};
use crate::namespace::{NameSpace, Scopes, assign, declare, declared_here, entered, is_mutable};

verus! {

/// What the machine is about to do.
#[derive(Debug)]
pub enum Focus<'a> {
    /// Evaluate this instruction.
    Run(&'a Instruction),
    /// Hand this result to whatever waits for it.
    Return(Result<Value, EvalError>),
}

/// What waits for the result of the instruction in focus.
#[derive(Debug)]
pub enum Cont<'a> {
    /// A block; the number is the index of its next statement.
    Block(&'a Vec<Instruction>, usize),
    /// A loop, given as the `While` instruction, whose body is running.
    Loop(&'a Instruction),
}

/// An evaluation in progress.
#[derive(Debug)]
pub struct Machine<'a> {
    focus: Focus<'a>,
    conts: Vec<Cont<'a>>,
}

/// What a step hands back to the driver.
#[derive(Debug)]
pub enum Progress<'a> {
    /// Nothing to act on; step again.
    Running(Machine<'a>),
    /// A statement of a block has ended with this result; step again.
    Reported(Machine<'a>, Result<Value, EvalError>),
    /// The instruction has ended with this result.
    Finished(Result<Value, EvalError>),
}

/// The model of a [`Focus`].
pub ghost enum FocusModel {
    Run(InstrModel),
    Return(Outcome),
}

/// The model of a [`Cont`].
pub ghost enum ContModel {
    Block(Seq<InstrModel>, int),
    Loop(InstrModel),
}

/// The model of a [`Machine`]: its focus, and what waits, the outermost first.
pub ghost struct MachineModel {
    pub focus: FocusModel,
    pub conts: Seq<ContModel>,
}

/// The model of a [`Progress`].
pub ghost enum ProgressModel {
    Running(MachineModel),
    Reported(MachineModel, Outcome),
    Finished(Outcome),
}

impl<'a> View for Focus<'a> {
    type V = FocusModel;

    open spec fn view(&self) -> FocusModel {
        match self {
            Focus::Run(i) => FocusModel::Run(i@),
            Focus::Return(r) => FocusModel::Return(outcome_of(*r)),
        }
    }
}

impl<'a> View for Cont<'a> {
    type V = ContModel;

    open spec fn view(&self) -> ContModel {
        match self {
            Cont::Block(stmts, next) => ContModel::Block(models(stmts@), *next as int),
            Cont::Loop(w) => ContModel::Loop(w@),
        }
    }
}

impl<'a> View for Machine<'a> {
    type V = MachineModel;

    closed spec fn view(&self) -> MachineModel {
        MachineModel {
            focus: self.focus@,
            conts: Seq::new(self.conts@.len(), |i: int| self.conts@[i]@),
        }
    }
}

impl<'a> View for Progress<'a> {
    type V = ProgressModel;

    open spec fn view(&self) -> ProgressModel {
        match self {
            Progress::Running(m) => ProgressModel::Running(m@),
            Progress::Reported(m, r) => ProgressModel::Reported(m@, outcome_of(*r)),
            Progress::Finished(r) => ProgressModel::Finished(outcome_of(*r)),
        }
    }
}

/// The outcome of a declaration of `name` with the value of `e`, and the
/// scopes after it. A name that the innermost frame already declares is
/// refused, and the value is the outcome otherwise.
pub open spec fn declaration(name: Seq<char>, e: ExprModel, mutable: bool, s: Scopes) -> (
    Outcome,
    Scopes,
) {
    match value_of(e, s) {
        Err(err) => (Err(err), s),
        Ok(v) => if declared_here(s, name) {
            (Err(EvalErrorModel::AlreadyDefined(name)), s)
        } else {
            (Ok(v), declare(s, name, v, mutable))
        },
    }
}

/// The outcome of giving `name` the value of `e`, and the scopes after it.
pub open spec fn mutation(name: Seq<char>, e: ExprModel, s: Scopes) -> (Outcome, Scopes) {
    match value_of(e, s) {
        Err(err) => (Err(err), s),
        Ok(v) => if is_mutable(s, name) {
            (Ok(v), assign(s, name, v))
        } else {
            (Err(EvalErrorModel::NotMutable(name)), s)
        },
    }
}

/// What a condition decides. Anything but a boolean is a type error, a
/// failure of the condition too.
pub open spec fn decision(cond: ExprModel, s: Scopes) -> Result<bool, EvalErrorModel> {
    match value_of(cond, s) {
        Ok(Value::Boolean(b)) => Ok(b),
        _ => Err(EvalErrorModel::TypeError),
    }
}

/// The outcome of leaving a block, and the scopes after it. The root frame
/// is never left.
pub open spec fn leaving(s: Scopes) -> (Outcome, Scopes) {
    if s.len() > 1 {
        (Ok(Value::Unit), s.drop_last())
    } else {
        (Err(EvalErrorModel::CannotExitRoot), s)
    }
}

/// A block goes on with its statement `next`, or ends when there is none.
pub open spec fn proceed(stmts: Seq<InstrModel>, next: int, conts: Seq<ContModel>, s: Scopes) -> (
    MachineModel,
    Scopes,
) {
    if 0 <= next < stmts.len() {
        (
            MachineModel {
                focus: FocusModel::Run(stmts[next]),
                conts: conts.push(ContModel::Block(stmts, next + 1)),
            },
            s,
        )
    } else {
        (MachineModel { focus: FocusModel::Return(leaving(s).0), conts }, leaving(s).1)
    }
}

/// One step on an instruction in focus.
pub open spec fn run_step(i: InstrModel, conts: Seq<ContModel>, s: Scopes) -> (
    MachineModel,
    Scopes,
) {
    match i {
        InstrModel::Expr(e) => (
            MachineModel { focus: FocusModel::Return(value_of(e, s)), conts },
            s,
        ),
        InstrModel::Let(name, e) => (
            MachineModel { focus: FocusModel::Return(declaration(name, e, false, s).0), conts },
            declaration(name, e, false, s).1,
        ),
        InstrModel::LetMut(name, e) => (
            MachineModel { focus: FocusModel::Return(declaration(name, e, true, s).0), conts },
            declaration(name, e, true, s).1,
        ),
        InstrModel::Mutate(name, e) => (
            MachineModel { focus: FocusModel::Return(mutation(name, e, s).0), conts },
            mutation(name, e, s).1,
        ),
        InstrModel::IfElse { cond, cond_true, cond_false } => match decision(cond, s) {
            Ok(true) => (MachineModel { focus: FocusModel::Run(*cond_true), conts }, s),
            Ok(false) => (MachineModel { focus: FocusModel::Run(*cond_false), conts }, s),
            Err(err) => (MachineModel { focus: FocusModel::Return(Err(err)), conts }, s),
        },
        InstrModel::While(cond, body) => match decision(cond, s) {
            Ok(true) => (
                MachineModel {
                    focus: FocusModel::Run(*body),
                    conts: conts.push(ContModel::Loop(i)),
                },
                s,
            ),
            Ok(false) => (
                MachineModel { focus: FocusModel::Return(Ok(Value::Unit)), conts },
                s,
            ),
            Err(err) => (MachineModel { focus: FocusModel::Return(Err(err)), conts }, s),
        },
        InstrModel::Block(stmts) => proceed(stmts, 0, conts, entered(s)),
    }
}

/// One step of the machine.
///
/// An instruction in focus is started: a simple one gives its result, a
/// conditional puts the chosen branch in focus, a loop whose condition holds
/// puts its body in focus and waits, a block opens a frame and puts its first
/// statement in focus. A result in focus goes to what waits for it: a loop
/// runs again unless the result is a failure, which ends it; a block reports
/// the result, failure or not, and goes on to its next statement; and with
/// nothing waiting the evaluation has finished.
pub open spec fn step_of(m: MachineModel, s: Scopes) -> (ProgressModel, Scopes) {
    match m.focus {
        FocusModel::Run(i) => (
            ProgressModel::Running(run_step(i, m.conts, s).0),
            run_step(i, m.conts, s).1,
        ),
        FocusModel::Return(r) => if m.conts.len() == 0 {
            (ProgressModel::Finished(r), s)
        } else {
            match m.conts.last() {
                ContModel::Loop(w) => (
                    ProgressModel::Running(
                        MachineModel {
                            focus: if r is Ok {
                                FocusModel::Run(w)
                            } else {
                                FocusModel::Return(r)
                            },
                            conts: m.conts.drop_last(),
                        },
                    ),
                    s,
                ),
                ContModel::Block(stmts, next) => (
                    ProgressModel::Reported(proceed(stmts, next, m.conts.drop_last(), s).0, r),
                    proceed(stmts, next, m.conts.drop_last(), s).1,
                ),
            }
        },
    }
}

/// The machine that is about to evaluate `i`.
pub open spec fn started(i: InstrModel) -> MachineModel {
    MachineModel { focus: FocusModel::Run(i), conts: Seq::empty() }
}

/// Whether a machine is still running.
pub ghost enum Status {
    Active(MachineModel),
    Halted(Outcome),
}

/// A machine with the scopes it works on and what it has reported so far.
pub ghost struct Config {
    pub status: Status,
    pub scopes: Scopes,
    pub reports: Seq<Outcome>,
}

/// The configuration after one step of the driver: the machine steps, and
/// what it reports is noted. A halted machine stays as it is.
#[verifier::opaque]
pub open spec fn advance(c: Config) -> Config {
    match c.status {
        Status::Halted(_) => c,
        Status::Active(m) => match step_of(m, c.scopes).0 {
            ProgressModel::Running(next) => Config {
                status: Status::Active(next),
                scopes: step_of(m, c.scopes).1,
                reports: c.reports,
            },
            ProgressModel::Reported(next, r) => Config {
                status: Status::Active(next),
                scopes: step_of(m, c.scopes).1,
                reports: c.reports.push(r),
            },
            ProgressModel::Finished(r) => Config {
                status: Status::Halted(r),
                scopes: step_of(m, c.scopes).1,
                reports: c.reports,
            },
        },
    }
}

/// The configuration after `steps` steps.
pub open spec fn run(c: Config, steps: nat) -> Config
    decreases steps,
{
    if steps == 0 {
        c
    } else {
        run(advance(c), (steps - 1) as nat)
    }
}

/// A running machine.
pub open spec fn active(
    focus: FocusModel,
    conts: Seq<ContModel>,
    s: Scopes,
    reports: Seq<Outcome>,
) -> Config {
    Config { status: Status::Active(MachineModel { focus, conts }), scopes: s, reports }
}

/// Steps add up.
pub proof fn lemma_run_on(c: Config, a: nat, b: nat)
    ensures
        run(c, a + b) == run(run(c, a), b),
    decreases a,
{
    if a > 0 {
        lemma_run_on(advance(c), (a - 1) as nat, b);
    }
}

/// A halted machine stays as it is.
pub proof fn lemma_halted_stays(c: Config, steps: nat)
    requires
        c.status is Halted,
    ensures
        run(c, steps) == c,
    decreases steps,
{
    reveal(advance);
    if steps > 0 {
        lemma_halted_stays(c, (steps - 1) as nat);
    }
}

/// The models of results, one by one.
pub open spec fn outcomes(results: Seq<Result<Value, EvalError>>) -> Seq<Outcome> {
    Seq::new(results.len(), |i: int| outcome_of(results[i]))
}

/// What a condition decides.
fn decide<NS: NameSpace>(cond: &crate::ast::Expression, ns: &NS) -> (r: Result<bool, EvalError>)
    requires
        ns.wf(),
    ensures
        match r {
            Ok(b) => decision(cond@, ns.scopes()) == Ok::<bool, EvalErrorModel>(b),
            Err(e) => decision(cond@, ns.scopes()) == Err::<bool, EvalErrorModel>(e@),
        },
{
    match eval_expr(cond, ns) {
        Ok(Value::Boolean(b)) => Ok(b),
        _ => Err(EvalError::TypeError),
    }
}

/// Declares `name` with the value of `e`.
fn declare_value<NS: NameSpace>(
    name: &String,
    e: &crate::ast::Expression,
    mutable: bool,
    ns: &mut NS,
) -> (r: Result<Value, EvalError>)
    requires
        old(ns).wf(),
    ensures
        final(ns).wf(),
        (outcome_of(r), final(ns).scopes()) == declaration(name@, e@, mutable, old(ns).scopes()),
{
    let v = match eval_expr(e, ns) {
        Ok(v) => v,
        Err(err) => {
            return Err(err);
        },
    };
    let done = if mutable {
        ns.add_mutable(name.clone(), v)
    } else {
        ns.add(name.clone(), v)
    };
    match done {
        Ok(()) => Ok(v),
        Err(err) => Err(EvalError::from_namespace(err, name.clone())),
    }
}

/// Gives `name` the value of `e`.
fn mutate_value<NS: NameSpace>(name: &String, e: &crate::ast::Expression, ns: &mut NS) -> (r:
    Result<Value, EvalError>)
    requires
        old(ns).wf(),
    ensures
        final(ns).wf(),
        (outcome_of(r), final(ns).scopes()) == mutation(name@, e@, old(ns).scopes()),
{
    let v = match eval_expr(e, ns) {
        Ok(v) => v,
        Err(err) => {
            return Err(err);
        },
    };
    match ns.mutate(name.clone(), v) {
        Ok(()) => Ok(v),
        Err(err) => Err(EvalError::from_namespace(err, name.clone())),
    }
}

impl<'a> Machine<'a> {
    /// A machine that is about to evaluate `instruction`.
    pub fn start(instruction: &'a Instruction) -> (m: Machine<'a>)
        ensures
            m@ == started(instruction@),
    {
        let m = Machine { focus: Focus::Run(instruction), conts: Vec::new() };
        assert(m@.conts =~= Seq::empty());
        m
    }

    /// Goes on with statement `next` of a block, or leaves the block.
    fn proceed<NS: NameSpace>(
        stmts: &'a Vec<Instruction>,
        next: usize,
        conts: Vec<Cont<'a>>,
        ns: &mut NS,
    ) -> (m: Machine<'a>)
        requires
            old(ns).wf(),
        ensures
            final(ns).wf(),
            (m@, final(ns).scopes()) == proceed(
                models(stmts@),
                next as int,
                Seq::new(conts@.len(), |i: int| conts@[i]@),
                old(ns).scopes(),
            ),
    {
        let ghost before = Seq::new(conts@.len(), |i: int| conts@[i]@);
        let mut conts = conts;
        if next < stmts.len() {
            conts.push(Cont::Block(stmts, next + 1));
            let m = Machine { focus: Focus::Run(&stmts[next]), conts };
            assert(m@.conts =~= before.push(ContModel::Block(models(stmts@), next + 1)));
            m
        } else {
            let r = match ns.exit_block() {
                Ok(()) => Ok(Value::Unit),
                Err(_) => Err(EvalError::CannotExitRoot),
            };
            let m = Machine { focus: Focus::Return(r), conts };
            assert(m@.conts =~= before);
            m
        }
    }

    /// Takes one step of the evaluation, on the namespace `ns`.
    pub fn step<NS: NameSpace>(self, ns: &mut NS) -> (p: Progress<'a>)
        requires
            old(ns).wf(),
        ensures
            final(ns).wf(),
            (p@, final(ns).scopes()) == step_of(self@, old(ns).scopes()),
    {
        let ghost before = self@;
        let Machine { focus, conts } = self;
        let mut conts = conts;
        match focus {
            Focus::Run(instruction) => {
                let m = match instruction {
                    Instruction::Expr(e) => {
                        let r = eval_expr(e, ns);
                        Machine { focus: Focus::Return(r), conts }
                    },
                    Instruction::Let(name, e) => {
                        let r = declare_value(name, e, false, ns);
                        Machine { focus: Focus::Return(r), conts }
                    },
                    Instruction::LetMut(name, e) => {
                        let r = declare_value(name, e, true, ns);
                        Machine { focus: Focus::Return(r), conts }
                    },
                    Instruction::Mutate(name, e) => {
                        let r = mutate_value(name, e, ns);
                        Machine { focus: Focus::Return(r), conts }
                    },
                    Instruction::IfElse { cond, cond_true, cond_false } => {
                        match decide(cond, ns) {
                            Ok(true) => Machine { focus: Focus::Run(&**cond_true), conts },
                            Ok(false) => Machine { focus: Focus::Run(&**cond_false), conts },
                            Err(err) => Machine { focus: Focus::Return(Err(err)), conts },
                        }
                    },
                    Instruction::While(cond, body) => {
                        match decide(cond, ns) {
                            Ok(true) => {
                                conts.push(Cont::Loop(instruction));
                                Machine { focus: Focus::Run(&**body), conts }
                            },
                            Ok(false) => Machine { focus: Focus::Return(Ok(Value::Unit)), conts },
                            Err(err) => Machine { focus: Focus::Return(Err(err)), conts },
                        }
                    },
                    Instruction::Block(stmts) => {
                        proof {
                            lemma_block_model(*stmts);
                        }
                        ns.enter_block();
                        Machine::proceed(stmts, 0, conts, ns)
                    },
                };
                assert(m@.conts =~= run_step(instruction@, before.conts, old(ns).scopes()).0.conts);
                Progress::Running(m)
            },
            Focus::Return(r) => {
                match conts.pop() {
                    None => Progress::Finished(r),
                    Some(Cont::Loop(w)) => {
                        let focus = if r.is_ok() {
                            Focus::Run(w)
                        } else {
                            Focus::Return(r)
                        };
                        let m = Machine { focus, conts };
                        assert(m@.conts =~= before.conts.drop_last());
                        Progress::Running(m)
                    },
                    Some(Cont::Block(stmts, next)) => {
                        assert(Seq::new(conts@.len(), |i: int| conts@[i]@)
                            =~= before.conts.drop_last());
                        let m = Machine::proceed(stmts, next, conts, ns);
                        Progress::Reported(m, r)
                    },
                }
            },
        }
    }
}

/// Takes one step of a machine and notes what it reports. Gives the
/// machine back, or the result with which it has halted.
fn drive<'a, NS: NameSpace>(
    machine: Machine<'a>,
    ns: &mut NS,
    reports: &mut Vec<Result<Value, EvalError>>,
) -> (r: Result<Machine<'a>, Result<Value, EvalError>>)
    requires
        old(ns).wf(),
    ensures
        final(ns).wf(),
        ({
            let next = advance(
                Config {
                    status: Status::Active(machine@),
                    scopes: old(ns).scopes(),
                    reports: outcomes(old(reports)@),
                },
            );
            &&& final(ns).scopes() == next.scopes
            &&& outcomes(final(reports)@) == next.reports
            &&& match r {
                Ok(m) => next.status == Status::Active(m@),
                Err(result) => next.status == Status::Halted(outcome_of(result)),
            }
        }),
{
    reveal(advance);
    match machine.step(ns) {
        Progress::Running(next) => Ok(next),
        Progress::Reported(next, r) => {
            reports.push(r);
            assert(outcomes(reports@) =~= outcomes(old(reports)@).push(outcome_of(r)));
            Ok(next)
        },
        Progress::Finished(r) => Err(r),
    }
}

/// Evaluates an instruction on the namespace `ns` by stepping a machine at
/// most `budget` times, and adds what the machine reports to `reports`. The
/// result is that of the instruction, or nothing where the machine has not
/// halted within the budget; the namespace is then as the last step left it.
pub fn eval<NS: NameSpace>(
    instruction: &Instruction,
    ns: &mut NS,
    budget: u64,
    reports: &mut Vec<Result<Value, EvalError>>,
) -> (r: Option<Result<Value, EvalError>>)
    requires
        old(ns).wf(),
    ensures
        final(ns).wf(),
        ({
            let end = run(
                Config {
                    status: Status::Active(started(instruction@)),
                    scopes: old(ns).scopes(),
                    reports: outcomes(old(reports)@),
                },
                budget as nat,
            );
            &&& final(ns).scopes() == end.scopes
            &&& outcomes(final(reports)@) == end.reports
            &&& match r {
                Some(result) => end.status == Status::Halted(outcome_of(result)),
                None => end.status is Active,
            }
        }),
{
    let ghost first = Config {
        status: Status::Active(started(instruction@)),
        scopes: ns.scopes(),
        reports: outcomes(reports@),
    };
    let mut machine = Machine::start(instruction);
    let mut left: u64 = budget;
    while left > 0
        invariant
            ns.wf(),
            first == (Config {
                status: Status::Active(started(instruction@)),
                scopes: old(ns).scopes(),
                reports: outcomes(old(reports)@),
            }),
            run(first, budget as nat) == run(
                Config {
                    status: Status::Active(machine@),
                    scopes: ns.scopes(),
                    reports: outcomes(reports@),
                },
                left as nat,
            ),
        decreases left,
    {
        let ghost here = Config {
            status: Status::Active(machine@),
            scopes: ns.scopes(),
            reports: outcomes(reports@),
        };
        assert(run(here, left as nat) == run(advance(here), (left - 1) as nat));
        match drive(machine, ns, reports) {
            Ok(next) => {
                machine = next;
            },
            Err(r) => {
                proof {
                    lemma_halted_stays(advance(here), (left - 1) as nat);
                }
                return Some(r);
            },
        }
        left = left - 1;
    }
    None
}

} // verus!
