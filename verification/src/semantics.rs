//! What an instruction means, and that the machine computes it.
//!
//! The meaning of an instruction is given here in one piece, by recursion on
//! the instruction, as its result, the scopes it leaves behind, and what its
//! blocks report on the way. A loop need not end, so the recursion takes a
//! number of nested turns that it may use, and gives nothing where that
//! number does not suffice.

use vstd::prelude::*;
use crate::ast::{ExprModel, InstrModel, Value};
use crate::error::{EvalErrorModel, Outcome};
use crate::eval::value_of;
use crate::machine::{
    Config,
    ContModel,
    FocusModel,
    Status,
    active,
    advance,
    decision,
    declaration,
    leaving,
    lemma_halted_stays,
    lemma_run_on,
    mutation,
    proceed,
    run,
    started,
};
use crate::namespace::{
    Scopes,
    declare,
    entered,
    is_mutable,
    law_assign,
    law_declare,
    law_mutable_declaration_is_mutable,
    law_shadowing,
    law_plain_declaration_is_immutable,
    lemma_binder_innermost,
    lookup,
};

verus! {

/// What an evaluation comes to: its outcome, the scopes after it, and the
/// outcomes that blocks reported on the way, in order.
pub ghost struct Effect {
    pub outcome: Outcome,
    pub scopes: Scopes,
    pub reports: Seq<Outcome>,
}

/// An effect with nothing reported.
pub open spec fn quiet(done: (Outcome, Scopes)) -> Effect {
    Effect { outcome: done.0, scopes: done.1, reports: Seq::empty() }
}

/// The meaning of an instruction in scopes `s`, if `turns` nested turns of
/// loops are enough to reach its end.
///
/// An expression gives its value. A declaration or a mutation gives the
/// value it binds. A conditional is its chosen branch. A loop whose
/// condition holds runs its body and, unless the body failed, is the loop
/// again in the scopes the body left; a loop whose condition fails gives the
/// unit value. A block opens a frame, runs its statements in order whether
/// they fail or not, reports the outcome of each, leaves the frame and gives
/// the unit value.
pub open spec fn meaning(i: InstrModel, s: Scopes, turns: nat) -> Option<Effect>
    decreases turns, i, 0nat,
{
    match i {
        InstrModel::Expr(e) => Some(quiet((value_of(e, s), s))),
        InstrModel::Let(name, e) => Some(quiet(declaration(name, e, false, s))),
        InstrModel::LetMut(name, e) => Some(quiet(declaration(name, e, true, s))),
        InstrModel::Mutate(name, e) => Some(quiet(mutation(name, e, s))),
        InstrModel::IfElse { cond, cond_true, cond_false } => match decision(cond, s) {
            Ok(true) => meaning(*cond_true, s, turns),
            Ok(false) => meaning(*cond_false, s, turns),
            Err(err) => Some(quiet((Err(err), s))),
        },
        InstrModel::While(cond, body) => match decision(cond, s) {
            Ok(true) => if turns == 0 {
                None
            } else {
                match meaning(*body, s, (turns - 1) as nat) {
                    None => None,
                    Some(once) => if once.outcome is Err {
                        Some(once)
                    } else {
                        match meaning(i, once.scopes, (turns - 1) as nat) {
                            None => None,
                            Some(rest) => Some(
                                Effect {
                                    outcome: rest.outcome,
                                    scopes: rest.scopes,
                                    reports: once.reports + rest.reports,
                                },
                            ),
                        }
                    },
                }
            },
            Ok(false) => Some(quiet((Ok(Value::Unit), s))),
            Err(err) => Some(quiet((Err(err), s))),
        },
        InstrModel::Block(stmts) => sequence(stmts, 0, entered(s), turns),
    }
}

/// The rest of a block from statement `from` on: the statements in order,
/// then the leaving of the block's frame. Each statement reports what its
/// own blocks report, then its outcome.
pub open spec fn sequence(stmts: Seq<InstrModel>, from: int, s: Scopes, turns: nat) -> Option<
    Effect,
>
    decreases turns, stmts, stmts.len() - from,
{
    if from < 0 || from >= stmts.len() {
        Some(quiet(leaving(s)))
    } else {
        match meaning(stmts[from], s, turns) {
            None => None,
            Some(first) => match sequence(stmts, from + 1, first.scopes, turns) {
                None => None,
                Some(rest) => Some(
                    Effect {
                        outcome: rest.outcome,
                        scopes: rest.scopes,
                        reports: first.reports.push(first.outcome) + rest.reports,
                    },
                ),
            },
        }
    }
}

/// Whether a machine is still at work above what waited when it started:
/// more waits than the `depth` tasks of then, or an instruction is in focus.
pub open spec fn above(c: Config, depth: nat) -> bool {
    match c.status {
        Status::Active(m) => m.conts.len() > depth || (m.conts.len() == depth && m.focus is Run),
        Status::Halted(_) => false,
    }
}

/// One step of a run is one step of the driver.
proof fn lemma_one_step(c: Config)
    ensures
        run(c, 1) == advance(c),
{
    assert(run(advance(c), 0) == advance(c));
}

/// A machine at work during two runs in a row is at work during both.
proof fn lemma_above_on(c: Config, a: nat, b: nat, depth: nat)
    requires
        forall|j: nat| j < a ==> above(#[trigger] run(c, j), depth),
        forall|j: nat| j < b ==> above(#[trigger] run(run(c, a), j), depth),
    ensures
        forall|j: nat| j < a + b ==> above(#[trigger] run(c, j), depth),
{
    assert forall|j: nat| j < a + b implies above(#[trigger] run(c, j), depth) by {
        if j >= a {
            lemma_run_on(c, a, (j - a) as nat);
            assert(above(run(run(c, a), (j - a) as nat), depth));
        }
    }
}

/// With an instruction in focus, the machine reaches its result, with what
/// waited still waiting, the scopes that the meaning gives, and the reports
/// that the meaning gives after those made before. Until then it is at work
/// above what waited.
proof fn lemma_instruction(
    i: InstrModel,
    conts: Seq<ContModel>,
    s: Scopes,
    reports: Seq<Outcome>,
    turns: nat,
) -> (n: nat)
    requires
        meaning(i, s, turns) is Some,
    ensures
        run(active(FocusModel::Run(i), conts, s, reports), n) == active(
            FocusModel::Return(meaning(i, s, turns)->0.outcome),
            conts,
            meaning(i, s, turns)->0.scopes,
            reports + meaning(i, s, turns)->0.reports,
        ),
        forall|j: nat|
            j < n ==> above(
                #[trigger] run(active(FocusModel::Run(i), conts, s, reports), j),
                conts.len(),
            ),
    decreases turns, i, 0nat,
{
    reveal(advance);
    let c = active(FocusModel::Run(i), conts, s, reports);
    let depth = conts.len();
    assert(reports + Seq::<Outcome>::empty() =~= reports);
    lemma_one_step(c);
    assert(forall|j: nat| j < 1 ==> above(#[trigger] run(c, j), depth));
    match i {
        InstrModel::IfElse { cond, cond_true, cond_false } => {
            match decision(cond, s) {
                Ok(chosen) => {
                    let branch = if chosen {
                        *cond_true
                    } else {
                        *cond_false
                    };
                    let k = lemma_instruction(branch, conts, s, reports, turns);
                    lemma_run_on(c, 1, k);
                    lemma_above_on(c, 1, k, depth);
                    1 + k
                },
                Err(_) => 1,
            }
        },
        InstrModel::While(cond, body) => {
            match decision(cond, s) {
                Ok(true) => {
                    let waiting = conts.push(ContModel::Loop(i));
                    let once = meaning(*body, s, (turns - 1) as nat)->0;
                    let k = lemma_instruction(*body, waiting, s, reports, (turns - 1) as nat);
                    lemma_run_on(c, 1, k);
                    assert(forall|j: nat| j < k ==> above(#[trigger] run(run(c, 1), j), depth));
                    lemma_above_on(c, 1, k, depth);
                    let back = run(c, 1 + k);
                    assert(waiting.drop_last() =~= conts);
                    assert(waiting.last() == ContModel::Loop(i));
                    lemma_one_step(back);
                    lemma_run_on(c, 1 + k, 1);
                    assert(forall|j: nat| j < 1 ==> above(#[trigger] run(back, j), depth));
                    lemma_above_on(c, 1 + k, 1, depth);
                    if once.outcome is Err {
                        1 + k + 1
                    } else {
                        let again = lemma_instruction(
                            i,
                            conts,
                            once.scopes,
                            reports + once.reports,
                            (turns - 1) as nat,
                        );
                        let rest = meaning(i, once.scopes, (turns - 1) as nat)->0;
                        assert(reports + once.reports + rest.reports =~= reports + (once.reports
                            + rest.reports));
                        lemma_run_on(c, 1 + k + 1, again);
                        lemma_above_on(c, 1 + k + 1, again, depth);
                        1 + k + 1 + again
                    }
                },
                _ => 1,
            }
        },
        InstrModel::Block(stmts) => {
            let k = lemma_sequence(stmts, 0, conts, entered(s), reports, turns);
            lemma_run_on(c, 1, k);
            lemma_above_on(c, 1, k, depth);
            1 + k
        },
        _ => 1,
    }
}

/// The configuration of a block that goes on with statement `from`.
pub open spec fn going_on(
    stmts: Seq<InstrModel>,
    from: int,
    conts: Seq<ContModel>,
    s: Scopes,
    reports: Seq<Outcome>,
) -> Config {
    Config {
        status: Status::Active(proceed(stmts, from, conts, s).0),
        scopes: proceed(stmts, from, conts, s).1,
        reports,
    }
}

/// With a block about to go on at statement `from`, the machine reaches the
/// result of leaving the block. Until then it is at work above what waited.
proof fn lemma_sequence(
    stmts: Seq<InstrModel>,
    from: int,
    conts: Seq<ContModel>,
    s: Scopes,
    reports: Seq<Outcome>,
    turns: nat,
) -> (n: nat)
    requires
        0 <= from <= stmts.len(),
        sequence(stmts, from, s, turns) is Some,
    ensures
        run(going_on(stmts, from, conts, s, reports), n) == active(
            FocusModel::Return(sequence(stmts, from, s, turns)->0.outcome),
            conts,
            sequence(stmts, from, s, turns)->0.scopes,
            reports + sequence(stmts, from, s, turns)->0.reports,
        ),
        forall|j: nat|
            j < n ==> above(
                #[trigger] run(going_on(stmts, from, conts, s, reports), j),
                conts.len(),
            ),
    decreases turns, stmts, stmts.len() - from,
{
    let c = going_on(stmts, from, conts, s, reports);
    let depth = conts.len();
    reveal(advance);
    assert(reports + Seq::<Outcome>::empty() =~= reports);
    if from >= stmts.len() {
        0
    } else {
        let waiting = conts.push(ContModel::Block(stmts, from + 1));
        let first = meaning(stmts[from], s, turns)->0;
        let rest = sequence(stmts, from + 1, first.scopes, turns)->0;
        let k = lemma_instruction(stmts[from], waiting, s, reports, turns);
        assert(forall|j: nat| j < k ==> above(#[trigger] run(c, j), depth));
        let back = run(c, k);
        assert(waiting.drop_last() =~= conts);
        assert(waiting.last() == ContModel::Block(stmts, from + 1));
        lemma_one_step(back);
        lemma_run_on(c, k, 1);
        assert(forall|j: nat| j < 1 ==> above(#[trigger] run(back, j), depth));
        lemma_above_on(c, k, 1, depth);
        let seen = (reports + first.reports).push(first.outcome);
        let more = lemma_sequence(stmts, from + 1, conts, first.scopes, seen, turns);
        assert(seen + rest.reports =~= reports + (first.reports.push(first.outcome)
            + rest.reports));
        lemma_run_on(c, k + 1, more);
        lemma_above_on(c, k + 1, more, depth);
        k + 1 + more
    }
}

/// With an instruction in focus that has no meaning within `turns` turns,
/// the machine is still at work after as many steps.
proof fn lemma_no_meaning(
    i: InstrModel,
    conts: Seq<ContModel>,
    s: Scopes,
    reports: Seq<Outcome>,
    turns: nat,
    j: nat,
)
    requires
        meaning(i, s, turns) is None,
        j <= turns,
    ensures
        above(run(active(FocusModel::Run(i), conts, s, reports), j), conts.len()),
    decreases turns, i, 0nat,
{
    reveal(advance);
    let c = active(FocusModel::Run(i), conts, s, reports);
    let depth = conts.len();
    lemma_one_step(c);
    if j > 0 {
        lemma_run_on(c, 1, (j - 1) as nat);
        match i {
            InstrModel::IfElse { cond, cond_true, cond_false } => {
                let branch = if decision(cond, s) matches Ok(true) {
                    *cond_true
                } else {
                    *cond_false
                };
                lemma_no_meaning(branch, conts, s, reports, turns, (j - 1) as nat);
            },
            InstrModel::While(cond, body) => {
                let waiting = conts.push(ContModel::Loop(i));
                let inner = run(c, 1);
                match meaning(*body, s, (turns - 1) as nat) {
                    None => {
                        lemma_no_meaning(
                            *body,
                            waiting,
                            s,
                            reports,
                            (turns - 1) as nat,
                            (j - 1) as nat,
                        );
                    },
                    Some(once) => {
                        let k = lemma_instruction(*body, waiting, s, reports, (turns - 1) as nat);
                        let back = run(inner, k);
                        assert(waiting.drop_last() =~= conts);
                        assert(waiting.last() == ContModel::Loop(i));
                        lemma_one_step(back);
                        if j - 1 < k {
                            assert(above(run(inner, (j - 1) as nat), waiting.len()));
                        } else if j - 1 == k {
                        } else {
                            lemma_run_on(inner, k, (j - 1 - k) as nat);
                            lemma_run_on(back, 1, (j - 2 - k) as nat);
                            lemma_no_meaning(
                                i,
                                conts,
                                once.scopes,
                                reports + once.reports,
                                (turns - 1) as nat,
                                (j - 2 - k) as nat,
                            );
                        }
                    },
                }
            },
            InstrModel::Block(stmts) => {
                lemma_no_sequence(stmts, 0, conts, entered(s), reports, turns, (j - 1) as nat);
            },
            _ => {},
        }
    }
}

/// The same for a block that goes on with statement `from`.
proof fn lemma_no_sequence(
    stmts: Seq<InstrModel>,
    from: int,
    conts: Seq<ContModel>,
    s: Scopes,
    reports: Seq<Outcome>,
    turns: nat,
    j: nat,
)
    requires
        0 <= from <= stmts.len(),
        sequence(stmts, from, s, turns) is None,
        j <= turns,
    ensures
        above(run(going_on(stmts, from, conts, s, reports), j), conts.len()),
    decreases turns, stmts, stmts.len() - from,
{
    reveal(advance);
    let c = going_on(stmts, from, conts, s, reports);
    let waiting = conts.push(ContModel::Block(stmts, from + 1));
    match meaning(stmts[from], s, turns) {
        None => {
            lemma_no_meaning(stmts[from], waiting, s, reports, turns, j);
        },
        Some(first) => {
            let k = lemma_instruction(stmts[from], waiting, s, reports, turns);
            let back = run(c, k);
            assert(waiting.drop_last() =~= conts);
            assert(waiting.last() == ContModel::Block(stmts, from + 1));
            lemma_one_step(back);
            if j < k {
                assert(above(run(c, j), waiting.len()));
            } else if j == k {
            } else {
                lemma_run_on(c, k, (j - k) as nat);
                lemma_run_on(back, 1, (j - 1 - k) as nat);
                lemma_no_sequence(
                    stmts,
                    from + 1,
                    conts,
                    first.scopes,
                    (reports + first.reports).push(first.outcome),
                    turns,
                    (j - 1 - k) as nat,
                );
            }
        },
    }
}

/// The configuration of a machine that has just been started on `i`.
pub open spec fn initial(i: InstrModel, s: Scopes) -> Config {
    Config { status: Status::Active(started(i)), scopes: s, reports: Seq::empty() }
}

/// The configuration of a machine that has halted with an effect.
pub open spec fn halted(e: Effect) -> Config {
    Config { status: Status::Halted(e.outcome), scopes: e.scopes, reports: e.reports }
}

/// The machine computes the meaning: where an instruction has a meaning,
/// the machine started on it halts, after some number `n` of steps, with
/// the outcome, the scopes and the reports that the meaning gives, and it
/// stays so.
pub proof fn theorem_machine_computes_meaning(i: InstrModel, s: Scopes, turns: nat) -> (n: nat)
    requires
        meaning(i, s, turns) is Some,
    ensures
        forall|steps: nat|
            steps >= n ==> #[trigger] run(initial(i, s), steps) == halted(
                meaning(i, s, turns)->0,
            ),
{
    reveal(advance);
    let c = active(FocusModel::Run(i), Seq::empty(), s, Seq::empty());
    let k = lemma_instruction(i, Seq::empty(), s, Seq::empty(), turns);
    let e = meaning(i, s, turns)->0;
    assert(Seq::<Outcome>::empty() + e.reports =~= e.reports);
    let last = run(c, k);
    lemma_one_step(last);
    lemma_run_on(c, k, 1);
    assert forall|steps: nat| steps >= k + 1 implies #[trigger] run(initial(i, s), steps)
        == halted(e) by {
        lemma_run_on(c, k + 1, (steps - k - 1) as nat);
        lemma_halted_stays(halted(e), (steps - k - 1) as nat);
    }
    k + 1
}

/// The meaning covers the machine: where the machine started on an
/// instruction has halted after `steps` steps, the instruction has a
/// meaning within as many turns, and the machine has halted with the
/// outcome, the scopes and the reports that the meaning gives.
pub proof fn theorem_halting_has_meaning(i: InstrModel, s: Scopes, steps: nat)
    requires
        run(initial(i, s), steps).status is Halted,
    ensures
        meaning(i, s, steps) is Some,
        run(initial(i, s), steps) == halted(meaning(i, s, steps)->0),
{
    if meaning(i, s, steps) is None {
        lemma_no_meaning(i, Seq::empty(), s, Seq::empty(), steps, steps);
    }
    let n = theorem_machine_computes_meaning(i, s, steps);
    let c = initial(i, s);
    if steps >= n {
    } else {
        lemma_run_on(c, steps, (n - steps) as nat);
        lemma_halted_stays(run(c, steps), (n - steps) as nat);
        assert(run(c, n) == halted(meaning(i, s, steps)->0));
    }
}

/// More turns do not change a meaning.
pub proof fn law_meaning_is_stable(i: InstrModel, s: Scopes, turns: nat, more: nat)
    requires
        meaning(i, s, turns) is Some,
        turns <= more,
    ensures
        meaning(i, s, more) == meaning(i, s, turns),
    decreases turns, i, 0nat,
{
    match i {
        InstrModel::IfElse { cond, cond_true, cond_false } => {
            match decision(cond, s) {
                Ok(true) => law_meaning_is_stable(*cond_true, s, turns, more),
                Ok(false) => law_meaning_is_stable(*cond_false, s, turns, more),
                Err(_) => {},
            }
        },
        InstrModel::While(cond, body) => {
            match decision(cond, s) {
                Ok(true) => {
                    let once = meaning(*body, s, (turns - 1) as nat)->0;
                    law_meaning_is_stable(*body, s, (turns - 1) as nat, (more - 1) as nat);
                    if once.outcome is Ok {
                        law_meaning_is_stable(
                            i,
                            once.scopes,
                            (turns - 1) as nat,
                            (more - 1) as nat,
                        );
                    }
                },
                _ => {},
            }
        },
        InstrModel::Block(stmts) => {
            law_sequence_is_stable(stmts, 0, entered(s), turns, more);
        },
        _ => {},
    }
}

/// More turns do not change what a block's statements come to.
pub proof fn law_sequence_is_stable(
    stmts: Seq<InstrModel>,
    from: int,
    s: Scopes,
    turns: nat,
    more: nat,
)
    requires
        sequence(stmts, from, s, turns) is Some,
        turns <= more,
    ensures
        sequence(stmts, from, s, more) == sequence(stmts, from, s, turns),
    decreases turns, stmts, stmts.len() - from,
{
    if 0 <= from < stmts.len() {
        let first = meaning(stmts[from], s, turns)->0;
        law_meaning_is_stable(stmts[from], s, turns, more);
        law_sequence_is_stable(stmts, from + 1, first.scopes, turns, more);
    }
}

/// A conditional is the branch that its condition chooses; the other
/// branch has no part in it.
pub proof fn law_conditional(
    cond: ExprModel,
    yes: InstrModel,
    no: InstrModel,
    s: Scopes,
    turns: nat,
    chosen: bool,
)
    requires
        decision(cond, s) == Ok::<bool, EvalErrorModel>(chosen),
    ensures
        meaning(
            InstrModel::IfElse { cond, cond_true: Box::new(yes), cond_false: Box::new(no) },
            s,
            turns,
        ) == meaning(
            if chosen {
                yes
            } else {
                no
            },
            s,
            turns,
        ),
{
}

/// A loop that ends without failure gives the unit value, and its
/// condition fails in the scopes that it leaves.
pub proof fn law_loop_ends(cond: ExprModel, body: InstrModel, s: Scopes, turns: nat)
    requires
        meaning(InstrModel::While(cond, Box::new(body)), s, turns) is Some,
        meaning(InstrModel::While(cond, Box::new(body)), s, turns)->0.outcome is Ok,
    ensures
        meaning(InstrModel::While(cond, Box::new(body)), s, turns)->0.outcome == Ok::<
            Value,
            EvalErrorModel,
        >(Value::Unit),
        decision(cond, meaning(InstrModel::While(cond, Box::new(body)), s, turns)->0.scopes)
            == Ok::<bool, EvalErrorModel>(false),
    decreases turns,
{
    if decision(cond, s) == Ok::<bool, EvalErrorModel>(true) {
        let once = meaning(body, s, (turns - 1) as nat)->0;
        law_loop_ends(cond, body, once.scopes, (turns - 1) as nat);
    }
}

/// An expression never fails for the root frame.
pub proof fn lemma_expression_keeps_root(e: ExprModel, s: Scopes)
    ensures
        value_of(e, s) != Err::<Value, _>(EvalErrorModel::CannotExitRoot),
    decreases e,
{
    match e {
        ExprModel::BinOp(left, _, right) => {
            lemma_expression_keeps_root(*left, s);
            lemma_expression_keeps_root(*right, s);
        },
        _ => {},
    }
}

/// Blocks are balanced: an instruction leaves as many frames as it found,
/// and so never fails for the root frame, which no block of its own closes.
pub proof fn law_frames_are_kept(i: InstrModel, s: Scopes, turns: nat)
    requires
        s.len() >= 1,
        meaning(i, s, turns) is Some,
    ensures
        meaning(i, s, turns)->0.scopes.len() == s.len(),
        meaning(i, s, turns)->0.outcome != Err::<Value, _>(EvalErrorModel::CannotExitRoot),
    decreases turns, i, 0nat,
{
    match i {
        InstrModel::Expr(e) => {
            lemma_expression_keeps_root(e, s);
        },
        InstrModel::Let(_, e) => {
            lemma_expression_keeps_root(e, s);
        },
        InstrModel::LetMut(_, e) => {
            lemma_expression_keeps_root(e, s);
        },
        InstrModel::Mutate(name, e) => {
            lemma_expression_keeps_root(e, s);
            lemma_binder_innermost(s, name);
        },
        InstrModel::IfElse { cond, cond_true, cond_false } => {
            match decision(cond, s) {
                Ok(true) => law_frames_are_kept(*cond_true, s, turns),
                Ok(false) => law_frames_are_kept(*cond_false, s, turns),
                Err(_) => {},
            }
        },
        InstrModel::While(cond, body) => {
            match decision(cond, s) {
                Ok(true) => {
                    let once = meaning(*body, s, (turns - 1) as nat)->0;
                    law_frames_are_kept(*body, s, (turns - 1) as nat);
                    if once.outcome is Ok {
                        law_frames_are_kept(i, once.scopes, (turns - 1) as nat);
                    }
                },
                _ => {},
            }
        },
        InstrModel::Block(stmts) => {
            lemma_sequence_keeps_frames(stmts, 0, entered(s), turns);
        },
    }
}

/// The rest of a block leaves one frame fewer than it found, and does not
/// fail.
pub proof fn lemma_sequence_keeps_frames(
    stmts: Seq<InstrModel>,
    from: int,
    s: Scopes,
    turns: nat,
)
    requires
        s.len() >= 2,
        sequence(stmts, from, s, turns) is Some,
    ensures
        sequence(stmts, from, s, turns)->0.scopes.len() == s.len() - 1,
        sequence(stmts, from, s, turns)->0.outcome == Ok::<Value, EvalErrorModel>(Value::Unit),
    decreases turns, stmts, stmts.len() - from,
{
    if 0 <= from < stmts.len() {
        let first = meaning(stmts[from], s, turns)->0;
        law_frames_are_kept(stmts[from], s, turns);
        lemma_sequence_keeps_frames(stmts, from + 1, first.scopes, turns);
    }
}

/// A second declaration of a name in the frame of the first is refused,
/// whether either is mutable or not, if its expression has a value at all.
pub proof fn law_redeclaration(
    name: Seq<char>,
    first: ExprModel,
    once: bool,
    second: ExprModel,
    again: bool,
    s: Scopes,
)
    requires
        s.len() >= 1,
        declaration(name, first, once, s).0 is Ok,
        value_of(second, declaration(name, first, once, s).1) is Ok,
    ensures
        declaration(name, second, again, declaration(name, first, once, s).1) == (
            Err::<Value, _>(EvalErrorModel::AlreadyDefined(name)),
            declaration(name, first, once, s).1,
        ),
{
    let v = value_of(first, s)->Ok_0;
    law_declare(s, name, v, once, name);
}

/// A name that was declared without `mut`, and is mutable in no enclosing
/// frame, is not mutated: the mutation fails and changes nothing.
pub proof fn law_immutable_mutation(
    name: Seq<char>,
    first: ExprModel,
    second: ExprModel,
    s: Scopes,
)
    requires
        s.len() >= 1,
        !is_mutable(s, name),
        declaration(name, first, false, s).0 is Ok,
        value_of(second, declaration(name, first, false, s).1) is Ok,
    ensures
        mutation(name, second, declaration(name, first, false, s).1) == (
            Err::<Value, _>(EvalErrorModel::NotMutable(name)),
            declaration(name, first, false, s).1,
        ),
{
    let v = value_of(first, s)->Ok_0;
    law_plain_declaration_is_immutable(s, name, v);
}

/// A name that was declared with `mut` is mutated: the mutation gives the
/// new value, and the name stands for it afterwards.
pub proof fn law_mutable_mutation(
    name: Seq<char>,
    first: ExprModel,
    second: ExprModel,
    s: Scopes,
)
    requires
        s.len() >= 1,
        declaration(name, first, true, s).0 is Ok,
        value_of(second, declaration(name, first, true, s).1) is Ok,
    ensures
        mutation(name, second, declaration(name, first, true, s).1).0 == value_of(
            second,
            declaration(name, first, true, s).1,
        ),
        lookup(mutation(name, second, declaration(name, first, true, s).1).1, name) == Some(
            value_of(second, declaration(name, first, true, s).1)->Ok_0,
        ),
{
    let v = value_of(first, s)->Ok_0;
    let after = declare(s, name, v, true);
    let w = value_of(second, after)->Ok_0;
    law_mutable_declaration_is_mutable(s, name, v);
    law_declare(s, name, v, true, name);
    law_assign(after, name, w, name);
}

/// Shadowing: a block that declares a name and then reads it reports the
/// declared value twice, whatever the name stands for outside, and leaves
/// the scopes as it found them.
pub proof fn law_block_shadows(name: Seq<char>, e: ExprModel, s: Scopes, turns: nat)
    requires
        s.len() >= 1,
        value_of(e, entered(s)) is Ok,
    ensures
        meaning(
            InstrModel::Block(
                seq![InstrModel::Let(name, e), InstrModel::Expr(ExprModel::Var(name))],
            ),
            s,
            turns,
        ) == Some(
            Effect {
                outcome: Ok(Value::Unit),
                scopes: s,
                reports: seq![value_of(e, entered(s)), value_of(e, entered(s))],
            },
        ),
{
    let stmts = seq![InstrModel::Let(name, e), InstrModel::Expr(ExprModel::Var(name))];
    let inside = entered(s);
    let v = value_of(e, inside)->Ok_0;
    let bound = declare(inside, name, v, false);
    law_shadowing(s, name, v, false);
    assert(sequence(stmts, 2, bound, turns) == Some(quiet(leaving(bound))));
    assert(meaning(stmts[1], bound, turns) == Some(quiet((Ok::<Value, _>(v), bound))));
    let last = sequence(stmts, 1, bound, turns)->0;
    assert(last.reports =~= seq![Ok::<Value, EvalErrorModel>(v)]);
    assert(meaning(stmts[0], inside, turns) == Some(quiet((Ok::<Value, _>(v), bound))));
    let all = sequence(stmts, 0, inside, turns)->0;
    assert(all.reports =~= seq![value_of(e, inside), value_of(e, inside)]);
}

} // verus!
