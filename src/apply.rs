use vstd::prelude::*;

use crate::files::{get_latest_project_file, is_latest, texts, ProjectFile};
use crate::script::{concat_script, script_of, split_statements, statements_of};
use crate::stamp::{stamp_text, Timestamp};

verus! {

/// Where an apply stands: which step it asked for last and awaits the
/// outcome of.
#[derive(Clone, Copy, Debug, PartialEq, Eq, Structural)]
pub enum Phase {
    /// The transaction was asked to begin.
    Beginning,
    /// Statement `i` was asked to execute.
    Executing(usize),
    /// The new watermark was asked to be written.
    Recording,
    /// The transaction was asked to commit.
    Committing,
    /// The transaction was asked to roll back.
    RollingBack,
    /// Nothing is left to do; `true` where the work was committed or there
    /// was none.
    Done(bool),
}

/// What the caller is to do next against the database.
#[derive(Clone, Copy, Debug, PartialEq, Eq, Structural)]
pub enum Action {
    /// Open a transaction.
    Begin,
    /// Execute statement `i` of the session inside the transaction.
    Execute(usize),
    /// Write the session's watermark text as the `last_applied` value,
    /// inside the transaction.
    RecordWatermark,
    /// Commit the transaction.
    Commit,
    /// Roll the transaction back.
    Rollback,
    /// Stop: the apply is over.
    Finish,
}

/// The step that follows phase `p` of an apply of `n` statements, given
/// whether the step asked for last succeeded.
pub open spec fn next(p: Phase, n: nat, ok: bool) -> (Phase, Action) {
    match p {
        Phase::Beginning => if !ok {
            (Phase::Done(false), Action::Finish)
        } else if n > 0 {
            (Phase::Executing(0), Action::Execute(0))
        } else {
            (Phase::Recording, Action::RecordWatermark)
        },
        Phase::Executing(i) => if !ok {
            (Phase::RollingBack, Action::Rollback)
        } else if i + 1 < n {
            (Phase::Executing((i + 1) as usize), Action::Execute((i + 1) as usize))
        } else {
            (Phase::Recording, Action::RecordWatermark)
        },
        Phase::Recording => if ok {
            (Phase::Committing, Action::Commit)
        } else {
            (Phase::RollingBack, Action::Rollback)
        },
        Phase::Committing => (Phase::Done(ok), Action::Finish),
        Phase::RollingBack => (Phase::Done(false), Action::Finish),
        Phase::Done(s) => (Phase::Done(s), Action::Finish),
    }
}

/// The actions that a session in phase `p` asks for, one for each outcome
/// reported in turn.
pub open spec fn run(p: Phase, n: nat, outcomes: Seq<bool>) -> Seq<Action>
    decreases outcomes.len(),
{
    if outcomes.len() == 0 {
        Seq::empty()
    } else {
        let (q, a) = next(p, n, outcomes[0]);
        seq![a] + run(q, n, outcomes.drop_first())
    }
}

/// One apply of the pending migrations: the statements to execute, in order,
/// and the watermark to record once they all succeeded.
pub struct ApplySession {
    statements: Vec<String>,
    watermark: Option<Timestamp>,
    watermark_text: String,
    phase: Phase,
}

impl ApplySession {
    pub closed spec fn phase_of(self) -> Phase {
        self.phase
    }

    pub closed spec fn statements_of(self) -> Seq<Seq<char>> {
        texts(self.statements@)
    }

    pub closed spec fn watermark_of(self) -> Option<Timestamp> {
        self.watermark
    }

    pub closed spec fn watermark_text_of(self) -> Seq<char> {
        self.watermark_text@
    }

    #[verifier::type_invariant]
    spec fn inv(self) -> bool {
        &&& self.phase matches Phase::Executing(i) ==> i < self.statements@.len()
        &&& self.watermark matches Some(t) ==> self.watermark_text@ == stamp_text(t.fields())
    }

    /// Starts applying `pending`, the plan of migration files, whose
    /// contents are `contents`. With nothing pending there is nothing to do
    /// and no transaction is opened. Otherwise the statements are those of the
    /// contents joined in order, and the watermark to record is the latest
    /// timestamp among `pending`.
    pub fn start(pending: &Vec<ProjectFile>, contents: &Vec<String>) -> (r: (ApplySession, Action))
        ensures
            r.0.statements_of() == statements_of(script_of(texts(contents@))),
            pending@.len() == 0 ==> r.0.phase_of() == Phase::Done(true) && r.1 == Action::Finish
                && r.0.watermark_of() is None,
            pending@.len() > 0 ==> r.0.phase_of() == Phase::Beginning && r.1 == Action::Begin
                && exists|i: int| #[trigger]
                is_latest(pending@, i) && r.0.watermark_of() == Some(pending@[i].date),
    {
        let script = concat_script(contents);
        let statements = split_statements(script.as_str());
        match get_latest_project_file(pending) {
            None => {
                let s = ApplySession {
                    statements,
                    watermark: None,
                    watermark_text: String::new(),
                    phase: Phase::Done(true),
                };
                (s, Action::Finish)
            },
            Some(i) => {
                let t = pending[i].date;
                let text = t.to_stamp_string();
                let s = ApplySession {
                    statements,
                    watermark: Some(t),
                    watermark_text: text,
                    phase: Phase::Beginning,
                };
                (s, Action::Begin)
            },
        }
    }

    /// Takes the outcome of the step asked for last and says what to do next.
    pub fn step(&mut self, ok: bool) -> (a: Action)
        ensures
            (final(self).phase_of(), a) == next(
                old(self).phase_of(),
                old(self).statements_of().len(),
                ok,
            ),
            final(self).statements_of() == old(self).statements_of(),
            final(self).watermark_of() == old(self).watermark_of(),
            final(self).watermark_text_of() == old(self).watermark_text_of(),
    {
        proof {
            use_type_invariant(&*self);
        }
        let n = self.statements.len();
        let (p, a) = match self.phase {
            Phase::Beginning => if !ok {
                (Phase::Done(false), Action::Finish)
            } else if n > 0 {
                (Phase::Executing(0), Action::Execute(0))
            } else {
                (Phase::Recording, Action::RecordWatermark)
            },
            Phase::Executing(i) => if !ok {
                (Phase::RollingBack, Action::Rollback)
            } else if i + 1 < n {
                (Phase::Executing(i + 1), Action::Execute(i + 1))
            } else {
                (Phase::Recording, Action::RecordWatermark)
            },
            Phase::Recording => if ok {
                (Phase::Committing, Action::Commit)
            } else {
                (Phase::RollingBack, Action::Rollback)
            },
            Phase::Committing => (Phase::Done(ok), Action::Finish),
            Phase::RollingBack => (Phase::Done(false), Action::Finish),
            Phase::Done(s) => (Phase::Done(s), Action::Finish),
        };
        self.phase = p;
        a
    }

    pub fn phase(&self) -> (r: Phase)
        ensures
            r == self.phase_of(),
    {
        self.phase
    }

    pub fn statement_count(&self) -> (r: usize)
        ensures
            r == self.statements_of().len(),
    {
        self.statements.len()
    }

    /// Statement `i`, as `Action::Execute(i)` names it.
    pub fn statement(&self, i: usize) -> (r: &str)
        requires
            i < self.statements_of().len(),
        ensures
            r@ == self.statements_of()[i as int],
    {
        self.statements[i].as_str()
    }

    /// The watermark that `Action::RecordWatermark` writes.
    pub fn watermark(&self) -> (r: Option<Timestamp>)
        ensures
            r == self.watermark_of(),
    {
        self.watermark
    }

    /// The watermark as the `YYYYMMDDHHMMSS` text to store.
    pub fn watermark_text(&self) -> (r: &str)
        ensures
            r@ == self.watermark_text_of(),
            self.watermark_of() matches Some(t) ==> r@ == stamp_text(t.fields()),
    {
        proof {
            use_type_invariant(self);
        }
        self.watermark_text.as_str()
    }
}

proof fn lemma_run_shape(p: Phase, n: nat, outcomes: Seq<bool>)
    ensures
        run(p, n, outcomes).len() == outcomes.len(),
        outcomes.len() > 0 ==> run(p, n, outcomes)[0] == next(p, n, outcomes[0]).1,
        forall|j: int|
            1 <= j < outcomes.len() ==> #[trigger] run(p, n, outcomes)[j] == run(
                next(p, n, outcomes[0]).0,
                n,
                outcomes.drop_first(),
            )[j - 1],
    decreases outcomes.len(),
{
    if outcomes.len() > 0 {
        lemma_run_shape(next(p, n, outcomes[0]).0, n, outcomes.drop_first());
    }
}

/// Once an apply is over, or found nothing to do, it only ever asks to
/// finish: no statement runs and no watermark is written.
pub proof fn lemma_done_stays_done(s: bool, n: nat, outcomes: Seq<bool>)
    ensures
        forall|j: int| 0 <= j < outcomes.len() ==> #[trigger] run(Phase::Done(s), n, outcomes)[j]
            == Action::Finish,
        run(Phase::Done(s), n, outcomes).len() == outcomes.len(),
    decreases outcomes.len(),
{
    lemma_run_shape(Phase::Done(s), n, outcomes);
    if outcomes.len() > 0 {
        lemma_done_stays_done(s, n, outcomes.drop_first());
    }
}

/// A failed statement, or a failed write of the watermark, is answered by a
/// rollback, and no commit follows whatever comes after.
pub proof fn lemma_failure_rolls_back(p: Phase, n: nat, outcomes: Seq<bool>)
    requires
        p matches Phase::Executing(i) ==> i < n,
        p is Executing || p is Recording,
        outcomes.len() > 0,
        outcomes[0] == false,
    ensures
        run(p, n, outcomes)[0] == Action::Rollback,
        forall|j: int| 0 <= j < outcomes.len() ==> #[trigger] run(p, n, outcomes)[j]
            != Action::Commit,
{
    let rest = outcomes.drop_first();
    lemma_run_shape(p, n, outcomes);
    lemma_run_shape(Phase::RollingBack, n, rest);
    lemma_done_stays_done(false, n, rest.drop_first());
}

/// How many steps have succeeded in phase `p` of a run from `Beginning`.
pub open spec fn steps_done(p: Phase, n: nat) -> int {
    match p {
        Phase::Beginning => 0int,
        Phase::Executing(i) => i as int + 1,
        _ => n as int + 1,
    }
}

/// A commit is asked for only once the transaction has begun, every
/// statement has executed and the watermark has been written, all with
/// success: all or nothing.
pub proof fn lemma_commit_needs_success(p: Phase, n: nat, outcomes: Seq<bool>, j: int)
    requires
        n <= usize::MAX,
        p is Beginning || p is Recording || (p matches Phase::Executing(i) && i < n),
        0 <= j < outcomes.len(),
        run(p, n, outcomes)[j] == Action::Commit,
    ensures
        j + steps_done(p, n) == n + 1,
        forall|m: int| 0 <= m <= j ==> #[trigger] outcomes[m],
    decreases outcomes.len(),
{
    let rest = outcomes.drop_first();
    let q = next(p, n, outcomes[0]).0;
    lemma_run_shape(p, n, outcomes);
    if j == 0 {
        return;
    }
    lemma_run_shape(q, n, rest);
    if q is Done {
        lemma_done_stays_done(q->Done_0, n, rest);
    } else if q is RollingBack {
        lemma_done_stays_done(false, n, rest.drop_first());
    } else if q is Committing {
        lemma_done_stays_done(rest[0], n, rest.drop_first());
    } else {
        lemma_commit_needs_success(q, n, rest, j - 1);
        assert forall|m: int| 0 <= m <= j implies #[trigger] outcomes[m] by {
            if m > 0 {
                assert(outcomes[m] == rest[m - 1]);
            }
        }
    }
}

/// The actions of an apply of `n` statements in which every step succeeds,
/// from statement `i` on: the remaining statements in order, the watermark,
/// the commit and the end.
pub open spec fn clean_actions(i: nat, n: nat) -> Seq<Action> {
    Seq::new((n - i) as nat, |j: int| Action::Execute((i + j) as usize)) + seq![
        Action::RecordWatermark,
        Action::Commit,
        Action::Finish,
    ]
}

proof fn lemma_clean_from(i: nat, n: nat)
    requires
        i < n <= usize::MAX,
    ensures
        run(Phase::Executing(i as usize), n, Seq::new((n - i + 2) as nat, |j: int| true))
            == clean_actions(i + 1, n),
    decreases n - i,
{
    let outs = Seq::new((n - i + 2) as nat, |j: int| true);
    let rest = outs.drop_first();
    if i + 1 < n {
        lemma_clean_from(i + 1, n);
        assert(rest =~= Seq::new((n - (i + 1) + 2) as nat, |j: int| true));
        assert(run(Phase::Executing(i as usize), n, outs) == seq![Action::Execute((i + 1) as usize)]
            + run(Phase::Executing((i + 1) as usize), n, rest));
        assert(seq![Action::Execute((i + 1) as usize)] + clean_actions(i + 2, n) =~= clean_actions(
            i + 1,
            n,
        ));
    } else {
        reveal_with_fuel(run, 4);
        assert(run(Phase::Executing(i as usize), n, outs) =~= clean_actions(i + 1, n));
    }
}

/// When every step succeeds, an apply of `n` statements executes each of
/// them once, in order, then writes the watermark, commits and ends.
pub proof fn lemma_clean_run(n: nat)
    requires
        n <= usize::MAX,
    ensures
        run(Phase::Beginning, n, Seq::new(n + 3, |j: int| true)) == clean_actions(0, n),
{
    let outs = Seq::new(n + 3, |j: int| true);
    let rest = outs.drop_first();
    if n > 0 {
        lemma_clean_from(0, n);
        assert(rest =~= Seq::new((n - 0 + 2) as nat, |j: int| true));
        assert(seq![Action::Execute(0)] + clean_actions(1, n) =~= clean_actions(0, n));
    } else {
        reveal_with_fuel(run, 4);
        assert(run(Phase::Beginning, n, outs) =~= clean_actions(0, n));
    }
}

} // verus!
