//! The apply engine: runs one tenant's operations in a fixed order, one at a
//! time, and keeps going past failures.
//!
//! The remote calls happen outside: a caller asks the session for the next
//! operation, performs it, and records how it went.

use vstd::prelude::*;

use crate::diff::ChangeOperation;
use crate::entity::{DesiredEntity, ObservedEntity};
use crate::position::{move_ops, plan_moves};
use crate::text::{decimal, push_decimal};

verus! {

/// An operation that the remote side refused, with its error.
pub struct Failure {
    pub op: ChangeOperation,
    pub error: String,
}

/// What one pass did.
pub struct ApplyReport {
    pub created: usize,
    pub deleted: usize,
    /// Color updates and moves.
    pub updated: usize,
    pub failures: Vec<Failure>,
}

/// The counts and failures of a report.
pub struct ReportView {
    pub created: nat,
    pub deleted: nat,
    pub updated: nat,
    pub failures: Seq<Failure>,
}

impl View for ApplyReport {
    type V = ReportView;

    open spec fn view(&self) -> ReportView {
        ReportView {
            created: self.created as nat,
            deleted: self.deleted as nat,
            updated: self.updated as nat,
            failures: self.failures@,
        }
    }
}

/// How one remote operation went.
pub enum Outcome {
    /// The operation succeeded.
    Applied,
    /// A create succeeded and the remote side now holds this resource.
    Created(ObservedEntity),
    /// The remote side refused the operation.
    Failed(String),
}

/// The stage of a pass at which an operation runs: deletes free names and
/// positions first, then creates, then updates and moves.
pub open spec fn stage(op: ChangeOperation) -> nat {
    match op {
        ChangeOperation::Delete { .. } => 0,
        ChangeOperation::Create { .. } => 1,
        _ => 2,
    }
}

/// The operations among the first `n` of `ops` that run at stage `s`, in order.
pub open spec fn at_stage(ops: Seq<ChangeOperation>, s: nat, n: int) -> Seq<ChangeOperation>
    decreases n,
{
    if n <= 0 {
        seq![]
    } else if stage(ops[n - 1]) == s {
        at_stage(ops, s, n - 1).push(ops[n - 1])
    } else {
        at_stage(ops, s, n - 1)
    }
}

/// `ops` in execution order: by stage, and in their given order within a stage.
pub open spec fn in_run_order(ops: Seq<ChangeOperation>) -> Seq<ChangeOperation> {
    at_stage(ops, 0, ops.len() as int) + at_stage(ops, 1, ops.len() as int) + at_stage(
        ops,
        2,
        ops.len() as int,
    )
}

fn stage_of(op: &ChangeOperation) -> (r: u8)
    ensures
        r as nat == stage(*op),
{
    match op {
        ChangeOperation::Delete { .. } => 0,
        ChangeOperation::Create { .. } => 1,
        _ => 2,
    }
}

fn push_stage(ops: &Vec<ChangeOperation>, s: u8, out: &mut Vec<ChangeOperation>)
    ensures
        final(out)@ == old(out)@ + at_stage(ops@, s as nat, ops@.len() as int),
{
    let ghost start = out@;
    let n = ops.len();
    for i in 0..n
        invariant
            n == ops@.len(),
            out@ == start + at_stage(ops@, s as nat, i as int),
    {
        if stage_of(&ops[i]) == s {
            out.push(ops[i].duplicate());
        }
        assert(out@ =~= start + at_stage(ops@, s as nat, i + 1));
    }
}

/// Puts operations in execution order: all deletes, then all creates, then
/// updates and moves, each group in its given order.
pub fn order_ops(ops: &Vec<ChangeOperation>) -> (r: Vec<ChangeOperation>)
    ensures
        r@ == in_run_order(ops@),
{
    let mut out: Vec<ChangeOperation> = Vec::new();
    push_stage(ops, 0, &mut out);
    push_stage(ops, 1, &mut out);
    push_stage(ops, 2, &mut out);
    assert(out@ =~= in_run_order(ops@));
    out
}

/// The report after one more operation: a failure is listed with its error,
/// a success is counted by its kind.
pub open spec fn tallied(r: ReportView, op: ChangeOperation, out: Outcome) -> ReportView {
    match out {
        Outcome::Failed(e) => ReportView { failures: r.failures.push(Failure { op, error: e }), ..r },
        _ => match op {
            ChangeOperation::Create { .. } => ReportView { created: r.created + 1, ..r },
            ChangeOperation::Delete { .. } => ReportView { deleted: r.deleted + 1, ..r },
            _ => ReportView { updated: r.updated + 1, ..r },
        },
    }
}

/// The state of a session.
pub struct SessionView {
    /// The operations to run, in order.
    pub ops: Seq<ChangeOperation>,
    /// The index of the next operation to run.
    pub next: int,
    pub report: ReportView,
    /// The channels that the moves are planned against: those observed at the
    /// start and those created since.
    pub known: Seq<ObservedEntity>,
    /// The desired entities, with their target positions where order is managed.
    pub targets: Seq<DesiredEntity>,
    /// The moves have been planned and appended to `ops`.
    pub moves_planned: bool,
}

/// The state after the next operation went as `out` says.
pub open spec fn after_record(v: SessionView, out: Outcome) -> SessionView {
    let op = v.ops[v.next];
    SessionView {
        next: v.next + 1,
        report: tallied(v.report, op, out),
        known: match (op, out) {
            (ChangeOperation::Create { .. }, Outcome::Created(e)) => v.known.push(e),
            _ => v.known,
        },
        ..v
    }
}

/// The state once the session looked for its next operation: when all the
/// operations so far have run, the moves towards the targets' positions are
/// planned, once, against the channels known by then.
pub open spec fn after_lookup(v: SessionView) -> SessionView {
    if v.next >= v.ops.len() && !v.moves_planned {
        SessionView {
            ops: v.ops + move_ops(v.known, v.targets, v.targets.len() as int),
            moves_planned: true,
            ..v
        }
    } else {
        v
    }
}

/// One pass's operations being applied.
pub struct ApplySession {
    ops: Vec<ChangeOperation>,
    next: usize,
    report: ApplyReport,
    known: Vec<ObservedEntity>,
    targets: Vec<DesiredEntity>,
    moves_planned: bool,
}

impl View for ApplySession {
    type V = SessionView;

    closed spec fn view(&self) -> SessionView {
        SessionView {
            ops: self.ops@,
            next: self.next as int,
            report: self.report@,
            known: self.known@,
            targets: self.targets@,
            moves_planned: self.moves_planned,
        }
    }
}

impl ApplySession {
    /// Every operation before `next` has been counted once in the report.
    pub closed spec fn wf(&self) -> bool {
        &&& self.next <= self.ops@.len()
        &&& self.report.created + self.report.deleted + self.report.updated
            + self.report.failures@.len() == self.next
    }

    /// Starts a session over `ops`, which it puts in execution order. The
    /// channels in `observed` and the `targets` serve to plan moves once the
    /// deletes and creates have run.
    pub fn new(observed: Vec<ObservedEntity>, targets: Vec<DesiredEntity>, ops: &Vec<ChangeOperation>) -> (r: Self)
        ensures
            r.wf(),
            r@.ops == in_run_order(ops@),
            r@.next == 0,
            r@.report == (ReportView { created: 0, deleted: 0, updated: 0, failures: seq![] }),
            r@.known == observed@,
            r@.targets == targets@,
            !r@.moves_planned,
    {
        let report = ApplyReport { created: 0, deleted: 0, updated: 0, failures: Vec::new() };
        let r = ApplySession {
            ops: order_ops(ops),
            next: 0,
            report,
            known: observed,
            targets,
            moves_planned: false,
        };
        assert(r@.report =~= (ReportView { created: 0, deleted: 0, updated: 0, failures: seq![] }));
        r
    }

    /// The next operation to perform, if any is left.
    pub fn next_op(&mut self) -> (r: Option<ChangeOperation>)
        requires
            old(self).wf(),
        ensures
            final(self).wf(),
            final(self)@ == after_lookup(old(self)@),
            r == (if final(self)@.next < final(self)@.ops.len() {
                Some(final(self)@.ops[final(self)@.next])
            } else {
                None
            }),
    {
        if self.next >= self.ops.len() && !self.moves_planned {
            let mut moves = plan_moves(&self.known, &self.targets);
            self.ops.append(&mut moves);
            self.moves_planned = true;
        }
        if self.next < self.ops.len() {
            Some(self.ops[self.next].duplicate())
        } else {
            None
        }
    }

    /// Records how the next operation went and moves on to the one after it,
    /// whether it succeeded or failed.
    pub fn record(&mut self, outcome: Outcome)
        requires
            old(self).wf(),
            old(self)@.next < old(self)@.ops.len(),
        ensures
            final(self).wf(),
            final(self)@ == after_record(old(self)@, outcome),
    {
        let len = self.ops.len();
        assert(self.next < len);
        let op = &self.ops[self.next];
        match outcome {
            Outcome::Failed(e) => {
                self.report.failures.push(Failure { op: op.duplicate(), error: e });
            },
            Outcome::Created(e) => {
                match op {
                    ChangeOperation::Create { .. } => {
                        self.report.created = self.report.created + 1;
                        self.known.push(e);
                    },
                    ChangeOperation::Delete { .. } => {
                        self.report.deleted = self.report.deleted + 1;
                    },
                    _ => {
                        self.report.updated = self.report.updated + 1;
                    },
                }
            },
            Outcome::Applied => {
                match op {
                    ChangeOperation::Create { .. } => {
                        self.report.created = self.report.created + 1;
                    },
                    ChangeOperation::Delete { .. } => {
                        self.report.deleted = self.report.deleted + 1;
                    },
                    _ => {
                        self.report.updated = self.report.updated + 1;
                    },
                }
            },
        }
        self.next = self.next + 1;
        proof {
            assert(self@.report =~= after_record(old(self)@, outcome).report);
            assert(self@ =~= after_record(old(self)@, outcome));
        }
    }

    /// The report so far.
    pub fn report(&self) -> (r: &ApplyReport)
        ensures
            r@ == self@.report,
    {
        &self.report
    }

    /// Ends the session and hands back its report.
    pub fn finish(self) -> (r: ApplyReport)
        ensures
            r@ == self@.report,
    {
        self.report
    }
}

/// The state after the operations from `v.next` on went as `outs` says, in turn.
pub open spec fn replay(v: SessionView, outs: Seq<Outcome>) -> SessionView
    decreases outs.len(),
{
    if outs.len() == 0 {
        v
    } else {
        replay(after_record(v, outs[0]), outs.drop_first())
    }
}

/// How many of `outs` are failures.
pub open spec fn failed_count(outs: Seq<Outcome>) -> nat
    decreases outs.len(),
{
    if outs.len() == 0 {
        0
    } else {
        (if outs[0] is Failed { 1nat } else { 0nat }) + failed_count(outs.drop_first())
    }
}

/// The failures that `outs` make of `ops`, one for each failed outcome, in order.
pub open spec fn failures_of(ops: Seq<ChangeOperation>, outs: Seq<Outcome>) -> Seq<Failure>
    decreases outs.len(),
{
    if outs.len() == 0 {
        seq![]
    } else {
        let head = match outs[0] {
            Outcome::Failed(e) => seq![Failure { op: ops[0], error: e }],
            _ => seq![],
        };
        head + failures_of(ops.drop_first(), outs.drop_first())
    }
}

proof fn lemma_failures_len(ops: Seq<ChangeOperation>, outs: Seq<Outcome>)
    ensures
        failures_of(ops, outs).len() == failed_count(outs),
    decreases outs.len(),
{
    if outs.len() > 0 {
        lemma_failures_len(ops.drop_first(), outs.drop_first());
    }
}

/// Apply isolation: whatever the outcomes, every operation runs in turn, a
/// failure stops none of those after it, each failed operation is listed in
/// the report with its error, the report's failures grow by exactly the number
/// of failed outcomes, and its counts by the number of the others.
pub proof fn law_apply_isolation(v: SessionView, outs: Seq<Outcome>)
    requires
        0 <= v.next,
        v.next + outs.len() <= v.ops.len(),
    ensures
        replay(v, outs).next == v.next + outs.len(),
        replay(v, outs).ops == v.ops,
        replay(v, outs).report.failures == v.report.failures + failures_of(
            v.ops.subrange(v.next, v.next + outs.len()),
            outs,
        ),
        replay(v, outs).report.failures.len() == v.report.failures.len() + failed_count(outs),
        replay(v, outs).report.created + replay(v, outs).report.deleted + replay(v, outs).report.updated
            == v.report.created + v.report.deleted + v.report.updated + outs.len() - failed_count(outs),
    decreases outs.len(),
{
    let sub = v.ops.subrange(v.next, v.next + outs.len());
    lemma_failures_len(sub, outs);
    if outs.len() > 0 {
        let v1 = after_record(v, outs[0]);
        let rest = outs.drop_first();
        law_apply_isolation(v1, rest);
        assert(sub.drop_first() =~= v.ops.subrange(v1.next, v1.next + rest.len()));
        assert(sub[0] == v.ops[v.next]);
        let head = match outs[0] {
            Outcome::Failed(e) => seq![Failure { op: sub[0], error: e }],
            _ => seq![],
        };
        assert(failures_of(sub, outs) == head + failures_of(sub.drop_first(), rest));
        assert(v1.report.failures =~= v.report.failures + head);
        assert(replay(v, outs).report.failures =~= v.report.failures + failures_of(sub, outs));
    }
}

/// "N created, M deleted, K updated" for a report.
pub open spec fn summary_text(r: ReportView) -> Seq<char> {
    decimal(r.created) + " created, "@ + decimal(r.deleted) + " deleted, "@ + decimal(r.updated)
        + " updated"@
}

/// A one-line summary of what a pass did.
pub fn summary(report: &ApplyReport) -> (r: String)
    ensures
        r@ == summary_text(report@),
{
    let mut out = String::new();
    push_decimal(&mut out, report.created as u64);
    out.append(" created, ");
    push_decimal(&mut out, report.deleted as u64);
    out.append(" deleted, ");
    push_decimal(&mut out, report.updated as u64);
    out.append(" updated");
    out
}

} // verus!
