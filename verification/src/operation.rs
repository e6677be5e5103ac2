//! An operation under way: the driver hands the host one step at a
//! time and takes its report on each.
use crate::driver::Error;
use crate::steps::transcript;
use crate::steps::Step;
use crate::steps::StepView;
use vstd::prelude::*;

verus! {

/// What the host found when it carried out a step.
#[derive(Debug)]
pub enum Report<SpiError, DcError, RstError> {
    /// The step was carried out. For a wait: the busy line reads high.
    Done,
    /// The step was a wait, and the busy line still reads low.
    Busy,
    /// The step failed.
    Failed(Error<SpiError, DcError, RstError>),
}

/// An operation under way, as the host sees it: all its steps, how many
/// of them were carried out, and whether one has failed.
pub struct OperationView {
    pub plan: Seq<StepView>,
    pub done: nat,
    pub failed: bool,
}

impl OperationView {
    /// A step is left to carry out and none has failed.
    pub open spec fn pending(self) -> bool {
        !self.failed && self.done < self.plan.len()
    }

    /// Every step was carried out.
    pub open spec fn finished(self) -> bool {
        !self.failed && self.done >= self.plan.len()
    }

    /// The step for the host to carry out now: the first that is not
    /// done, and none once a step has failed.
    pub open spec fn next_step(self) -> Option<StepView> {
        if self.pending() {
            Some(self.plan[self.done as int])
        } else {
            None
        }
    }

    /// The operation after a report of the host. A failure ends it. A
    /// busy panel leaves it where it is, so that the wait is handed out
    /// again. A step that was carried out makes way for the next.
    pub open spec fn after<SpiError, DcError, RstError>(
        self,
        report: Report<SpiError, DcError, RstError>,
    ) -> OperationView {
        match report {
            Report::Failed(_) => OperationView { failed: true, ..self },
            Report::Busy => self,
            Report::Done => if self.pending() {
                OperationView { done: self.done + 1, ..self }
            } else {
                self
            },
        }
    }

    /// The operation after a run of reports, the first one first.
    pub open spec fn after_all<SpiError, DcError, RstError>(
        self,
        reports: Seq<Report<SpiError, DcError, RstError>>,
    ) -> OperationView
        decreases reports.len(),
    {
        if reports.len() == 0 {
            self
        } else {
            self.after_all(reports.drop_last()).after(reports.last())
        }
    }
}

/// An operation of the life cycle under way.
pub struct Operation {
    steps: Vec<Step>,
    done: usize,
    failed: bool,
}

impl View for Operation {
    type V = OperationView;

    closed spec fn view(&self) -> OperationView {
        OperationView { plan: transcript(self.steps@), done: self.done as nat, failed: self.failed }
    }
}

impl Operation {
    /// An operation that is to carry out the given steps.
    pub fn new(steps: Vec<Step>) -> (op: Operation)
        ensures
            op@ == (OperationView { plan: transcript(steps@), done: 0, failed: false }),
    {
        Operation { steps, done: 0, failed: false }
    }

    /// All steps of the operation, in order.
    pub fn steps(&self) -> (steps: &Vec<Step>)
        ensures
            transcript(steps@) == self@.plan,
    {
        &self.steps
    }

    /// The step for the host to carry out now.
    pub fn next_step(&self) -> (step: Option<&Step>)
        ensures
            step is Some == self@.next_step() is Some,
            step is Some ==> step->Some_0@ == self@.next_step()->Some_0,
    {
        if !self.failed && self.done < self.steps.len() {
            Some(&self.steps[self.done])
        } else {
            None
        }
    }

    /// Whether every step was carried out.
    pub fn is_finished(&self) -> (b: bool)
        ensures
            b == self@.finished(),
    {
        !self.failed && self.done >= self.steps.len()
    }

    /// Takes the host's report on the step that was handed out. The
    /// error of a step that failed comes back as it is.
    pub fn advance<SpiError, DcError, RstError>(
        &mut self,
        report: Report<SpiError, DcError, RstError>,
    ) -> (r: Result<(), Error<SpiError, DcError, RstError>>)
        ensures
            final(self)@ == old(self)@.after(report),
            report is Failed ==> r is Err && r->Err_0 == report->Failed_0,
            !(report is Failed) ==> r is Ok,
    {
        match report {
            Report::Failed(e) => {
                self.failed = true;
                Err(e)
            },
            Report::Busy => Ok(()),
            Report::Done => {
                if !self.failed && self.done < self.steps.len() {
                    self.done = self.done + 1;
                }
                Ok(())
            },
        }
    }
}

/// Whatever the host reports, the steps stay as they are, none is
/// skipped and none is taken back: the number of steps carried out never
/// falls, grows by at most one with each report, and never passes the
/// number of steps that there are.
pub proof fn lemma_steps_in_order<SpiError, DcError, RstError>(
    op: OperationView,
    reports: Seq<Report<SpiError, DcError, RstError>>,
)
    ensures
        op.after_all(reports).plan == op.plan,
        op.done <= op.after_all(reports).done <= op.done + reports.len(),
        op.done <= op.plan.len() ==> op.after_all(reports).done <= op.plan.len(),
    decreases reports.len(),
{
    if reports.len() > 0 {
        lemma_steps_in_order(op, reports.drop_last());
    }
}

/// An operation has failed exactly when it had failed before or one of
/// the reports since was a failure.
pub proof fn lemma_failed_iff_reported<SpiError, DcError, RstError>(
    op: OperationView,
    reports: Seq<Report<SpiError, DcError, RstError>>,
)
    ensures
        op.after_all(reports).failed <==> op.failed || exists|i: int|
            0 <= i < reports.len() && #[trigger] reports[i] is Failed,
    decreases reports.len(),
{
    if reports.len() > 0 {
        let front = reports.drop_last();
        lemma_failed_iff_reported(op, front);
        if op.after_all(reports).failed && !op.failed {
            if op.after_all(front).failed {
                let i = choose|i: int| 0 <= i < front.len() && #[trigger] front[i] is Failed;
                assert(reports[i] is Failed);
            } else {
                assert(reports[reports.len() - 1] is Failed);
            }
        }
        if exists|i: int| 0 <= i < reports.len() && #[trigger] reports[i] is Failed {
            let i = choose|i: int| 0 <= i < reports.len() && #[trigger] reports[i] is Failed;
            if i < front.len() {
                assert(front[i] is Failed);
            }
        }
    }
}

/// Once a step has failed the operation is over: whatever is reported
/// afterwards, no further step is handed out and the operation never
/// counts as finished.
pub proof fn lemma_failure_ends<SpiError, DcError, RstError>(
    op: OperationView,
    failure: Error<SpiError, DcError, RstError>,
    reports: Seq<Report<SpiError, DcError, RstError>>,
)
    ensures
        op.after(Report::Failed(failure)).after_all(reports).next_step() is None,
        !op.after(Report::Failed(failure)).after_all(reports).finished(),
        op.after(Report::Failed(failure)).after_all(reports).done == op.done,
    decreases reports.len(),
{
    if reports.len() > 0 {
        lemma_failure_ends(op, failure, reports.drop_last());
    }
}

/// An operation that starts at its first step is finished only when
/// the host has reported on every step and none of its reports was a
/// failure.
pub proof fn lemma_finished_means_all_done<SpiError, DcError, RstError>(
    plan: Seq<StepView>,
    reports: Seq<Report<SpiError, DcError, RstError>>,
)
    requires
        (OperationView { plan, done: 0, failed: false }).after_all(reports).finished(),
    ensures
        reports.len() >= plan.len(),
        forall|i: int| 0 <= i < reports.len() ==> !(#[trigger] reports[i] is Failed),
        (OperationView { plan, done: 0, failed: false }).after_all(reports).done == plan.len(),
{
    let op = OperationView { plan, done: 0, failed: false };
    lemma_steps_in_order(op, reports);
    lemma_failed_iff_reported(op, reports);
}

/// While the panel is busy the same wait is handed out again, however
/// often the host asks.
pub proof fn lemma_busy_waits<SpiError, DcError, RstError>(
    op: OperationView,
    reports: Seq<Report<SpiError, DcError, RstError>>,
)
    requires
        forall|i: int| 0 <= i < reports.len() ==> #[trigger] reports[i] is Busy,
    ensures
        op.after_all(reports) == op,
    decreases reports.len(),
{
    if reports.len() > 0 {
        assert(reports[reports.len() - 1] is Busy);
        lemma_busy_waits(op, reports.drop_last());
    }
}

} // verus!
