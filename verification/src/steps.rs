//! The steps that the host carries out for the driver, and what a run
//! of steps puts on the bus.
use vstd::prelude::*;

verus! {

/// One thing for the host to do.
#[derive(PartialEq, Eq, Debug)]
pub enum Step {
    /// Drive the data/command line: high for data, low for a command.
    Dc(bool),
    /// Drive the reset line high or low.
    Rst(bool),
    /// Pause for this many milliseconds.
    DelayMs(u32),
    /// Hand these bytes to the bus in one write.
    Write(Vec<u8>),
    /// Read the busy line, which is low while the panel is at work.
    WaitBusy,
}

/// A step, with the bytes of a write as a sequence.
pub enum StepView {
    Dc(bool),
    Rst(bool),
    DelayMs(u32),
    Write(Seq<u8>),
    WaitBusy,
}

impl StepView {
    /// The bytes that the step hands to the bus: those of a write, and
    /// none for any other step.
    pub open spec fn bytes(self) -> Seq<u8> {
        match self {
            StepView::Write(bytes) => bytes,
            _ => Seq::empty(),
        }
    }
}

impl View for Step {
    type V = StepView;

    open spec fn view(&self) -> StepView {
        match *self {
            Step::Dc(level) => StepView::Dc(level),
            Step::Rst(level) => StepView::Rst(level),
            Step::DelayMs(ms) => StepView::DelayMs(ms),
            Step::Write(bytes) => StepView::Write(bytes@),
            Step::WaitBusy => StepView::WaitBusy,
        }
    }
}

/// The steps of a list, each by its view.
pub open spec fn transcript(steps: Seq<Step>) -> Seq<StepView> {
    Seq::new(steps.len(), |i: int| steps[i]@)
}

/// Appending a step to a list appends its view to the transcript.
pub proof fn lemma_transcript_push(steps: Seq<Step>, step: Step)
    ensures
        transcript(steps.push(step)) == transcript(steps).push(step@),
{
    assert(transcript(steps.push(step)) =~= transcript(steps).push(step@));
}

/// Appends one step to a list.
pub(crate) fn emit(out: &mut Vec<Step>, step: Step)
    ensures
        transcript(final(out)@) == transcript(old(out)@).push(step@),
{
    proof {
        lemma_transcript_push(out@, step);
    }
    out.push(step);
}

/// All bytes that the steps hand to the bus, in order.
pub open spec fn bus_bytes(steps: Seq<StepView>) -> Seq<u8>
    decreases steps.len(),
{
    if steps.len() == 0 {
        Seq::empty()
    } else {
        bus_bytes(steps.drop_last()) + steps.last().bytes()
    }
}

/// The bytes of two runs of steps, one after the other, are the bytes of
/// the first followed by those of the second.
pub proof fn lemma_bus_bytes_concat(a: Seq<StepView>, b: Seq<StepView>)
    ensures
        bus_bytes(a + b) == bus_bytes(a) + bus_bytes(b),
    decreases b.len(),
{
    if b.len() == 0 {
        assert(a + b =~= a);
        assert(bus_bytes(a) + bus_bytes(b) =~= bus_bytes(a));
    } else {
        assert((a + b).drop_last() =~= a + b.drop_last());
        assert((a + b).last() == b.last());
        lemma_bus_bytes_concat(a, b.drop_last());
        let tail = b.last().bytes();
        assert(bus_bytes(a + b) =~= bus_bytes(a) + bus_bytes(b.drop_last()) + tail);
        assert(bus_bytes(a) + bus_bytes(b) =~= bus_bytes(a) + bus_bytes(b.drop_last()) + tail);
    }
}

/// One step hands the bus the bytes of its write, or nothing.
pub proof fn lemma_bus_bytes_single(step: StepView)
    ensures
        bus_bytes(seq![step]) == step.bytes(),
{
    let one = seq![step];
    assert(one.drop_last() =~= Seq::empty());
    assert(one.last() == step);
    assert(bus_bytes(one.drop_last()) =~= Seq::empty());
    assert(bus_bytes(one) =~= step.bytes());
}

/// Steps that only drive lines, pause or wait put nothing on the bus.
pub proof fn lemma_bus_bytes_silent(steps: Seq<StepView>)
    requires
        forall|i: int| 0 <= i < steps.len() ==> !(#[trigger] steps[i] is Write),
    ensures
        bus_bytes(steps) == Seq::<u8>::empty(),
    decreases steps.len(),
{
    if steps.len() > 0 {
        assert(!(steps[steps.len() - 1] is Write));
        lemma_bus_bytes_silent(steps.drop_last());
        assert(bus_bytes(steps) =~= Seq::<u8>::empty());
    }
}

/// No write among the steps is empty or longer than `chunk` bytes.
pub open spec fn writes_within(steps: Seq<StepView>, chunk: nat) -> bool {
    forall|i: int|
        0 <= i < steps.len() && (#[trigger] steps[i]) is Write ==> 0 < steps[i].bytes().len()
            <= chunk
}

/// Two runs of steps that keep to a chunk size keep to it one after the
/// other.
pub proof fn lemma_writes_within_concat(a: Seq<StepView>, b: Seq<StepView>, chunk: nat)
    requires
        writes_within(a, chunk),
        writes_within(b, chunk),
    ensures
        writes_within(a + b, chunk),
{
    assert forall|i: int| 0 <= i < (a + b).len() && (#[trigger] (a + b)[i]) is Write implies 0 < (a
        + b)[i].bytes().len() <= chunk by {
        if i < a.len() {
            assert((a + b)[i] == a[i]);
        } else {
            assert((a + b)[i] == b[i - a.len()]);
        }
    }
}

} // verus!
