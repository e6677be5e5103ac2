//! The panel protocol: which lines are driven, which bytes are written
//! and which pauses are kept, in which order, for each operation of the
//! panel's life cycle.
//!
//! The driver decides; it performs nothing. Every operation hands the
//! host one step at a time, to carry out on the bus, the two output
//! lines, the busy line or its timer, and takes a report on each. A step
//! that failed ends the operation; a panel that is busy is waited for;
//! only an operation whose every step was carried out moves the driver
//! from one state to the other.
use crate::graphics::DisplayBuffer;
use crate::operation::Operation;
use crate::operation::OperationView;
use crate::operation::Report;
use crate::steps::bus_bytes;
use crate::steps::emit;
use crate::steps::lemma_bus_bytes_concat;
use crate::steps::lemma_bus_bytes_silent;
use crate::steps::lemma_bus_bytes_single;
use crate::steps::lemma_writes_within_concat;
use crate::steps::transcript;
use crate::steps::writes_within;
use crate::steps::Step;
use crate::steps::StepView;
use core::marker::PhantomData;
use vstd::prelude::*;
use vstd::slice::slice_subrange;
use vstd::slice::slice_to_vec;

verus! {

/// Commands of the panel.
#[derive(Clone, Copy, PartialEq, Eq, Debug, Structural)]
pub enum Command {
    Psr,
    PowerOff,
    PowerOn,
    BufferBlack,
    Refresh,
    BufferRed,
    ActiveTemperature,
    InputTemperature,
}

impl Command {
    /// The byte that selects the command on the bus.
    pub open spec fn opcode(self) -> u8 {
        match self {
            Command::Psr => 0x00,
            Command::PowerOff => 0x02,
            Command::PowerOn => 0x04,
            Command::BufferBlack => 0x10,
            Command::Refresh => 0x12,
            Command::BufferRed => 0x13,
            Command::ActiveTemperature => 0xe0,
            Command::InputTemperature => 0xe5,
        }
    }

    /// The opcode of the command.
    pub fn code(self) -> (byte: u8)
        ensures
            byte == self.opcode(),
    {
        match self {
            Command::Psr => 0x00,
            Command::PowerOff => 0x02,
            Command::PowerOn => 0x04,
            Command::BufferBlack => 0x10,
            Command::Refresh => 0x12,
            Command::BufferRed => 0x13,
            Command::ActiveTemperature => 0xe0,
            Command::InputTemperature => 0xe5,
        }
    }
}

/// Register data sent with the soft reset.
pub const REG_DATA_SOFT_RESET: [u8; 1] = [0x0e];

/// Register data of the input temperature.
pub const REG_DATA_INPUT_TEMP: [u8; 1] = [0x19];

/// Register data of the active temperature.
pub const REG_DATA_ACTIVE_TEMP: [u8; 1] = [0x02];

/// Register data of the panel settings.
pub const REG_DATA_PSR: [u8; 2] = [0xcf, 0x8d];

/// The bus writes that carry `data`: one write of everything where
/// `chunk` is 0, else successive writes of `chunk` bytes each, the last
/// one of what is left, and none at all for no data.
pub open spec fn write_steps(data: Seq<u8>, chunk: nat) -> Seq<StepView>
    decreases data.len(),
{
    if chunk == 0 {
        seq![StepView::Write(data)]
    } else if data.len() == 0 {
        Seq::empty()
    } else if data.len() <= chunk {
        seq![StepView::Write(data)]
    } else {
        seq![StepView::Write(data.take(chunk as int))] + write_steps(data.skip(chunk as int), chunk)
    }
}

/// A command with its data: data/command low, the opcode, data/command
/// high, the data.
pub open spec fn send_data_steps(cmd: Command, data: Seq<u8>, chunk: nat) -> Seq<StepView> {
    seq![StepView::Dc(false)] + write_steps(seq![cmd.opcode()], chunk) + seq![StepView::Dc(true)]
        + write_steps(data, chunk)
}

/// A command with its data, then a wait for the panel to end its work.
pub open spec fn send_and_wait_steps(cmd: Command, data: Seq<u8>, chunk: nat) -> Seq<StepView> {
    send_data_steps(cmd, data, chunk) + seq![StepView::WaitBusy]
}

/// The reset pulse: high for 5 ms, low for 10 ms, high for 5 ms, after a
/// pause of 1 ms.
pub open spec fn reset_steps() -> Seq<StepView> {
    seq![
        StepView::DelayMs(1),
        StepView::Rst(true),
        StepView::DelayMs(5),
        StepView::Rst(false),
        StepView::DelayMs(10),
        StepView::Rst(true),
        StepView::DelayMs(5),
    ]
}

/// Bringing the panel up: data/command high, the reset pulse, the soft
/// reset and a wait, then the two temperatures and the panel settings.
pub open spec fn init_steps(chunk: nat) -> Seq<StepView> {
    seq![StepView::Dc(true)] + reset_steps() + send_and_wait_steps(
        Command::Psr,
        seq![0x0eu8],
        chunk,
    ) + send_data_steps(Command::InputTemperature, seq![0x19u8], chunk) + send_data_steps(
        Command::ActiveTemperature,
        seq![0x02u8],
        chunk,
    ) + send_data_steps(Command::Psr, seq![0xcfu8, 0x8du8], chunk)
}

/// Showing a picture: the black plane, the red plane, power on and a
/// wait, refresh and a wait.
pub open spec fn update_steps(black: Seq<u8>, red: Seq<u8>, chunk: nat) -> Seq<StepView> {
    send_data_steps(Command::BufferBlack, black, chunk) + send_data_steps(
        Command::BufferRed,
        red,
        chunk,
    ) + send_and_wait_steps(Command::PowerOn, seq![0x00u8], chunk) + send_and_wait_steps(
        Command::Refresh,
        seq![0x00u8],
        chunk,
    )
}

/// Taking the panel down: power off and a wait, data/command low,
/// 150 ms for the panel to discharge, reset low.
pub open spec fn power_off_steps(chunk: nat) -> Seq<StepView> {
    send_and_wait_steps(Command::PowerOff, seq![0x00u8], chunk) + seq![
        StepView::Dc(false),
        StepView::DelayMs(150),
        StepView::Rst(false),
    ]
}

/// What can go wrong: each kind holds the error of the part of the host
/// that failed.
#[derive(Debug)]
pub enum Error<SpiError, DcError, RstError> {
    /// A write to the bus failed.
    Spi(SpiError),
    /// The data/command line could not be driven.
    GpioDc(DcError),
    /// The reset line could not be driven.
    GpioRst(RstError),
}

/// State of a driver whose panel is up and takes pictures.
pub struct Active;

/// State of a driver whose panel is down.
pub struct Inactive;

/// The states of a driver.
pub trait EpdState {

}

impl EpdState for Active {

}

impl EpdState for Inactive {

}

/// The driver of one panel, in the state `STATE`.
pub struct Epd<STATE: EpdState> {
    /// Most bytes that one bus write may carry (0: no limit).
    spi_chunk_size: usize,
    state: PhantomData<STATE>,
}

impl<STATE: EpdState> Epd<STATE> {
    /// The most bytes that one bus write may carry (0: no limit).
    pub closed spec fn chunk_size(&self) -> nat {
        self.spi_chunk_size as nat
    }

    /// Adds the reset pulse.
    pub fn reset(&self, out: &mut Vec<Step>)
        ensures
            transcript(final(out)@) == transcript(old(out)@) + reset_steps(),
    {
        emit(out, Step::DelayMs(1));
        emit(out, Step::Rst(true));
        emit(out, Step::DelayMs(5));
        emit(out, Step::Rst(false));
        emit(out, Step::DelayMs(10));
        emit(out, Step::Rst(true));
        emit(out, Step::DelayMs(5));
        proof {
            assert(transcript(out@) =~= transcript(old(out)@) + reset_steps());
        }
    }

    /// Adds a wait for the busy line.
    pub fn wait_busy(&self, out: &mut Vec<Step>)
        ensures
            transcript(final(out)@) == transcript(old(out)@) + seq![StepView::WaitBusy],
    {
        emit(out, Step::WaitBusy);
        proof {
            assert(transcript(out@) =~= transcript(old(out)@) + seq![StepView::WaitBusy]);
        }
    }

    /// Adds the bus writes that carry `data`, none of them longer than
    /// the chunk size where there is one.
    pub fn write(&self, data: &[u8], out: &mut Vec<Step>)
        ensures
            transcript(final(out)@) == transcript(old(out)@) + write_steps(
                data@,
                self.chunk_size(),
            ),
    {
        let chunk: usize = self.spi_chunk_size;
        if chunk > 0 {
            let mut start: usize = 0;
            proof {
                assert(data@.skip(0) =~= data@);
            }
            while start < data.len()
                invariant
                    chunk > 0,
                    chunk == self.chunk_size(),
                    start <= data.len(),
                    transcript(old(out)@) + write_steps(data@, chunk as nat) == transcript(out@)
                        + write_steps(data@.skip(start as int), chunk as nat),
                decreases data.len() - start,
            {
                let left: usize = data.len() - start;
                let end: usize = if left <= chunk {
                    data.len()
                } else {
                    start + chunk
                };
                let piece: Vec<u8> = slice_to_vec(slice_subrange(data, start, end));
                proof {
                    let rest = data@.skip(start as int);
                    let tail = write_steps(data@.skip(end as int), chunk as nat);
                    if left <= chunk {
                        assert(piece@ =~= rest);
                        assert(data@.skip(end as int).len() == 0);
                        assert(write_steps(rest, chunk as nat) =~= seq![StepView::Write(piece@)]
                            + tail);
                    } else {
                        assert(piece@ =~= rest.take(chunk as int));
                        assert(rest.skip(chunk as int) =~= data@.skip(end as int));
                    }
                    assert(transcript(out@) + (seq![StepView::Write(piece@)] + tail) =~= transcript(
                        out@,
                    ).push(StepView::Write(piece@)) + tail);
                }
                emit(out, Step::Write(piece));
                start = end;
            }
            proof {
                assert(write_steps(data@.skip(start as int), chunk as nat) =~= Seq::empty());
                assert(transcript(out@) + Seq::<StepView>::empty() =~= transcript(out@));
            }
        } else {
            let whole: Vec<u8> = slice_to_vec(data);
            emit(out, Step::Write(whole));
            proof {
                assert(transcript(out@) =~= transcript(old(out)@) + write_steps(
                    data@,
                    self.chunk_size(),
                ));
            }
        }
    }

    /// Adds a command and its data.
    pub fn send_data(&self, cmd: Command, data: &[u8], out: &mut Vec<Step>)
        ensures
            transcript(final(out)@) == transcript(old(out)@) + send_data_steps(
                cmd,
                data@,
                self.chunk_size(),
            ),
    {
        emit(out, Step::Dc(false));
        let opcode: [u8; 1] = [cmd.code()];
        proof {
            assert(opcode@ =~= seq![cmd.opcode()]);
        }
        self.write(opcode.as_slice(), out);
        emit(out, Step::Dc(true));
        self.write(data, out);
        proof {
            assert(transcript(out@) =~= transcript(old(out)@) + send_data_steps(
                cmd,
                data@,
                self.chunk_size(),
            ));
        }
    }

    /// Adds a command and its data, then a wait for the busy line.
    fn send_and_wait(&self, cmd: Command, data: &[u8], out: &mut Vec<Step>)
        ensures
            transcript(final(out)@) == transcript(old(out)@) + send_and_wait_steps(
                cmd,
                data@,
                self.chunk_size(),
            ),
    {
        self.send_data(cmd, data, out);
        self.wait_busy(out);
        proof {
            assert(transcript(out@) =~= transcript(old(out)@) + send_and_wait_steps(
                cmd,
                data@,
                self.chunk_size(),
            ));
        }
    }

    /// Adds the soft reset and the wait that follows it.
    pub fn soft_reset(&self, out: &mut Vec<Step>)
        ensures
            transcript(final(out)@) == transcript(old(out)@) + send_and_wait_steps(
                Command::Psr,
                seq![0x0eu8],
                self.chunk_size(),
            ),
    {
        let data: [u8; 1] = REG_DATA_SOFT_RESET;
        proof {
            assert(data@ =~= seq![0x0eu8]);
        }
        self.send_and_wait(Command::Psr, data.as_slice(), out);
    }

    /// Adds the power-on command and the wait that follows it.
    pub fn power_on(&self, out: &mut Vec<Step>)
        ensures
            transcript(final(out)@) == transcript(old(out)@) + send_and_wait_steps(
                Command::PowerOn,
                seq![0x00u8],
                self.chunk_size(),
            ),
    {
        let data: [u8; 1] = [0x0];
        proof {
            assert(data@ =~= seq![0x00u8]);
        }
        self.send_and_wait(Command::PowerOn, data.as_slice(), out);
    }

    /// Adds the refresh command and the wait that follows it.
    pub fn display_refresh(&self, out: &mut Vec<Step>)
        ensures
            transcript(final(out)@) == transcript(old(out)@) + send_and_wait_steps(
                Command::Refresh,
                seq![0x00u8],
                self.chunk_size(),
            ),
    {
        let data: [u8; 1] = [0x0];
        proof {
            assert(data@ =~= seq![0x00u8]);
        }
        self.send_and_wait(Command::Refresh, data.as_slice(), out);
    }
}

/// A change of state under way: the operation that brings it about, and
/// the driver as it was.
pub struct Transition<FROM: EpdState, TO: EpdState> {
    operation: Operation,
    from: Epd<FROM>,
    to: PhantomData<TO>,
}

impl<FROM: EpdState, TO: EpdState> Transition<FROM, TO> {
    /// The operation that brings the change about.
    pub closed spec fn operation(&self) -> OperationView {
        self.operation@
    }

    /// The chunk size of the driver that changes state.
    pub closed spec fn chunk_size(&self) -> nat {
        self.from.chunk_size()
    }

    /// All steps of the change, in order.
    pub fn steps(&self) -> (steps: &Vec<Step>)
        ensures
            transcript(steps@) == self.operation().plan,
    {
        self.operation.steps()
    }

    /// The step for the host to carry out now.
    pub fn next_step(&self) -> (step: Option<&Step>)
        ensures
            step is Some == self.operation().next_step() is Some,
            step is Some ==> step->Some_0@ == self.operation().next_step()->Some_0,
    {
        self.operation.next_step()
    }

    /// Takes the host's report on the step that was handed out. The
    /// error of a step that failed comes back as it is.
    pub fn advance<SpiError, DcError, RstError>(
        &mut self,
        report: Report<SpiError, DcError, RstError>,
    ) -> (r: Result<(), Error<SpiError, DcError, RstError>>)
        ensures
            final(self).operation() == old(self).operation().after(report),
            final(self).chunk_size() == old(self).chunk_size(),
            report is Failed ==> r is Err && r->Err_0 == report->Failed_0,
            !(report is Failed) ==> r is Ok,
    {
        self.operation.advance(report)
    }

    /// Ends the change. Where every step was carried out, the driver
    /// comes back in its new state; else it comes back in the state
    /// that it was to leave.
    pub fn complete(self) -> (r: Result<Epd<TO>, Epd<FROM>>)
        ensures
            self.operation().finished() ==> r is Ok && r->Ok_0.chunk_size() == self.chunk_size(),
            !self.operation().finished() ==> r is Err && r->Err_0.chunk_size()
                == self.chunk_size(),
    {
        if self.operation.is_finished() {
            Ok(Epd { spi_chunk_size: self.from.spi_chunk_size, state: PhantomData })
        } else {
            Err(self.from)
        }
    }
}

impl Epd<Inactive> {
    /// A driver for a panel that is down. `spi_chunk_size` is the most
    /// bytes that one bus write may carry; 0 sets no limit.
    pub fn new(spi_chunk_size: usize) -> (epd: Self)
        ensures
            epd.chunk_size() == spi_chunk_size,
    {
        Self { spi_chunk_size, state: PhantomData }
    }

    /// Begins bringing the panel up. The driver is active once the host
    /// has carried out every step and the change is completed.
    pub fn init(self) -> (t: Transition<Inactive, Active>)
        ensures
            t.operation() == (OperationView {
                plan: init_steps(self.chunk_size()),
                done: 0,
                failed: false,
            }),
            t.chunk_size() == self.chunk_size(),
    {
        let mut steps: Vec<Step> = Vec::new();
        emit(&mut steps, Step::Dc(true));
        self.reset(&mut steps);
        self.soft_reset(&mut steps);
        let input: [u8; 1] = REG_DATA_INPUT_TEMP;
        let active: [u8; 1] = REG_DATA_ACTIVE_TEMP;
        let psr: [u8; 2] = REG_DATA_PSR;
        proof {
            assert(input@ =~= seq![0x19u8]);
            assert(active@ =~= seq![0x02u8]);
            assert(psr@ =~= seq![0xcfu8, 0x8du8]);
        }
        self.send_data(Command::InputTemperature, input.as_slice(), &mut steps);
        self.send_data(Command::ActiveTemperature, active.as_slice(), &mut steps);
        self.send_data(Command::Psr, psr.as_slice(), &mut steps);
        proof {
            assert(transcript(steps@) =~= init_steps(self.chunk_size()));
        }
        Transition { operation: Operation::new(steps), from: self, to: PhantomData }
    }
}

impl Epd<Active> {
    /// Begins showing a picture on the panel: both planes are sent
    /// whole, then the panel is powered and refreshed.
    pub fn update<D: DisplayBuffer>(&mut self, display: &D) -> (op: Operation)
        ensures
            final(self).chunk_size() == old(self).chunk_size(),
            op@ == (OperationView {
                plan: update_steps(
                    display.black_plane(),
                    display.red_plane(),
                    old(self).chunk_size(),
                ),
                done: 0,
                failed: false,
            }),
    {
        let mut steps: Vec<Step> = Vec::new();
        self.send_data(Command::BufferBlack, display.get_buffer_black(), &mut steps);
        self.send_data(Command::BufferRed, display.get_buffer_red(), &mut steps);
        self.power_on(&mut steps);
        self.display_refresh(&mut steps);
        proof {
            assert(transcript(steps@) =~= update_steps(
                display.black_plane(),
                display.red_plane(),
                old(self).chunk_size(),
            ));
        }
        Operation::new(steps)
    }

    /// Begins taking the panel down. The driver is inactive once the
    /// host has carried out every step and the change is completed.
    pub fn power_off(self) -> (t: Transition<Active, Inactive>)
        ensures
            t.operation() == (OperationView {
                plan: power_off_steps(self.chunk_size()),
                done: 0,
                failed: false,
            }),
            t.chunk_size() == self.chunk_size(),
    {
        let mut steps: Vec<Step> = Vec::new();
        let data: [u8; 1] = [0x0];
        proof {
            assert(data@ =~= seq![0x00u8]);
        }
        self.send_and_wait(Command::PowerOff, data.as_slice(), &mut steps);
        emit(&mut steps, Step::Dc(false));
        emit(&mut steps, Step::DelayMs(150));
        emit(&mut steps, Step::Rst(false));
        proof {
            assert(transcript(steps@) =~= power_off_steps(self.chunk_size()));
        }
        Transition { operation: Operation::new(steps), from: self, to: PhantomData }
    }
}

/// Splitting is invisible to the panel: whatever the chunk size, the
/// writes carry the data whole and in order. With a chunk size, every
/// write carries at least one byte and at most that many.
pub proof fn lemma_write_steps_carry_data(data: Seq<u8>, chunk: nat)
    ensures
        bus_bytes(write_steps(data, chunk)) == data,
        forall|i: int|
            0 <= i < write_steps(data, chunk).len() ==> #[trigger] write_steps(data, chunk)[i]
                is Write,
        chunk > 0 ==> forall|i: int|
            0 <= i < write_steps(data, chunk).len() ==> 0 < (#[trigger] write_steps(
                data,
                chunk,
            )[i]).bytes().len() <= chunk,
    decreases data.len(),
{
    if chunk == 0 || (0 < data.len() <= chunk) {
        lemma_bus_bytes_single(StepView::Write(data));
    } else if data.len() == 0 {
        assert(bus_bytes(write_steps(data, chunk)) =~= data);
    } else {
        let head = seq![StepView::Write(data.take(chunk as int))];
        let rest = write_steps(data.skip(chunk as int), chunk);
        lemma_write_steps_carry_data(data.skip(chunk as int), chunk);
        lemma_bus_bytes_single(StepView::Write(data.take(chunk as int)));
        lemma_bus_bytes_concat(head, rest);
        assert(data.take(chunk as int) + data.skip(chunk as int) =~= data);
        assert forall|i: int| 0 <= i < write_steps(data, chunk).len() implies (#[trigger] write_steps(
            data,
            chunk,
        )[i]) is Write && 0 < write_steps(data, chunk)[i].bytes().len() <= chunk by {
            if i > 0 {
                assert(write_steps(data, chunk)[i] == rest[i - 1]);
            }
        }
    }
}

/// Whatever the chunk size, a command puts its opcode and then its data
/// on the bus, and nothing else.
pub proof fn lemma_send_data_bytes(cmd: Command, data: Seq<u8>, chunk: nat)
    ensures
        bus_bytes(send_data_steps(cmd, data, chunk)) == seq![cmd.opcode()] + data,
{
    let low = seq![StepView::Dc(false)];
    let opcode = write_steps(seq![cmd.opcode()], chunk);
    let high = seq![StepView::Dc(true)];
    let payload = write_steps(data, chunk);
    lemma_write_steps_carry_data(seq![cmd.opcode()], chunk);
    lemma_write_steps_carry_data(data, chunk);
    lemma_bus_bytes_single(StepView::Dc(false));
    lemma_bus_bytes_single(StepView::Dc(true));
    lemma_bus_bytes_concat(low, opcode);
    lemma_bus_bytes_concat(low + opcode, high);
    lemma_bus_bytes_concat(low + opcode + high, payload);
    assert(bus_bytes(send_data_steps(cmd, data, chunk)) =~= seq![cmd.opcode()] + data);
}

/// A command followed by a wait puts on the bus what the command alone
/// does.
pub proof fn lemma_send_and_wait_bytes(cmd: Command, data: Seq<u8>, chunk: nat)
    ensures
        bus_bytes(send_and_wait_steps(cmd, data, chunk)) == seq![cmd.opcode()] + data,
{
    lemma_send_data_bytes(cmd, data, chunk);
    lemma_bus_bytes_single(StepView::WaitBusy);
    lemma_bus_bytes_concat(send_data_steps(cmd, data, chunk), seq![StepView::WaitBusy]);
    assert(bus_bytes(send_and_wait_steps(cmd, data, chunk)) =~= seq![cmd.opcode()] + data);
}

/// Whatever the chunk size, bringing the panel up puts the same nine
/// bytes on the bus.
pub proof fn lemma_init_bytes(chunk: nat)
    ensures
        bus_bytes(init_steps(chunk)) == seq![
            0x00u8,
            0x0eu8,
            0xe5u8,
            0x19u8,
            0xe0u8,
            0x02u8,
            0x00u8,
            0xcfu8,
            0x8du8,
        ],
{
    let a = seq![StepView::Dc(true)];
    let b = reset_steps();
    let c = send_and_wait_steps(Command::Psr, seq![0x0eu8], chunk);
    let d = send_data_steps(Command::InputTemperature, seq![0x19u8], chunk);
    let e = send_data_steps(Command::ActiveTemperature, seq![0x02u8], chunk);
    let f = send_data_steps(Command::Psr, seq![0xcfu8, 0x8du8], chunk);
    lemma_bus_bytes_silent(a);
    lemma_bus_bytes_silent(b);
    lemma_send_and_wait_bytes(Command::Psr, seq![0x0eu8], chunk);
    lemma_send_data_bytes(Command::InputTemperature, seq![0x19u8], chunk);
    lemma_send_data_bytes(Command::ActiveTemperature, seq![0x02u8], chunk);
    lemma_send_data_bytes(Command::Psr, seq![0xcfu8, 0x8du8], chunk);
    lemma_bus_bytes_concat(a, b);
    lemma_bus_bytes_concat(a + b, c);
    lemma_bus_bytes_concat(a + b + c, d);
    lemma_bus_bytes_concat(a + b + c + d, e);
    lemma_bus_bytes_concat(a + b + c + d + e, f);
    assert(bus_bytes(init_steps(chunk)) =~= seq![
        0x00u8,
        0x0eu8,
        0xe5u8,
        0x19u8,
        0xe0u8,
        0x02u8,
        0x00u8,
        0xcfu8,
        0x8du8,
    ]);
}

/// Whatever the chunk size, showing a picture puts both planes on the
/// bus whole, each behind its command, and then the two commands that
/// power and refresh the panel.
pub proof fn lemma_update_bytes(black: Seq<u8>, red: Seq<u8>, chunk: nat)
    ensures
        bus_bytes(update_steps(black, red, chunk)) == seq![0x10u8] + black + seq![0x13u8] + red
            + seq![0x04u8, 0x00u8, 0x12u8, 0x00u8],
{
    let a = send_data_steps(Command::BufferBlack, black, chunk);
    let b = send_data_steps(Command::BufferRed, red, chunk);
    let c = send_and_wait_steps(Command::PowerOn, seq![0x00u8], chunk);
    let d = send_and_wait_steps(Command::Refresh, seq![0x00u8], chunk);
    lemma_send_data_bytes(Command::BufferBlack, black, chunk);
    lemma_send_data_bytes(Command::BufferRed, red, chunk);
    lemma_send_and_wait_bytes(Command::PowerOn, seq![0x00u8], chunk);
    lemma_send_and_wait_bytes(Command::Refresh, seq![0x00u8], chunk);
    lemma_bus_bytes_concat(a, b);
    lemma_bus_bytes_concat(a + b, c);
    lemma_bus_bytes_concat(a + b + c, d);
    assert(bus_bytes(update_steps(black, red, chunk)) =~= seq![0x10u8] + black + seq![0x13u8] + red
        + seq![0x04u8, 0x00u8, 0x12u8, 0x00u8]);
}

/// Whatever the chunk size, taking the panel down puts the power-off
/// command and its one byte of data on the bus.
pub proof fn lemma_power_off_bytes(chunk: nat)
    ensures
        bus_bytes(power_off_steps(chunk)) == seq![0x02u8, 0x00u8],
{
    let a = send_and_wait_steps(Command::PowerOff, seq![0x00u8], chunk);
    let b = seq![StepView::Dc(false), StepView::DelayMs(150), StepView::Rst(false)];
    lemma_send_and_wait_bytes(Command::PowerOff, seq![0x00u8], chunk);
    lemma_bus_bytes_silent(b);
    lemma_bus_bytes_concat(a, b);
    assert(bus_bytes(power_off_steps(chunk)) =~= seq![0x02u8, 0x00u8]);
}

/// With a chunk size, no write of a command or of its data is longer
/// than that, nor is any empty.
pub proof fn lemma_send_data_within(cmd: Command, data: Seq<u8>, chunk: nat)
    requires
        chunk > 0,
    ensures
        writes_within(send_data_steps(cmd, data, chunk), chunk),
        writes_within(send_and_wait_steps(cmd, data, chunk), chunk),
{
    let low = seq![StepView::Dc(false)];
    let opcode = write_steps(seq![cmd.opcode()], chunk);
    let high = seq![StepView::Dc(true)];
    let payload = write_steps(data, chunk);
    lemma_write_steps_carry_data(seq![cmd.opcode()], chunk);
    lemma_write_steps_carry_data(data, chunk);
    lemma_writes_within_concat(low, opcode, chunk);
    lemma_writes_within_concat(low + opcode, high, chunk);
    lemma_writes_within_concat(low + opcode + high, payload, chunk);
    lemma_writes_within_concat(
        send_data_steps(cmd, data, chunk),
        seq![StepView::WaitBusy],
        chunk,
    );
}

/// With a chunk size, no operation of the life cycle asks the bus for a
/// write that is longer than that, whatever the size of the planes.
pub proof fn lemma_operations_within(black: Seq<u8>, red: Seq<u8>, chunk: nat)
    requires
        chunk > 0,
    ensures
        writes_within(init_steps(chunk), chunk),
        writes_within(update_steps(black, red, chunk), chunk),
        writes_within(power_off_steps(chunk), chunk),
{
    let a = seq![StepView::Dc(true)];
    let b = reset_steps();
    let c = send_and_wait_steps(Command::Psr, seq![0x0eu8], chunk);
    let d = send_data_steps(Command::InputTemperature, seq![0x19u8], chunk);
    let e = send_data_steps(Command::ActiveTemperature, seq![0x02u8], chunk);
    let f = send_data_steps(Command::Psr, seq![0xcfu8, 0x8du8], chunk);
    lemma_send_data_within(Command::Psr, seq![0x0eu8], chunk);
    lemma_send_data_within(Command::InputTemperature, seq![0x19u8], chunk);
    lemma_send_data_within(Command::ActiveTemperature, seq![0x02u8], chunk);
    lemma_send_data_within(Command::Psr, seq![0xcfu8, 0x8du8], chunk);
    lemma_writes_within_concat(a, b, chunk);
    lemma_writes_within_concat(a + b, c, chunk);
    lemma_writes_within_concat(a + b + c, d, chunk);
    lemma_writes_within_concat(a + b + c + d, e, chunk);
    lemma_writes_within_concat(a + b + c + d + e, f, chunk);

    let g = send_data_steps(Command::BufferBlack, black, chunk);
    let h = send_data_steps(Command::BufferRed, red, chunk);
    let i = send_and_wait_steps(Command::PowerOn, seq![0x00u8], chunk);
    let j = send_and_wait_steps(Command::Refresh, seq![0x00u8], chunk);
    lemma_send_data_within(Command::BufferBlack, black, chunk);
    lemma_send_data_within(Command::BufferRed, red, chunk);
    lemma_send_data_within(Command::PowerOn, seq![0x00u8], chunk);
    lemma_send_data_within(Command::Refresh, seq![0x00u8], chunk);
    lemma_writes_within_concat(g, h, chunk);
    lemma_writes_within_concat(g + h, i, chunk);
    lemma_writes_within_concat(g + h + i, j, chunk);

    let k = send_and_wait_steps(Command::PowerOff, seq![0x00u8], chunk);
    let l = seq![StepView::Dc(false), StepView::DelayMs(150), StepView::Rst(false)];
    lemma_send_data_within(Command::PowerOff, seq![0x00u8], chunk);
    lemma_writes_within_concat(k, l, chunk);
}

} // verus!
