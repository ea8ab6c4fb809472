//! Exchanges with the modem: a fixed script of commands and reads, run one event at a time.

use vstd::prelude::*;

use crate::clock::{deadline_fits, fits};
use crate::gps;
use crate::rx::{Action, Aim, Event, Receiver, RxState, LINE_ROOM, RX_ROOM};
use crate::system_info;
use crate::text::{append_bytes, bytes, clip, text};

verus! {

/// The most bytes of replies that a session collects.
pub const REPLY_ROOM: usize = 768;

/// One step of a script.
#[derive(Clone, Copy)]
pub enum Step {
    /// Throw away what comes in.
    Drain { heeds_overrun: bool, millis: u64 },
    /// Send a command.
    Send { command: &'static str },
    /// Wait for a report of the modem, however many other bytes come before it.
    WaitFor { marker: &'static str, millis: u64 },
    /// Read up to a marker, `room` bytes at most, and throw it all away.
    SkipPast { marker: &'static str, room: usize, millis: u64 },
    /// Read up to a marker, as part of the reply.
    ReadUntil { marker: &'static str, heeds_overrun: bool, room: usize, millis: u64 },
    /// Read the first line that starts with the prefix, as part of the reply.
    ReadLine { prefix: &'static str, millis: u64 },
}

impl Step {
    /// How long the step may read, if it reads.
    pub open spec fn reads_for(self) -> Option<u64> {
        match self {
            Step::Drain { millis, .. } => Some(millis),
            Step::Send { .. } => None,
            Step::WaitFor { millis, .. } => Some(millis),
            Step::SkipPast { millis, .. } => Some(millis),
            Step::ReadUntil { millis, .. } => Some(millis),
            Step::ReadLine { millis, .. } => Some(millis),
        }
    }

    /// What the step reads is part of the reply.
    pub open spec fn keeps(self) -> bool {
        self is ReadUntil || self is ReadLine
    }

    /// The receiver of a step that reads, started at `now`.
    pub open spec fn receiver(self, now: u64) -> RxState {
        match self {
            Step::Drain { heeds_overrun, millis } => RxState::start(
                Aim::Drain,
                heeds_overrun,
                0,
                now,
                millis,
            ),
            Step::WaitFor { marker, millis } => RxState::start(
                Aim::Wait { marker: text(marker) },
                true,
                text(marker).len(),
                now,
                millis,
            ),
            Step::SkipPast { marker, room, millis } => RxState::start(
                Aim::Marker { marker: text(marker) },
                true,
                room as nat,
                now,
                millis,
            ),
            Step::ReadUntil { marker, heeds_overrun, room, millis } => RxState::start(
                Aim::Marker { marker: text(marker) },
                heeds_overrun,
                room as nat,
                now,
                millis,
            ),
            Step::ReadLine { prefix, millis } => RxState::start(
                Aim::Line { prefix: text(prefix) },
                true,
                LINE_ROOM as nat,
                now,
                millis,
            ),
            Step::Send { .. } => arbitrary(),
        }
    }

    /// What the step reads fits in a receiver.
    pub open spec fn wf(self) -> bool {
        match self {
            Step::WaitFor { marker, .. } => text(marker).len() <= RX_ROOM,
            Step::SkipPast { room, .. } => room <= RX_ROOM,
            Step::ReadUntil { room, .. } => room <= RX_ROOM,
            _ => true,
        }
    }
}

/// The exchanges that the firmware knows.
#[derive(Clone, Copy)]
pub enum Operation {
    /// The set-up of the GPS receiver.
    Init,
    /// Switching the GPS receiver on.
    PowerOn,
    /// Switching the GPS receiver off.
    PowerOff,
    /// Asking for the GPS status line.
    Poll,
    /// Asking for the number of the SIM card.
    ReadIccid,
    /// Asking for the state of the modem.
    Collect,
}

impl Operation {
    /// The steps of the exchange, in order.
    pub open spec fn script(self) -> Seq<Step> {
        match self {
            Operation::Init => gps::init_script(),
            Operation::PowerOn => gps::power_on_script(),
            Operation::PowerOff => gps::power_off_script(),
            Operation::Poll => gps::poll_script(),
            Operation::ReadIccid => gps::read_iccid_script(),
            Operation::Collect => system_info::collect_script(),
        }
    }

    /// The step at `index`, if the script is that long.
    pub fn step_at(self, index: usize) -> (r: Option<Step>)
        ensures
            index < self.script().len() ==> r == Some(self.script()[index as int]),
            index >= self.script().len() ==> r is None,
            r matches Some(step) ==> step.wf(),
    {
        match self {
            Operation::Init => gps::init_step(index),
            Operation::PowerOn => gps::power_on_step(index),
            Operation::PowerOff => gps::power_off_step(index),
            Operation::Poll => gps::poll_step(index),
            Operation::ReadIccid => gps::read_iccid_step(index),
            Operation::Collect => system_info::collect_step(index),
        }
    }

    /// A session for the exchange.
    pub fn begin(self) -> (r: Session)
        ensures
            r.wf(),
            r@ == SessionState::start(self.script()),
    {
        match self {
            Operation::Init => gps::init(),
            Operation::PowerOn => gps::power_on(),
            Operation::PowerOff => gps::power_off(),
            Operation::Poll => gps::poll(),
            Operation::ReadIccid => gps::read_iccid(),
            Operation::Collect => system_info::collect(),
        }
    }
}

/// What a session is, as a mathematical value.
#[verifier::ext_equal]
pub struct SessionState {
    /// The steps, in order.
    pub script: Seq<Step>,
    /// How many steps are over.
    pub at: nat,
    /// The receiver of the step in progress, once it has started to read.
    pub rx: Option<RxState>,
    /// The reply so far.
    pub reply: Seq<u8>,
}

impl SessionState {
    /// A session that has done nothing yet.
    pub open spec fn start(script: Seq<Step>) -> SessionState {
        SessionState { script, at: 0, rx: None, reply: Seq::empty() }
    }

    /// All steps are over.
    pub open spec fn done(self) -> bool {
        self.at >= self.script.len()
    }

    /// What the session needs next: a step that reads starts with the clock.
    pub open spec fn action(self) -> Action {
        if self.done() {
            Action::Done
        } else {
            match self.rx {
                Some(rx) => rx.action(),
                None => match self.script[self.at as int] {
                    Step::Send { command } => Action::Write { command },
                    _ => Action::ReadClock,
                },
            }
        }
    }

    /// The session can take `event`: a read that starts with it would end before the clock runs
    /// out.
    pub open spec fn admits(self, event: Event) -> bool {
        match event {
            Event::Clock { now } => {
                ||| self.done()
                ||| self.rx is Some
                ||| (self.script[self.at as int].reads_for() matches Some(millis)
                    ==> deadline_fits(now, millis))
            },
            _ => true,
        }
    }

    /// The step in progress reads on with `rx`, or is over when `rx` has stopped: what it kept
    /// joins the reply, as far as there is room.
    pub open spec fn with_receiver(self, rx: RxState) -> SessionState {
        if rx.stopped() {
            SessionState {
                at: self.at + 1,
                rx: None,
                reply: if self.script[self.at as int].keeps() {
                    clip(self.reply + rx.result(), REPLY_ROOM as nat)
                } else {
                    self.reply
                },
                ..self
            }
        } else {
            SessionState { rx: Some(rx), ..self }
        }
    }

    /// After `event`. An event that the session is not waiting for changes nothing.
    pub open spec fn step(self, event: Event) -> SessionState {
        if self.done() {
            self
        } else {
            let step = self.script[self.at as int];
            match (self.rx, event) {
                (Some(rx), _) => self.with_receiver(rx.step(event)),
                (None, Event::Written) => if step is Send {
                    SessionState { at: self.at + 1, ..self }
                } else {
                    self
                },
                (None, Event::Clock { now }) => if step is Send {
                    self
                } else {
                    self.with_receiver(step.receiver(now))
                },
                _ => self,
            }
        }
    }
}

/// An exchange in progress.
pub struct Session {
    operation: Operation,
    at: usize,
    rx: Option<Receiver>,
    data: [u8; REPLY_ROOM],
    len: usize,
}

impl View for Session {
    type V = SessionState;

    closed spec fn view(&self) -> SessionState {
        SessionState {
            script: self.operation.script(),
            at: self.at as nat,
            rx: match self.rx {
                Some(rx) => Some(rx@),
                None => None,
            },
            reply: self.data@.take(self.len as int),
        }
    }
}

impl Session {
    /// The reply fits, and only a step that reads has a receiver, which has not stopped.
    pub closed spec fn wf(&self) -> bool {
        &&& self.len <= REPLY_ROOM
        &&& self.at <= self@.script.len()
        &&& self.rx matches Some(rx) ==> {
            &&& rx.wf()
            &&& !rx@.stopped()
            &&& self.at < self@.script.len()
            &&& !(self@.script[self.at as int] is Send)
        }
    }

    pub(crate) fn start(operation: Operation) -> (r: Session)
        ensures
            r.wf(),
            r@ == SessionState::start(operation.script()),
    {
        let r = Session { operation, at: 0, rx: None, data: [0u8; REPLY_ROOM], len: 0 };
        assert(r@.reply =~= Seq::empty());
        r
    }

    /// What the session needs next.
    pub fn action(&self) -> (r: Action)
        requires
            self.wf(),
        ensures
            r == self@.action(),
    {
        match &self.rx {
            Some(rx) => rx.action(),
            None => match self.operation.step_at(self.at) {
                Some(Step::Send { command }) => Action::Write { command },
                Some(_) => Action::ReadClock,
                None => Action::Done,
            },
        }
    }

    /// Whether the session can take `event`: a read that starts with it would end before the clock
    /// runs out.
    pub fn admits(&self, event: Event) -> (r: bool)
        requires
            self.wf(),
        ensures
            r == self@.admits(event),
    {
        if self.rx.is_some() {
            return true;
        }
        match (event, self.operation.step_at(self.at)) {
            (Event::Clock { now }, Some(Step::Drain { millis, .. })) => fits(now, millis),
            (Event::Clock { now }, Some(Step::WaitFor { millis, .. })) => fits(now, millis),
            (Event::Clock { now }, Some(Step::SkipPast { millis, .. })) => fits(now, millis),
            (Event::Clock { now }, Some(Step::ReadUntil { millis, .. })) => fits(now, millis),
            (Event::Clock { now }, Some(Step::ReadLine { millis, .. })) => fits(now, millis),
            _ => true,
        }
    }

    /// What was read so far of what the session is after.
    pub fn reply(&self) -> (r: &[u8])
        requires
            self.wf(),
        ensures
            r@ == self@.reply,
            r@.len() <= REPLY_ROOM,
    {
        assert(self.data@.subrange(0, self.len as int) =~= self@.reply);
        &self.data[0..self.len]
    }

    fn read_on(&mut self, step: Step, rx: Receiver)
        requires
            old(self).wf(),
            old(self)@.at < old(self)@.script.len(),
            step == old(self)@.script[old(self)@.at as int],
            !(step is Send),
            rx.wf(),
        ensures
            final(self).wf(),
            final(self)@ == old(self)@.with_receiver(rx@),
    {
        if rx.stopped() {
            let keep: bool = match step {
                Step::ReadUntil { .. } => true,
                Step::ReadLine { .. } => true,
                _ => false,
            };
            if keep {
                append_bytes(&mut self.data, &mut self.len, rx.result());
            }
            // A script is shorter than the range of the counter.
            assert(self.operation.script().len() < 1000);
            self.at = self.at + 1;
            self.rx = None;
        } else {
            self.rx = Some(rx);
        }
        assert(self@ =~= old(self)@.with_receiver(rx@));
    }

    /// Takes in an event and says what the session needs next. An event that it is not waiting for
    /// changes nothing.
    pub fn step(&mut self, event: Event) -> (r: Action)
        requires
            old(self).wf(),
            old(self)@.admits(event),
        ensures
            final(self).wf(),
            final(self)@ == old(self)@.step(event),
            r == final(self)@.action(),
    {
        if let Some(step) = self.operation.step_at(self.at) {
            match (self.rx.take(), event, step) {
                (Some(rx), _, _) => {
                    let mut rx = rx;
                    rx.step(event);
                    self.read_on(step, rx);
                },
                (None, Event::Written, Step::Send { .. }) => {
                    assert(self.operation.script().len() < 1000);
                    self.at = self.at + 1;
                },
                (None, Event::Clock { now }, Step::Drain { heeds_overrun, millis }) => {
                    self.read_on(step, Receiver::drain_rx(heeds_overrun, now, millis));
                },
                (None, Event::Clock { now }, Step::WaitFor { marker, millis }) => {
                    self.read_on(step, Receiver::wait_for(bytes(marker), now, millis));
                },
                (None, Event::Clock { now }, Step::SkipPast { marker, room, millis }) => {
                    self.read_on(
                        step,
                        Receiver::read_until_marker(bytes(marker), true, room, now, millis),
                    );
                },
                (
                    None,
                    Event::Clock { now },
                    Step::ReadUntil { marker, heeds_overrun, room, millis },
                ) => {
                    self.read_on(
                        step,
                        Receiver::read_until_marker(
                            bytes(marker),
                            heeds_overrun,
                            room,
                            now,
                            millis,
                        ),
                    );
                },
                (None, Event::Clock { now }, Step::ReadLine { prefix, millis }) => {
                    self.read_on(step, Receiver::read_line(bytes(prefix), now, millis));
                },
                _ => {},
            }
        }
        assert(self@ =~= old(self)@.step(event));
        self.action()
    }
}

} // verus!
