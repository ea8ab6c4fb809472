//! Reading the modem: one poll of the receiver at a time.
//!
//! A [`Receiver`] says which register to read next and is told what was in it. It reads the clock
//! before every poll, then the status register, and the data register when the status asks for it.

use vstd::prelude::*;

use crate::clock::{deadline_after, deadline_fits, TICKS_PER_MILLI};
use crate::text::{begins_with, closes_with};

verus! {

/// The largest response that a receiver can hold.
pub const RX_ROOM: usize = 256;

/// The longest line that is kept; what follows in the same line is ignored.
pub const LINE_ROOM: usize = 192;

/// Carriage return.
pub const CR: u8 = 13;

/// Line feed.
pub const LF: u8 = 10;

/// What the hardware is to do next.
#[derive(Clone, Copy)]
pub enum Action {
    /// Write the text to the serial port.
    Write { command: &'static str },
    /// Read the clock.
    ReadClock,
    /// Read the status register of the serial port.
    ReadStatus,
    /// Read the data register of the serial port.
    ReadData,
    /// Nothing: the work is done.
    Done,
}

/// What the hardware did, or found.
#[derive(Clone, Copy)]
pub enum Event {
    /// The text was written.
    Written,
    /// The clock, in ticks.
    Clock { now: u64 },
    /// The flags of the status register: a byte is waiting; a byte was overwritten by a later one.
    Status { rxne: bool, ore: bool },
    /// The byte in the data register.
    Data { byte: u8 },
}

/// What a receiver is waiting for.
#[derive(Clone, Copy)]
pub enum Phase {
    /// The clock.
    Clock,
    /// The status register.
    Status,
    /// The data register; `overrun` tells that its byte cannot be relied on.
    Data { overrun: bool },
    /// Nothing more; `complete` tells that it found what it was looking for.
    Stopped { complete: bool },
}

/// What a receiver looks for.
#[derive(Clone, Copy)]
pub enum Goal {
    /// Nothing: every byte is thrown away until the deadline.
    Drain,
    /// All bytes up to and with the marker.
    Marker { marker: &'static [u8] },
    /// The marker alone; the other bytes are thrown away, however many come.
    Wait { marker: &'static [u8] },
    /// The first line that starts with the prefix.
    Line { prefix: &'static [u8] },
}

/// The mathematical counterpart of [`Goal`].
pub enum Aim {
    Drain,
    Marker { marker: Seq<u8> },
    Wait { marker: Seq<u8> },
    Line { prefix: Seq<u8> },
}

impl View for Goal {
    type V = Aim;

    open spec fn view(&self) -> Aim {
        match *self {
            Goal::Drain => Aim::Drain,
            Goal::Marker { marker } => Aim::Marker { marker: marker@ },
            Goal::Wait { marker } => Aim::Wait { marker: marker@ },
            Goal::Line { prefix } => Aim::Line { prefix: prefix@ },
        }
    }
}

/// What a receiver is, as a mathematical value.
#[verifier::ext_equal]
pub struct RxState {
    /// What it looks for.
    pub aim: Aim,
    /// The overrun flag counts: it makes the receiver read the data register, and the byte there
    /// is not kept.
    pub heeds_overrun: bool,
    /// The most bytes that are kept.
    pub room: nat,
    /// The clock reading at which it gives up.
    pub deadline: int,
    /// The bytes kept so far; for a line, those of the line that is being received; for a wait, the
    /// last ones that came.
    pub kept: Seq<u8>,
    /// What it is waiting for.
    pub phase: Phase,
}

impl RxState {
    /// A receiver that has read nothing yet. One without room for a marker has nothing to wait for.
    pub open spec fn start(
        aim: Aim,
        heeds_overrun: bool,
        room: nat,
        now: u64,
        millis: u64,
    ) -> RxState {
        RxState {
            aim,
            heeds_overrun,
            room,
            deadline: now + millis * TICKS_PER_MILLI,
            kept: Seq::empty(),
            phase: if aim is Marker && room == 0 {
                Phase::Stopped { complete: false }
            } else {
                Phase::Clock
            },
        }
    }

    /// What it needs next.
    pub open spec fn action(self) -> Action {
        match self.phase {
            Phase::Clock => Action::ReadClock,
            Phase::Status => Action::ReadStatus,
            Phase::Data { .. } => Action::ReadData,
            Phase::Stopped { .. } => Action::Done,
        }
    }

    /// It has stopped.
    pub open spec fn stopped(self) -> bool {
        self.phase is Stopped
    }

    /// What it hands over: nothing of a wait, a line only when one was found, otherwise what was
    /// kept.
    pub open spec fn result(self) -> Seq<u8> {
        match self.aim {
            Aim::Wait { .. } => Seq::empty(),
            Aim::Line { .. } => if self.phase == (Phase::Stopped { complete: true }) {
                self.kept
            } else {
                Seq::empty()
            },
            _ => self.kept,
        }
    }

    /// The kept bytes once another one came, without the oldest one if there is no room for all.
    pub open spec fn slid(self, byte: u8) -> Seq<u8> {
        if self.kept.len() < self.room {
            self.kept.push(byte)
        } else {
            self.kept.push(byte).drop_first()
        }
    }

    /// After a byte that can be relied on.
    pub open spec fn take(self, byte: u8) -> RxState {
        match self.aim {
            Aim::Drain => RxState { phase: Phase::Clock, ..self },
            Aim::Marker { marker } => {
                let kept = self.kept.push(byte);
                let complete = marker.is_suffix_of(kept);
                RxState {
                    kept,
                    phase: if complete || kept.len() >= self.room {
                        Phase::Stopped { complete }
                    } else {
                        Phase::Clock
                    },
                    ..self
                }
            },
            Aim::Wait { marker } => {
                let kept = self.slid(byte);
                RxState {
                    kept,
                    phase: if marker.is_suffix_of(kept) {
                        Phase::Stopped { complete: true }
                    } else {
                        Phase::Clock
                    },
                    ..self
                }
            },
            Aim::Line { prefix } => if byte == CR || byte == LF {
                if self.kept.len() > 0 && prefix.is_prefix_of(self.kept) {
                    RxState { phase: Phase::Stopped { complete: true }, ..self }
                } else {
                    RxState { kept: Seq::empty(), phase: Phase::Clock, ..self }
                }
            } else if self.kept.len() < self.room {
                RxState { kept: self.kept.push(byte), phase: Phase::Clock, ..self }
            } else {
                RxState { phase: Phase::Clock, ..self }
            },
        }
    }

    /// After a byte that may be corrupt: it is left out, and a line that was being received is
    /// given up.
    pub open spec fn lose(self) -> RxState {
        RxState {
            kept: if self.aim is Line {
                Seq::empty()
            } else {
                self.kept
            },
            phase: Phase::Clock,
            ..self
        }
    }

    /// After `event`. An event that it is not waiting for changes nothing.
    pub open spec fn step(self, event: Event) -> RxState {
        match (self.phase, event) {
            (Phase::Clock, Event::Clock { now }) => RxState {
                phase: if now < self.deadline {
                    Phase::Status
                } else {
                    Phase::Stopped { complete: false }
                },
                ..self
            },
            (Phase::Status, Event::Status { rxne, ore }) => {
                let overrun = self.heeds_overrun && ore;
                RxState {
                    phase: if rxne || overrun {
                        Phase::Data { overrun }
                    } else {
                        Phase::Clock
                    },
                    ..self
                }
            },
            (Phase::Data { overrun }, Event::Data { byte }) => if overrun {
                self.lose()
            } else {
                self.take(byte)
            },
            _ => self,
        }
    }
}

/// A read in progress.
pub struct Receiver {
    goal: Goal,
    heeds_overrun: bool,
    room: usize,
    deadline: u64,
    data: [u8; RX_ROOM],
    len: usize,
    phase: Phase,
}

impl View for Receiver {
    type V = RxState;

    closed spec fn view(&self) -> RxState {
        RxState {
            aim: self.goal@,
            heeds_overrun: self.heeds_overrun,
            room: self.room as nat,
            deadline: self.deadline as int,
            kept: self.data@.take(self.len as int),
            phase: self.phase,
        }
    }
}

impl Receiver {
    /// The kept bytes fit in the room, the room in the buffer, and a receiver with no room left for
    /// a marker has stopped.
    pub closed spec fn wf(&self) -> bool {
        &&& self.len <= self.room <= RX_ROOM
        &&& self.goal is Marker && self.len == self.room ==> self.phase is Stopped
    }

    fn start(goal: Goal, heeds_overrun: bool, room: usize, now: u64, millis: u64) -> (r: Receiver)
        requires
            room <= RX_ROOM,
            deadline_fits(now, millis),
        ensures
            r.wf(),
            r@ == RxState::start(goal@, heeds_overrun, room as nat, now, millis),
    {
        let full: bool = match goal {
            Goal::Marker { .. } => room == 0,
            _ => false,
        };
        let r = Receiver {
            goal,
            heeds_overrun,
            room,
            deadline: deadline_after(now, millis),
            data: [0u8; RX_ROOM],
            len: 0,
            phase: if full {
                Phase::Stopped { complete: false }
            } else {
                Phase::Clock
            },
        };
        assert(r@.kept =~= Seq::empty());
        r
    }

    /// Throws away what comes in for `millis` milliseconds. With `heeds_overrun` the data register
    /// is also read when only the overrun flag is set, which clears the flag.
    pub fn drain_rx(heeds_overrun: bool, now: u64, millis: u64) -> (r: Receiver)
        requires
            deadline_fits(now, millis),
        ensures
            r.wf(),
            r@ == RxState::start(Aim::Drain, heeds_overrun, 0, now, millis),
    {
        Self::start(Goal::Drain, heeds_overrun, 0, now, millis)
    }

    /// Reads until the bytes end with `marker`, `room` bytes are kept, or `millis` milliseconds are
    /// over. With `heeds_overrun` a byte that comes with the overrun flag is left out.
    pub fn read_until_marker(
        marker: &'static [u8],
        heeds_overrun: bool,
        room: usize,
        now: u64,
        millis: u64,
    ) -> (r: Receiver)
        requires
            room <= RX_ROOM,
            deadline_fits(now, millis),
        ensures
            r.wf(),
            r@ == RxState::start(
                Aim::Marker { marker: marker@ },
                heeds_overrun,
                room as nat,
                now,
                millis,
            ),
    {
        Self::start(Goal::Marker { marker }, heeds_overrun, room, now, millis)
    }

    /// Reads until `marker` came, or `millis` milliseconds are over, however many other bytes come.
    /// A byte that comes with the overrun flag is left out.
    pub fn wait_for(marker: &'static [u8], now: u64, millis: u64) -> (r: Receiver)
        requires
            marker@.len() <= RX_ROOM,
            deadline_fits(now, millis),
        ensures
            r.wf(),
            r@ == RxState::start(
                Aim::Wait { marker: marker@ },
                true,
                marker@.len(),
                now,
                millis,
            ),
    {
        Self::start(Goal::Wait { marker }, true, marker.len(), now, millis)
    }

    /// Reads line by line until one starts with `prefix`, or `millis` milliseconds are over. Empty
    /// lines count for nothing, and the overrun flag gives up the line that is being received.
    pub fn read_line(prefix: &'static [u8], now: u64, millis: u64) -> (r: Receiver)
        requires
            deadline_fits(now, millis),
        ensures
            r.wf(),
            r@ == RxState::start(
                Aim::Line { prefix: prefix@ },
                true,
                LINE_ROOM as nat,
                now,
                millis,
            ),
    {
        Self::start(Goal::Line { prefix }, true, LINE_ROOM, now, millis)
    }

    /// What the receiver needs next.
    pub fn action(&self) -> (r: Action)
        ensures
            r == self@.action(),
    {
        match self.phase {
            Phase::Clock => Action::ReadClock,
            Phase::Status => Action::ReadStatus,
            Phase::Data { .. } => Action::ReadData,
            Phase::Stopped { .. } => Action::Done,
        }
    }

    /// Whether the receiver has stopped.
    pub fn stopped(&self) -> (r: bool)
        ensures
            r == self@.stopped(),
    {
        match self.phase {
            Phase::Stopped { .. } => true,
            _ => false,
        }
    }

    /// What the receiver hands over: nothing of a wait, a line only when one was found, otherwise
    /// what was kept.
    pub fn result(&self) -> (r: &[u8])
        requires
            self.wf(),
        ensures
            r@ == self@.result(),
            r@.len() <= RX_ROOM,
    {
        let complete: bool = match self.phase {
            Phase::Stopped { complete } => complete,
            _ => false,
        };
        let n: usize = match self.goal {
            Goal::Wait { .. } => 0,
            Goal::Line { .. } => if complete {
                self.len
            } else {
                0
            },
            _ => self.len,
        };
        assert(self.data@.subrange(0, n as int) =~= self@.result());
        &self.data[0..n]
    }

    fn push(&mut self, byte: u8)
        requires
            old(self).wf(),
            old(self)@.kept.len() < old(self)@.room,
        ensures
            final(self).len <= final(self).room <= RX_ROOM,
            final(self)@ == (RxState { kept: old(self)@.kept.push(byte), ..old(self)@ }),
    {
        let n: usize = self.len;
        self.data[n] = byte;
        self.len = n + 1;
        assert(self.data@.take(n + 1) =~= old(self).data@.take(n as int).push(byte));
    }

    fn slide(&mut self, byte: u8)
        requires
            old(self).wf(),
            old(self).goal is Wait,
        ensures
            final(self).wf(),
            final(self)@ == (RxState { kept: old(self)@.slid(byte), ..old(self)@ }),
    {
        let ghost before = self@;
        let n: usize = self.len;
        if n < self.room {
            self.push(byte);
        } else if n > 0 {
            let mut i: usize = 1;
            while i < n
                invariant
                    1 <= i <= n <= RX_ROOM,
                    *self == (Receiver { data: self.data, ..*old(self) }),
                    forall|k: int| 0 <= k < i - 1 ==> self.data@[k] == old(self).data@[k + 1],
                    forall|k: int| i - 1 <= k < n ==> self.data@[k] == old(self).data@[k],
                decreases n - i,
            {
                self.data[i - 1] = self.data[i];
                i = i + 1;
            }
            self.data[n - 1] = byte;
        }
        assert(self@.kept =~= before.slid(byte));
    }

    fn take(&mut self, byte: u8)
        requires
            old(self).wf(),
            !old(self)@.stopped(),
        ensures
            final(self).wf(),
            final(self)@ == old(self)@.take(byte),
    {
        let ghost before = self@;
        match self.goal {
            Goal::Drain => {
                self.phase = Phase::Clock;
            },
            Goal::Marker { marker } => {
                self.push(byte);
                let complete: bool = closes_with(&self.data[0..self.len], marker);
                assert(self.data@.subrange(0, self.len as int) =~= self@.kept);
                if complete || self.len >= self.room {
                    self.phase = Phase::Stopped { complete };
                } else {
                    self.phase = Phase::Clock;
                }
            },
            Goal::Wait { marker } => {
                self.slide(byte);
                let complete: bool = closes_with(&self.data[0..self.len], marker);
                assert(self.data@.subrange(0, self.len as int) =~= self@.kept);
                self.phase = if complete {
                    Phase::Stopped { complete: true }
                } else {
                    Phase::Clock
                };
            },
            Goal::Line { prefix } => {
                if byte == CR || byte == LF {
                    let found: bool = self.len > 0 && begins_with(&self.data[0..self.len], prefix);
                    assert(self.data@.subrange(0, self.len as int) =~= self@.kept);
                    if found {
                        self.phase = Phase::Stopped { complete: true };
                    } else {
                        self.len = 0;
                        self.phase = Phase::Clock;
                    }
                } else {
                    if self.len < self.room {
                        self.push(byte);
                    }
                    self.phase = Phase::Clock;
                }
            },
        }
        assert(self@ =~= before.take(byte));
    }

    fn lose(&mut self)
        requires
            old(self).wf(),
            !old(self)@.stopped(),
        ensures
            final(self).wf(),
            final(self)@ == old(self)@.lose(),
    {
        let ghost before = self@;
        match self.goal {
            Goal::Line { .. } => {
                self.len = 0;
            },
            _ => {},
        }
        self.phase = Phase::Clock;
        assert(self@ =~= before.lose());
    }

    /// Takes in an event and says what the receiver needs next. An event that it is not waiting for
    /// changes nothing.
    pub fn step(&mut self, event: Event) -> (r: Action)
        requires
            old(self).wf(),
        ensures
            final(self).wf(),
            final(self)@ == old(self)@.step(event),
            r == final(self)@.action(),
    {
        match (self.phase, event) {
            (Phase::Clock, Event::Clock { now }) => {
                self.phase = if now < self.deadline {
                    Phase::Status
                } else {
                    Phase::Stopped { complete: false }
                };
            },
            (Phase::Status, Event::Status { rxne, ore }) => {
                let overrun: bool = self.heeds_overrun && ore;
                self.phase = if rxne || overrun {
                    Phase::Data { overrun }
                } else {
                    Phase::Clock
                };
            },
            (Phase::Data { overrun }, Event::Data { byte }) => {
                if overrun {
                    self.lose();
                } else {
                    self.take(byte);
                }
            },
            _ => {},
        }
        self.action()
    }
}

} // verus!
