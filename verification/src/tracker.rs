//! The tracker as a whole: what it does next, and the report that it posts.

use vstd::prelude::*;

use crate::gps::{get_iccid, has_fix, iccid_of, record, tells_fix, ICCID_ROOM};
use crate::http::Post;
use crate::power::PowerPolicy;
use crate::rx::LINE_ROOM;
use crate::session::Operation;
use crate::text::{append_bytes, bytes, clip, clip_in_pieces, text};

verus! {

/// The longest report.
pub const PAYLOAD_ROOM: usize = 768;

/// What the firmware is to do next.
#[derive(Clone, Copy)]
pub enum Task {
    /// Pause.
    Wait { millis: u64 },
    /// Send the start-up messages.
    StartUp,
    /// Run an exchange with the modem, and hand back its reply.
    Run { operation: Operation },
    /// Post the report.
    Post,
}

/// What the tracker is doing.
#[derive(Clone, Copy)]
pub enum Stage {
    /// The modem gets some time after power-up.
    Settling,
    /// The modem is started up.
    StartingUp,
    /// The GPS receiver is set up.
    SettingUpGps,
    /// A cycle begins: the state of the modem is collected.
    Collecting,
    /// The GPS receiver is switched on.
    PoweringOn,
    /// The GPS receiver gets some time before it is asked.
    WarmingUp,
    /// The GPS receiver is asked for its status line.
    Polling,
    /// The GPS receiver is switched off.
    PoweringOff,
    /// The SIM card number is asked for.
    ReadingIccid,
    /// The report is posted.
    Posting,
    /// The cycle is over.
    Resting,
}

/// The line of the report on the position: the last status line, marked unless it is of this
/// cycle, or a line that says that there never was one.
pub open spec fn position_line(gpsst: Seq<u8>, fresh: bool) -> Seq<u8> {
    if gpsst.len() > 0 {
        gpsst + (if fresh {
            Seq::empty()
        } else {
            text(" CACHED=1")
        }) + text("\r\n")
    } else {
        text("GPS_FIX=UNKNOWN\r\n")
    }
}

/// The lines of the report behind the position: the SIM card number, and whether power is saved.
pub open spec fn closing_lines(iccid: Seq<u8>, power_save: bool) -> Seq<u8> {
    text("ICCID=") + iccid + text("\r\n") + text("GPS_PS=") + (if power_save {
        text("1\r\n")
    } else {
        text("0\r\n")
    })
}

/// What the tracker takes from a status line: whether it tells of a fix.
#[verifier::opaque]
pub open spec fn fix_of(line: Seq<u8>) -> bool {
    tells_fix(line)
}

/// What the tracker takes from a reply to the question for the SIM card number.
#[verifier::opaque]
pub open spec fn card_of(reply: Seq<u8>) -> Seq<u8> {
    iccid_of(reply)
}

/// What a tracker is, as a mathematical value.
#[verifier::ext_equal]
pub struct TrackerState {
    /// What it is doing.
    pub stage: Stage,
    /// The power saving.
    pub policy: PowerPolicy,
    /// The last SIM card number read.
    pub iccid: Seq<u8>,
    /// The last status line received.
    pub gpsst: Seq<u8>,
    /// The report, as far as it is written.
    pub payload: Seq<u8>,
}

impl TrackerState {
    /// Just after power-up.
    pub open spec fn initial() -> TrackerState {
        TrackerState {
            stage: Stage::Settling,
            policy: PowerPolicy::initial(),
            iccid: Seq::empty(),
            gpsst: Seq::empty(),
            payload: Seq::empty(),
        }
    }

    /// What it does in its stage.
    pub open spec fn task(self) -> Task {
        match self.stage {
            Stage::Settling => Task::Wait { millis: 1500 },
            Stage::StartingUp => Task::StartUp,
            Stage::SettingUpGps => Task::Run { operation: Operation::Init },
            Stage::Collecting => Task::Run { operation: Operation::Collect },
            Stage::PoweringOn => Task::Run { operation: Operation::PowerOn },
            Stage::WarmingUp => Task::Wait { millis: 15_000 },
            Stage::Polling => Task::Run { operation: Operation::Poll },
            Stage::PoweringOff => Task::Run { operation: Operation::PowerOff },
            Stage::ReadingIccid => Task::Run { operation: Operation::ReadIccid },
            Stage::Posting => Task::Post,
            Stage::Resting => Task::Wait { millis: 60_000 },
        }
    }

    /// More text in the report, as far as it fits.
    pub open spec fn written(self, data: Seq<u8>) -> TrackerState {
        TrackerState { payload: clip(self.payload + data, PAYLOAD_ROOM as nat), ..self }
    }

    /// Once the report is complete.
    pub open spec fn closed(self) -> TrackerState {
        TrackerState {
            stage: Stage::Posting,
            ..self.written(closing_lines(self.iccid, self.policy.power_save_enabled))
        }
    }

    /// Once the position of this cycle is known, or known to be missing. The SIM card number is
    /// read only while the GPS receiver is off.
    pub open spec fn located(self, fresh: bool) -> TrackerState {
        let s = self.written(position_line(self.gpsst, fresh));
        if s.policy.switch_off_due() {
            TrackerState { stage: Stage::PoweringOff, ..s }
        } else if !s.policy.gps_powered {
            TrackerState { stage: Stage::ReadingIccid, ..s }
        } else {
            s.closed()
        }
    }

    /// Once its task is over. `reply` is what an exchange brought; it is ignored after any other
    /// task.
    pub open spec fn step(self, reply: Seq<u8>) -> TrackerState {
        match self.stage {
            Stage::Settling => TrackerState { stage: Stage::StartingUp, ..self },
            Stage::StartingUp => TrackerState { stage: Stage::SettingUpGps, ..self },
            Stage::SettingUpGps => TrackerState { stage: Stage::Collecting, ..self },
            Stage::Collecting => {
                let s = TrackerState {
                    policy: self.policy.begun(),
                    payload: clip(reply, PAYLOAD_ROOM as nat),
                    ..self
                };
                if self.policy.query_due() {
                    TrackerState { stage: Stage::PoweringOn, ..s }
                } else if self.policy.gps_powered {
                    TrackerState { stage: Stage::Polling, ..s }
                } else {
                    s.located(false)
                }
            },
            Stage::PoweringOn => TrackerState {
                stage: Stage::WarmingUp,
                policy: self.policy.switched_on(),
                ..self
            },
            Stage::WarmingUp => TrackerState { stage: Stage::Polling, ..self },
            Stage::Polling => {
                let line = clip(reply, LINE_ROOM as nat);
                if reply.len() > 0 {
                    TrackerState {
                        policy: self.policy.observed(fix_of(line)),
                        gpsst: line,
                        ..self
                    }.located(true)
                } else {
                    TrackerState { policy: self.policy.observed(false), ..self }.located(false)
                }
            },
            Stage::PoweringOff => TrackerState {
                stage: Stage::ReadingIccid,
                policy: self.policy.switched_off(),
                ..self
            },
            Stage::ReadingIccid => {
                let iccid = card_of(reply);
                TrackerState {
                    iccid: if iccid.len() > 0 {
                        iccid
                    } else {
                        self.iccid
                    },
                    ..self
                }.closed()
            },
            Stage::Posting => TrackerState { stage: Stage::Resting, ..self },
            Stage::Resting => TrackerState { stage: Stage::Collecting, ..self },
        }
    }

    /// The stage fits the power: the GPS receiver is asked only while it is on, and the exchange
    /// for the SIM card number runs only while it is off; it is switched on only while it is off,
    /// and off only while it is on and power is saved; and at the end of a cycle it is on exactly
    /// when power is not saved.
    pub open spec fn ordered(self) -> bool {
        let p = self.policy;
        match self.stage {
            Stage::Settling => p == PowerPolicy::initial(),
            Stage::StartingUp => p == PowerPolicy::initial(),
            Stage::SettingUpGps => p == PowerPolicy::initial(),
            Stage::Collecting => p == PowerPolicy::initial() || (p.gps_powered
                <==> !p.power_save_enabled),
            Stage::PoweringOn => !p.gps_powered,
            Stage::WarmingUp => p.gps_powered,
            Stage::Polling => p.gps_powered,
            Stage::PoweringOff => p.gps_powered && p.power_save_enabled,
            Stage::ReadingIccid => !p.gps_powered && p.power_save_enabled,
            Stage::Posting => p.gps_powered <==> !p.power_save_enabled,
            Stage::Resting => p.gps_powered <==> !p.power_save_enabled,
        }
    }
}

/// The tracker.
pub struct Tracker {
    stage: Stage,
    policy: PowerPolicy,
    cached_iccid: [u8; ICCID_ROOM],
    cached_iccid_len: usize,
    cached_gpsst: [u8; LINE_ROOM],
    cached_gpsst_len: usize,
    payload: [u8; PAYLOAD_ROOM],
    payload_len: usize,
}

impl View for Tracker {
    type V = TrackerState;

    closed spec fn view(&self) -> TrackerState {
        TrackerState {
            stage: self.stage,
            policy: self.policy,
            iccid: self.cached_iccid@.take(self.cached_iccid_len as int),
            gpsst: self.cached_gpsst@.take(self.cached_gpsst_len as int),
            payload: self.payload@.take(self.payload_len as int),
        }
    }
}

impl Tracker {
    /// All texts lie in their buffers.
    pub closed spec fn wf(&self) -> bool {
        &&& self.cached_iccid_len <= ICCID_ROOM
        &&& self.cached_gpsst_len <= LINE_ROOM
        &&& self.payload_len <= PAYLOAD_ROOM
    }

    /// A tracker just after power-up.
    pub fn new() -> (r: Tracker)
        ensures
            r.wf(),
            r@ == TrackerState::initial(),
    {
        let r = Tracker {
            stage: Stage::Settling,
            policy: PowerPolicy::new(),
            cached_iccid: [0u8; ICCID_ROOM],
            cached_iccid_len: 0,
            cached_gpsst: [0u8; LINE_ROOM],
            cached_gpsst_len: 0,
            payload: [0u8; PAYLOAD_ROOM],
            payload_len: 0,
        };
        assert(r@ =~= TrackerState::initial());
        r
    }

    /// What the firmware is to do next.
    pub fn task(&self) -> (r: Task)
        ensures
            r == self@.task(),
    {
        match self.stage {
            Stage::Settling => Task::Wait { millis: 1500 },
            Stage::StartingUp => Task::StartUp,
            Stage::SettingUpGps => Task::Run { operation: Operation::Init },
            Stage::Collecting => Task::Run { operation: Operation::Collect },
            Stage::PoweringOn => Task::Run { operation: Operation::PowerOn },
            Stage::WarmingUp => Task::Wait { millis: 15_000 },
            Stage::Polling => Task::Run { operation: Operation::Poll },
            Stage::PoweringOff => Task::Run { operation: Operation::PowerOff },
            Stage::ReadingIccid => Task::Run { operation: Operation::ReadIccid },
            Stage::Posting => Task::Post,
            Stage::Resting => Task::Wait { millis: 60_000 },
        }
    }

    /// The report, as far as it is written.
    pub fn payload(&self) -> (r: &[u8])
        requires
            self.wf(),
        ensures
            r@ == self@.payload,
            r@.len() <= PAYLOAD_ROOM,
    {
        assert(self.payload@.subrange(0, self.payload_len as int) =~= self@.payload);
        &self.payload[0..self.payload_len]
    }

    /// The post of the report.
    pub fn post(&self) -> (r: Post<'_>)
        requires
            self.wf(),
        ensures
            r.wf(),
            r@ == self@.payload,
    {
        Post::new(self.payload())
    }

    fn write(&mut self, data: &[u8])
        requires
            old(self).wf(),
        ensures
            final(self).wf(),
            final(self)@ == old(self)@.written(data@),
    {
        append_bytes(&mut self.payload, &mut self.payload_len, data);
        assert(self@ =~= old(self)@.written(data@));
    }

    fn close(&mut self)
        requires
            old(self).wf(),
        ensures
            final(self).wf(),
            final(self)@ == old(self)@.closed(),
    {
        let ghost before = self@;
        let ghost start = before.payload;
        let iccid = self.cached_iccid;
        let save: bool = self.policy.power_save_enabled;
        self.write(bytes("ICCID="));
        self.write(&iccid[0..self.cached_iccid_len]);
        self.write(bytes("\r\n"));
        self.write(bytes("GPS_PS="));
        if save {
            self.write(bytes("1\r\n"));
        } else {
            self.write(bytes("0\r\n"));
        }
        self.stage = Stage::Posting;
        proof {
            let flag = if save {
                text("1\r\n")
            } else {
                text("0\r\n")
            };
            let a = text("ICCID=");
            let b = a + before.iccid;
            let c = b + text("\r\n");
            let d = c + text("GPS_PS=");
            assert(iccid@.subrange(0, self.cached_iccid_len as int) =~= before.iccid);
            write_in_pieces(start, a, before.iccid);
            write_in_pieces(start, b, text("\r\n"));
            write_in_pieces(start, c, text("GPS_PS="));
            write_in_pieces(start, d, flag);
            assert(self@ =~= before.closed());
        }
    }

    fn locate(&mut self, fresh: bool)
        requires
            old(self).wf(),
        ensures
            final(self).wf(),
            final(self)@ == old(self)@.located(fresh),
    {
        let ghost before = self@;
        let ghost start = before.payload;
        if self.cached_gpsst_len > 0 {
            let gpsst = self.cached_gpsst;
            self.write(&gpsst[0..self.cached_gpsst_len]);
            if !fresh {
                self.write(bytes(" CACHED=1"));
            }
            self.write(bytes("\r\n"));
            proof {
                assert(gpsst@.subrange(0, self.cached_gpsst_len as int) =~= before.gpsst);
                let mark = if fresh {
                    Seq::<u8>::empty()
                } else {
                    text(" CACHED=1")
                };
                assert(before.gpsst + Seq::<u8>::empty() =~= before.gpsst);
                write_in_pieces(start, before.gpsst, mark);
                write_in_pieces(start, before.gpsst + mark, text("\r\n"));
            }
        } else {
            self.write(bytes("GPS_FIX=UNKNOWN\r\n"));
        }
        assert(self@ =~= before.written(position_line(before.gpsst, fresh)));
        if self.policy.must_switch_off() {
            self.stage = Stage::PoweringOff;
        } else if !self.policy.gps_powered {
            self.stage = Stage::ReadingIccid;
        } else {
            self.close();
        }
        assert(self@ =~= before.located(fresh));
    }

    fn collected(&mut self, reply: &[u8])
        requires
            old(self).wf(),
            old(self)@.stage is Collecting,
        ensures
            final(self).wf(),
            final(self)@ == old(self)@.step(reply@),
    {
        let ghost before = self@;
        self.payload_len = 0;
        self.write(reply);
        assert(Seq::<u8>::empty() + reply@ =~= reply@);
        assert(self.payload@.take(self.payload_len as int) == clip(reply@, PAYLOAD_ROOM as nat));
        let due: bool = self.policy.begin_cycle();
        if due {
            self.stage = Stage::PoweringOn;
        } else if self.policy.gps_powered {
            self.stage = Stage::Polling;
        } else {
            self.locate(false);
        }
        assert(self@ =~= before.step(reply@));
    }

    fn polled(&mut self, reply: &[u8])
        requires
            old(self).wf(),
            old(self)@.stage is Polling,
        ensures
            final(self).wf(),
            final(self)@ == old(self)@.step(reply@),
    {
        let rec = record(reply);
        if rec.has_data {
            let fix: bool = has_fix(&rec.gpsst[0..rec.gpsst_len]);
            assert(rec.gpsst@.subrange(0, rec.gpsst_len as int) =~= rec.line());
            proof {
                reveal(fix_of);
            }
            self.policy.observe(fix);
            self.cached_gpsst = rec.gpsst;
            self.cached_gpsst_len = rec.gpsst_len;
            self.locate(true);
        } else {
            self.policy.observe(false);
            self.locate(false);
        }
    }

    fn numbered(&mut self, reply: &[u8])
        requires
            old(self).wf(),
            old(self)@.stage is ReadingIccid,
        ensures
            final(self).wf(),
            final(self)@ == old(self)@.step(reply@),
    {
        let (iccid, len) = get_iccid(reply);
        proof {
            reveal(card_of);
            assert(iccid@.take(len as int).len() == len);
        }
        if len > 0 {
            self.cached_iccid = iccid;
            self.cached_iccid_len = len;
        }
        self.close();
    }

    /// Notes that the task is over, with `reply` if it was an exchange, and says what is next.
    pub fn step(&mut self, reply: &[u8]) -> (r: Task)
        requires
            old(self).wf(),
        ensures
            final(self).wf(),
            final(self)@ == old(self)@.step(reply@),
            r == final(self)@.task(),
    {
        match self.stage {
            Stage::Settling => {
                self.stage = Stage::StartingUp;
            },
            Stage::StartingUp => {
                self.stage = Stage::SettingUpGps;
            },
            Stage::SettingUpGps => {
                self.stage = Stage::Collecting;
            },
            Stage::Collecting => {
                self.collected(reply);
            },
            Stage::PoweringOn => {
                self.policy.switch_on();
                self.stage = Stage::WarmingUp;
            },
            Stage::WarmingUp => {
                self.stage = Stage::Polling;
            },
            Stage::Polling => {
                self.polled(reply);
            },
            Stage::PoweringOff => {
                self.policy.switch_off();
                self.stage = Stage::ReadingIccid;
            },
            Stage::ReadingIccid => {
                self.numbered(reply);
            },
            Stage::Posting => {
                self.stage = Stage::Resting;
            },
            Stage::Resting => {
                self.stage = Stage::Collecting;
            },
        }
        assert(self@ =~= old(self)@.step(reply@));
        self.task()
    }
}

proof fn write_in_pieces(start: Seq<u8>, a: Seq<u8>, b: Seq<u8>)
    ensures
        clip(clip(start + a, PAYLOAD_ROOM as nat) + b, PAYLOAD_ROOM as nat) == clip(
            start + (a + b),
            PAYLOAD_ROOM as nat,
        ),
{
    clip_in_pieces(start + a, b, PAYLOAD_ROOM as nat);
    assert(start + (a + b) =~= start + a + b);
}

} // verus!
