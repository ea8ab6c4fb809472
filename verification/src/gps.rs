//! The GPS receiver behind the modem: its exchanges, and what its replies say.

use vstd::prelude::*;
use vstd::string::*;

use crate::rx::{LINE_ROOM, RX_ROOM};
use crate::session::{Operation, Session, SessionState, Step};
use crate::text::{
    append_bytes, ascii_text, bytes, clip, find, first_is_index_of, index_of, occurs, occurs_at,
    text,
};

verus! {

/// The answer that ends most replies.
pub const OK: &'static str = "OK\r\n";

/// The answers and reports that are looked for are not empty, and fit in a receiver.
pub proof fn reports_fit()
    ensures
        0 < text(OK).len() <= RX_ROOM,
        0 < text("start up success.").len() <= RX_ROOM,
        0 < text("AGPS download success.").len() <= RX_ROOM,
        0 < text("AGPS send success.").len() <= RX_ROOM,
        0 < text("poweroff success.").len() <= RX_ROOM,
{
    reveal_strlit("OK\r\n");
    reveal_strlit("start up success.");
    reveal_strlit("AGPS download success.");
    reveal_strlit("AGPS send success.");
    reveal_strlit("poweroff success.");
    ascii_text("OK\r\n");
    ascii_text("start up success.");
    ascii_text("AGPS download success.");
    ascii_text("AGPS send success.");
    ascii_text("poweroff success.");
}

/// The one-time set-up: power pin, stale assistance data cleared, power on, mode, assistance data
/// fetched and injected, a first status query to warm the receiver up, power off.
pub open spec fn init_script() -> Seq<Step> {
    seq![
        Step::Drain { heeds_overrun: true, millis: 200 },
        Step::Send { command: "AT+CGDRT=12,1\r\n" },
        Step::Send { command: "AT+CGSETV=12,1\r\n" },
        Step::Send { command: "AT+CGGETV=12\r\n" },
        Step::SkipPast { marker: OK, room: 256, millis: 2000 },
        Step::Send { command: "AT+MGPSGET=ALL,0\r\n" },
        Step::SkipPast { marker: OK, room: 256, millis: 2000 },
        Step::Send { command: "AT+MGPSC=1\r\n" },
        Step::SkipPast { marker: OK, room: 256, millis: 2000 },
        Step::WaitFor { marker: "start up success.", millis: 30_000 },
        Step::Drain { heeds_overrun: true, millis: 200 },
        Step::Send { command: "AT+GPSMODE=1\r\n" },
        Step::SkipPast { marker: OK, room: 256, millis: 2000 },
        Step::Send { command: "AT+AGNSSGET=pos.asrmicro.com\r\n" },
        Step::SkipPast { marker: "AGPS download success.", room: 256, millis: 30_000 },
        Step::Send { command: "AT+AGNSSSET\r\n" },
        Step::SkipPast { marker: "AGPS send success.", room: 256, millis: 10_000 },
        Step::Send { command: "AT+GPSST\r\n" },
        Step::SkipPast { marker: OK, room: 256, millis: 5000 },
        Step::Send { command: "AT+MGPSC=0\r\n" },
        Step::WaitFor { marker: "poweroff success.", millis: 10_000 },
    ]
}

pub(crate) fn init_step(index: usize) -> (r: Option<Step>)
    ensures
        index < init_script().len() ==> r == Some(init_script()[index as int]),
        index >= init_script().len() ==> r is None,
        r matches Some(step) ==> step.wf(),
{
    proof {
        reports_fit();
    }
    match index {
        0 => Some(Step::Drain { heeds_overrun: true, millis: 200 }),
        1 => Some(Step::Send { command: "AT+CGDRT=12,1\r\n" }),
        2 => Some(Step::Send { command: "AT+CGSETV=12,1\r\n" }),
        3 => Some(Step::Send { command: "AT+CGGETV=12\r\n" }),
        4 => Some(Step::SkipPast { marker: OK, room: 256, millis: 2000 }),
        5 => Some(Step::Send { command: "AT+MGPSGET=ALL,0\r\n" }),
        6 => Some(Step::SkipPast { marker: OK, room: 256, millis: 2000 }),
        7 => Some(Step::Send { command: "AT+MGPSC=1\r\n" }),
        8 => Some(Step::SkipPast { marker: OK, room: 256, millis: 2000 }),
        9 => Some(Step::WaitFor { marker: "start up success.", millis: 30_000 }),
        10 => Some(Step::Drain { heeds_overrun: true, millis: 200 }),
        11 => Some(Step::Send { command: "AT+GPSMODE=1\r\n" }),
        12 => Some(Step::SkipPast { marker: OK, room: 256, millis: 2000 }),
        13 => Some(Step::Send { command: "AT+AGNSSGET=pos.asrmicro.com\r\n" }),
        14 => Some(Step::SkipPast { marker: "AGPS download success.", room: 256, millis: 30_000 }),
        15 => Some(Step::Send { command: "AT+AGNSSSET\r\n" }),
        16 => Some(Step::SkipPast { marker: "AGPS send success.", room: 256, millis: 10_000 }),
        17 => Some(Step::Send { command: "AT+GPSST\r\n" }),
        18 => Some(Step::SkipPast { marker: OK, room: 256, millis: 5000 }),
        19 => Some(Step::Send { command: "AT+MGPSC=0\r\n" }),
        20 => Some(Step::WaitFor { marker: "poweroff success.", millis: 10_000 }),
        _ => None,
    }
}

/// Power on, and wait until the receiver reports that it has started.
pub open spec fn power_on_script() -> Seq<Step> {
    seq![
        Step::Send { command: "AT+MGPSC=1\r\n" },
        Step::SkipPast { marker: OK, room: 128, millis: 2000 },
        Step::WaitFor { marker: "start up success.", millis: 30_000 },
    ]
}

pub(crate) fn power_on_step(index: usize) -> (r: Option<Step>)
    ensures
        index < power_on_script().len() ==> r == Some(power_on_script()[index as int]),
        index >= power_on_script().len() ==> r is None,
        r matches Some(step) ==> step.wf(),
{
    proof {
        reports_fit();
    }
    match index {
        0 => Some(Step::Send { command: "AT+MGPSC=1\r\n" }),
        1 => Some(Step::SkipPast { marker: OK, room: 128, millis: 2000 }),
        2 => Some(Step::WaitFor { marker: "start up success.", millis: 30_000 }),
        _ => None,
    }
}

/// Power off, and wait until the receiver reports that it has stopped.
pub open spec fn power_off_script() -> Seq<Step> {
    seq![
        Step::Send { command: "AT+MGPSC=0\r\n" },
        Step::WaitFor { marker: "poweroff success.", millis: 10_000 },
    ]
}

pub(crate) fn power_off_step(index: usize) -> (r: Option<Step>)
    ensures
        index < power_off_script().len() ==> r == Some(power_off_script()[index as int]),
        index >= power_off_script().len() ==> r is None,
        r matches Some(step) ==> step.wf(),
{
    proof {
        reports_fit();
    }
    match index {
        0 => Some(Step::Send { command: "AT+MGPSC=0\r\n" }),
        1 => Some(Step::WaitFor { marker: "poweroff success.", millis: 10_000 }),
        _ => None,
    }
}

/// Stale bytes and a stale overrun flag are cleared before the status line is asked for.
pub open spec fn poll_script() -> Seq<Step> {
    seq![
        Step::Drain { heeds_overrun: true, millis: 200 },
        Step::Send { command: "AT+GPSST\r\n" },
        Step::ReadLine { prefix: "+GPSST:", millis: 10_000 },
    ]
}

pub(crate) fn poll_step(index: usize) -> (r: Option<Step>)
    ensures
        index < poll_script().len() ==> r == Some(poll_script()[index as int]),
        index >= poll_script().len() ==> r is None,
        r matches Some(step) ==> step.wf(),
{
    match index {
        0 => Some(Step::Drain { heeds_overrun: true, millis: 200 }),
        1 => Some(Step::Send { command: "AT+GPSST\r\n" }),
        2 => Some(Step::ReadLine { prefix: "+GPSST:", millis: 10_000 }),
        _ => None,
    }
}

/// The number of the SIM card is asked for, and the whole reply kept.
pub open spec fn read_iccid_script() -> Seq<Step> {
    seq![
        Step::Drain { heeds_overrun: true, millis: 200 },
        Step::Send { command: "AT+ICCID\r\n" },
        Step::ReadUntil { marker: OK, heeds_overrun: true, room: 128, millis: 3000 },
    ]
}

pub(crate) fn read_iccid_step(index: usize) -> (r: Option<Step>)
    ensures
        index < read_iccid_script().len() ==> r == Some(read_iccid_script()[index as int]),
        index >= read_iccid_script().len() ==> r is None,
        r matches Some(step) ==> step.wf(),
{
    match index {
        0 => Some(Step::Drain { heeds_overrun: true, millis: 200 }),
        1 => Some(Step::Send { command: "AT+ICCID\r\n" }),
        2 => Some(
            Step::ReadUntil {
                marker: OK,
                heeds_overrun: true,
                room: 128,
                millis: 3000,
            },
        ),
        _ => None,
    }
}

/// The exchange that sets the GPS receiver up, once, and leaves it switched off.
pub fn init() -> (r: Session)
    ensures
        r.wf(),
        r@ == SessionState::start(init_script()),
{
    Session::start(Operation::Init)
}

/// The exchange that switches the GPS receiver on.
pub fn power_on() -> (r: Session)
    ensures
        r.wf(),
        r@ == SessionState::start(power_on_script()),
{
    Session::start(Operation::PowerOn)
}

/// The exchange that switches the GPS receiver off.
pub fn power_off() -> (r: Session)
    ensures
        r.wf(),
        r@ == SessionState::start(power_off_script()),
{
    Session::start(Operation::PowerOff)
}

/// The exchange that asks for the status line while the GPS receiver is on; [`record`] makes the
/// record of its reply.
pub fn poll() -> (r: Session)
    ensures
        r.wf(),
        r@ == SessionState::start(poll_script()),
{
    Session::start(Operation::Poll)
}

/// The exchange that asks for the number of the SIM card, to be run while the GPS receiver is off;
/// [`get_iccid`] finds the number in its reply.
pub fn read_iccid() -> (r: Session)
    ensures
        r.wf(),
        r@ == SessionState::start(read_iccid_script()),
{
    Session::start(Operation::ReadIccid)
}

/// A status line, as it came from the GPS receiver.
pub struct GpsRecord {
    /// A `+GPSST:` line was received.
    pub has_data: bool,
    /// The line, from the start of the buffer.
    pub gpsst: [u8; LINE_ROOM],
    /// The length of the line.
    pub gpsst_len: usize,
}

impl GpsRecord {
    /// The line lies in the buffer.
    pub open spec fn wf(&self) -> bool {
        self.gpsst_len <= LINE_ROOM
    }

    /// The line.
    pub open spec fn line(&self) -> Seq<u8> {
        self.gpsst@.take(self.gpsst_len as int)
    }
}

/// The record of a poll whose reply is `reply`.
pub fn record(reply: &[u8]) -> (r: GpsRecord)
    ensures
        r.wf(),
        r.has_data == (reply@.len() > 0),
        r.line() == clip(reply@, LINE_ROOM as nat),
        forall|i: int| r.gpsst_len <= i < LINE_ROOM ==> r.gpsst@[i] == 0,
{
    let mut gpsst = [0u8; LINE_ROOM];
    let mut n: usize = 0;
    append_bytes(&mut gpsst, &mut n, reply);
    proof {
        let zeros = [0u8; LINE_ROOM];
        assert(zeros@.take(0) + reply@ =~= reply@);
        assert(gpsst@.take(n as int).len() == n);
        assert forall|i: int| n <= i < LINE_ROOM implies gpsst@[i] == 0 by {
            assert(gpsst@.skip(n as int)[i - n] == zeros@.skip(n as int)[i - n]);
        }
    }
    GpsRecord { has_data: n > 0, gpsst, gpsst_len: n }
}

/// The most digits of a SIM card number that are kept.
pub const ICCID_ROOM: usize = 24;

/// An ASCII digit.
pub open spec fn is_digit(byte: u8) -> bool {
    48 <= byte <= 57
}

/// The digits that `s` starts with, up to the first other byte.
pub open spec fn leading_digits(s: Seq<u8>) -> Seq<u8>
    decreases s.len(),
{
    if s.len() == 0 || !is_digit(s[0]) {
        Seq::empty()
    } else {
        seq![s[0]] + leading_digits(s.drop_first())
    }
}

/// The first run of digits in `s`.
pub open spec fn first_digits(s: Seq<u8>) -> Seq<u8>
    decreases s.len(),
{
    if s.len() == 0 || is_digit(s[0]) {
        leading_digits(s)
    } else {
        first_digits(s.drop_first())
    }
}

/// The number of the SIM card in a reply: the first run of digits behind the first `+ICCID:`.
pub open spec fn iccid_of(reply: Seq<u8>) -> Seq<u8> {
    let label = text("+ICCID:");
    if occurs(reply, label) {
        clip(first_digits(reply.skip(index_of(reply, label) + label.len())), ICCID_ROOM as nat)
    } else {
        Seq::empty()
    }
}

proof fn leading_digits_are_digits(s: Seq<u8>)
    ensures
        forall|i: int|
            0 <= i < leading_digits(s).len() ==> is_digit(#[trigger] leading_digits(s)[i]),
    decreases s.len(),
{
    if s.len() > 0 && is_digit(s[0]) {
        leading_digits_are_digits(s.drop_first());
        let rest = leading_digits(s.drop_first());
        assert forall|i: int| 0 <= i < leading_digits(s).len() implies is_digit(
            #[trigger] leading_digits(s)[i],
        ) by {
            if i > 0 {
                assert(leading_digits(s)[i] == rest[i - 1]);
            }
        }
    }
}

proof fn first_digits_are_digits(s: Seq<u8>)
    ensures
        forall|i: int| 0 <= i < first_digits(s).len() ==> is_digit(#[trigger] first_digits(s)[i]),
    decreases s.len(),
{
    leading_digits_are_digits(s);
    if s.len() > 0 && !is_digit(s[0]) {
        first_digits_are_digits(s.drop_first());
        assert(first_digits(s) == first_digits(s.drop_first()));
    } else {
        assert(first_digits(s) == leading_digits(s));
    }
}

/// A SIM card number is made of digits alone, and there is room for it.
pub proof fn iccid_is_digits(reply: Seq<u8>)
    ensures
        iccid_of(reply).len() <= ICCID_ROOM,
        forall|i: int| 0 <= i < iccid_of(reply).len() ==> is_digit(#[trigger] iccid_of(reply)[i]),
{
    let label = text("+ICCID:");
    first_digits_are_digits(reply.skip(index_of(reply, label) + label.len()));
}

proof fn leading_digits_of(digits: Seq<u8>, rest: Seq<u8>)
    requires
        forall|k: int| 0 <= k < digits.len() ==> is_digit(#[trigger] digits[k]),
        rest.len() > 0 ==> !is_digit(rest[0]),
    ensures
        leading_digits(digits + rest) == digits,
    decreases digits.len(),
{
    let s = digits + rest;
    if digits.len() > 0 {
        let fewer = digits.drop_first();
        assert(s.drop_first() =~= fewer + rest);
        assert forall|k: int| 0 <= k < fewer.len() implies is_digit(#[trigger] fewer[k]) by {
            assert(is_digit(digits[k + 1]));
        }
        leading_digits_of(fewer, rest);
        assert(is_digit(digits[0]));
        assert(s[0] == digits[0]);
        assert(seq![s[0]] + fewer =~= digits);
    } else {
        assert(s =~= rest);
    }
}

proof fn first_digits_of(between: Seq<u8>, s: Seq<u8>)
    requires
        forall|k: int| 0 <= k < between.len() ==> !is_digit(#[trigger] between[k]),
    ensures
        first_digits(between + s) == first_digits(s),
    decreases between.len(),
{
    let all = between + s;
    if between.len() > 0 {
        let fewer = between.drop_first();
        assert(all.drop_first() =~= fewer + s);
        assert forall|k: int| 0 <= k < fewer.len() implies !is_digit(#[trigger] fewer[k]) by {
            assert(!is_digit(between[k + 1]));
        }
        first_digits_of(fewer, s);
        assert(!is_digit(between[0]));
        assert(all[0] == between[0]);
    } else {
        assert(all =~= s);
    }
}

/// The SIM card number is the first run of digits behind the first label, wherever the label is,
/// whatever stands between the two, and whatever follows; of a longer one the first twenty-four
/// digits.
pub proof fn iccid_is_the_number_behind_the_label(
    before: Seq<u8>,
    between: Seq<u8>,
    digits: Seq<u8>,
    rest: Seq<u8>,
)
    requires
        forall|j: int|
            0 <= j < before.len() ==> !#[trigger] occurs_at(
                before + text("+ICCID:") + between + digits + rest,
                text("+ICCID:"),
                j,
            ),
        forall|k: int| 0 <= k < between.len() ==> !(48 <= #[trigger] between[k] <= 57),
        digits.len() > 0,
        forall|k: int| 0 <= k < digits.len() ==> 48 <= #[trigger] digits[k] <= 57,
        rest.len() > 0 ==> !(48 <= rest[0] <= 57),
    ensures
        iccid_of(before + text("+ICCID:") + between + digits + rest) == if digits.len() <= 24 {
            digits
        } else {
            digits.take(24)
        },
{
    let label = text("+ICCID:");
    let reply = before + label + between + digits + rest;
    let at = before.len() as int;
    assert(reply.subrange(at, at + label.len()) =~= label);
    assert(occurs_at(reply, label, at));
    first_is_index_of(reply, label, at);
    assert(reply.skip(at + label.len()) =~= between + (digits + rest));
    first_digits_of(between, digits + rest);
    leading_digits_of(digits, rest);
    assert((digits + rest)[0] == digits[0]);
    assert(first_digits(digits + rest) == leading_digits(digits + rest));
}

/// A reply has no SIM card number without the label, nor without a digit behind its first label.
pub proof fn no_iccid_without_label_and_digit(reply: Seq<u8>, at: int)
    requires
        occurs_at(reply, text("+ICCID:"), at) ==> {
            &&& forall|j: int| 0 <= j < at ==> !#[trigger] occurs_at(reply, text("+ICCID:"), j)
            &&& forall|k: int|
                at + text("+ICCID:").len() <= k < reply.len() ==> !(48 <= #[trigger] reply[k] <= 57)
        },
        !occurs_at(reply, text("+ICCID:"), at) ==> forall|j: int|
            !#[trigger] occurs_at(reply, text("+ICCID:"), j),
    ensures
        iccid_of(reply) == Seq::<u8>::empty(),
{
    let label = text("+ICCID:");
    if occurs_at(reply, label, at) {
        first_is_index_of(reply, label, at);
        let tail = reply.skip(at + label.len());
        assert forall|k: int| 0 <= k < tail.len() implies !is_digit(#[trigger] tail[k]) by {
            assert(tail[k] == reply[at + label.len() + k]);
        }
        first_digits_of(tail, Seq::empty());
        assert(tail + Seq::<u8>::empty() =~= tail);
    }
}

/// Finds the number of the SIM card in a reply, and returns its digits and how many there are.
pub fn get_iccid(reply: &[u8]) -> (r: ([u8; ICCID_ROOM], usize))
    ensures
        r.1 <= ICCID_ROOM,
        r.0@.take(r.1 as int) == iccid_of(reply@),
        forall|i: int| r.1 <= i < ICCID_ROOM ==> r.0@[i] == 0,
{
    let mut out = [0u8; ICCID_ROOM];
    let mut len: usize = 0;
    assert(out@.take(0) =~= Seq::empty());
    let label: &[u8] = bytes("+ICCID:");
    if let Some(p) = find(reply, label) {
        assert(p + label@.len() <= reply.len());
        let mut i: usize = p + label.len();
        let ghost tail = reply@.skip(i as int);
        while i < reply.len() && !(48 <= reply[i] && reply[i] <= 57)
            invariant
                i <= reply@.len(),
                first_digits(reply@.skip(i as int)) == first_digits(tail),
            decreases reply@.len() - i,
        {
            assert(reply@.skip(i as int).drop_first() =~= reply@.skip(i + 1));
            i = i + 1;
        }
        let ghost run = reply@.skip(i as int);
        assert(first_digits(tail) == leading_digits(run));
        assert(out@.take(0) + leading_digits(run) =~= leading_digits(run));
        while i < reply.len() && len < ICCID_ROOM && 48 <= reply[i] && reply[i] <= 57
            invariant
                i <= reply@.len(),
                len <= ICCID_ROOM,
                out@.take(len as int) + leading_digits(reply@.skip(i as int)) == leading_digits(
                    run,
                ),
                forall|k: int| len <= k < ICCID_ROOM ==> out@[k] == 0,
            decreases reply@.len() - i,
        {
            let ghost before = out@;
            let ghost rest = reply@.skip(i as int);
            out[len] = reply[i];
            assert(rest.drop_first() =~= reply@.skip(i + 1));
            assert(out@.take(len + 1) =~= before.take(len as int).push(reply@[i as int]));
            assert(before.take(len as int) + (seq![rest[0]] + leading_digits(rest.drop_first()))
                =~= before.take(len as int).push(rest[0]) + leading_digits(rest.drop_first()));
            len = len + 1;
            i = i + 1;
        }
        assert(out@.take(len as int) =~= clip(leading_digits(run), ICCID_ROOM as nat));
    }
    (out, len)
}

/// The first byte of `s` that is no space.
pub open spec fn first_nonspace(s: Seq<u8>) -> Option<u8>
    decreases s.len(),
{
    if s.len() == 0 {
        None
    } else if s[0] != 32 {
        Some(s[0])
    } else {
        first_nonspace(s.drop_first())
    }
}

/// A status line tells of a fix: it has a `+GPSST:` label with a space or a zero byte behind it,
/// and the first byte behind its first colon, spaces left out, is there and is no `0`.
pub open spec fn tells_fix(line: Seq<u8>) -> bool {
    &&& occurs(line, text("+GPSST: ")) || occurs(line, text("+GPSST:\0"))
    &&& first_nonspace(line.skip(index_of(line, text(":")) + 1)) matches Some(value) && value != 48
}

/// A line with the label has a colon.
proof fn label_has_colon(line: Seq<u8>)
    requires
        occurs(line, text("+GPSST: ")) || occurs(line, text("+GPSST:\0")),
    ensures
        occurs(line, text(":")),
{
    reveal_strlit(":");
    reveal_strlit("+GPSST: ");
    reveal_strlit("+GPSST:\0");
    ascii_text(":");
    ascii_text("+GPSST: ");
    ascii_text("+GPSST:\0");
    let label = if occurs(line, text("+GPSST: ")) {
        text("+GPSST: ")
    } else {
        text("+GPSST:\0")
    };
    let i = choose|i: int| occurs_at(line, label, i);
    assert(line.subrange(i, i + label.len())[6] == label[6]);
    assert(line.subrange(i + 6, i + 7) =~= text(":"));
    assert(occurs_at(line, text(":"), i + 6));
}

/// The label of a status line stands in `line` at `at`, with a space or a zero byte behind it.
pub open spec fn labelled(line: Seq<u8>, at: int) -> bool {
    &&& 0 <= at
    &&& at + 8 <= line.len()
    &&& line.subrange(at, at + 7) == text("+GPSST:")
    &&& line[at + 7] == 32 || line[at + 7] == 0
}

proof fn labelled_occurs(line: Seq<u8>, at: int)
    ensures
        labelled(line, at) <==> occurs_at(line, text("+GPSST: "), at) || occurs_at(
            line,
            text("+GPSST:\0"),
            at,
        ),
{
    reveal_strlit("+GPSST:");
    reveal_strlit("+GPSST: ");
    reveal_strlit("+GPSST:\0");
    ascii_text("+GPSST:");
    ascii_text("+GPSST: ");
    ascii_text("+GPSST:\0");
    if 0 <= at && at + 8 <= line.len() {
        let long = line.subrange(at, at + 8);
        let short = line.subrange(at, at + 7);
        assert(long =~= short.push(line[at + 7]));
        assert(text("+GPSST: ") =~= text("+GPSST:").push(32));
        assert(text("+GPSST:\0") =~= text("+GPSST:").push(0));
        assert(long.drop_last() =~= short);
        assert(text("+GPSST:").push(32).drop_last() =~= text("+GPSST:"));
        assert(text("+GPSST:").push(0).drop_last() =~= text("+GPSST:"));
        if long == text("+GPSST: ") {
            assert(long[7] == 32);
        }
        if long == text("+GPSST:\0") {
            assert(long[7] == 0);
        }
    }
}

proof fn first_nonspace_at(s: Seq<u8>, n: int)
    requires
        0 <= n <= s.len(),
        forall|k: int| 0 <= k < n ==> #[trigger] s[k] == 32,
        n < s.len() ==> s[n] != 32,
    ensures
        first_nonspace(s) == if n < s.len() {
            Some(s[n])
        } else {
            None
        },
    decreases n,
{
    if n > 0 {
        assert(s[0] == 32);
        let fewer = s.drop_first();
        assert forall|k: int| 0 <= k < n - 1 implies #[trigger] fewer[k] == 32 by {
            assert(s[k + 1] == 32);
        }
        first_nonspace_at(fewer, n - 1);
    }
}

/// The first field tells of the fix: the first byte behind the first colon that is no space. There
/// is a fix exactly when that byte is no `0`, whatever follows it and however long the line is. A
/// line without such a byte tells of no fix.
pub proof fn first_field_tells_the_fix(line: Seq<u8>, at: int, colon: int, field: int)
    requires
        labelled(line, at),
        0 <= colon < field <= line.len(),
        line[colon] == 58,
        forall|k: int| 0 <= k < colon ==> #[trigger] line[k] != 58,
        forall|k: int| colon < k < field ==> #[trigger] line[k] == 32,
        field < line.len() ==> line[field] != 32,
    ensures
        tells_fix(line) <==> field < line.len() && line[field] != 48,
{
    reveal_strlit(":");
    ascii_text(":");
    let mark = text(":");
    labelled_occurs(line, at);
    assert(line.subrange(colon, colon + 1) =~= mark);
    assert forall|j: int| 0 <= j < colon implies !occurs_at(line, mark, j) by {
        assert(line.subrange(j, j + 1)[0] == line[j]);
    }
    first_is_index_of(line, mark, colon);
    let s = line.skip(colon + 1);
    assert forall|k: int| 0 <= k < field - colon - 1 implies #[trigger] s[k] == 32 by {
        assert(s[k] == line[colon + 1 + k]);
    }
    first_nonspace_at(s, field - colon - 1);
}

/// Only a line with the label tells of a fix.
pub proof fn no_fix_without_label(line: Seq<u8>)
    ensures
        tells_fix(line) ==> exists|at: int| labelled(line, at),
{
    if tells_fix(line) {
        let label = if occurs(line, text("+GPSST: ")) {
            text("+GPSST: ")
        } else {
            text("+GPSST:\0")
        };
        let at = choose|at: int| occurs_at(line, label, at);
        labelled_occurs(line, at);
        assert(labelled(line, at));
    }
}

/// Of a line that starts with the label and a space, the first byte behind them that is no space
/// tells of the fix, whatever follows it and however many spaces come before it.
pub proof fn a_status_line_tells_its_fix(spaces: nat, b: u8, rest: Seq<u8>)
    requires
        b != 32,
    ensures
        tells_fix(
            text("+GPSST: ") + Seq::new(spaces, |i: int| 32u8) + seq![b] + rest,
        ) <==> b != 48,
        tells_fix(text("+GPSST: ") + seq![b] + rest) <==> b != 48,
{
    reveal_strlit("+GPSST:");
    reveal_strlit("+GPSST: ");
    ascii_text("+GPSST:");
    ascii_text("+GPSST: ");
    let line = text("+GPSST: ") + Seq::new(spaces, |i: int| 32u8) + seq![b] + rest;
    assert(line.subrange(0, 7) =~= text("+GPSST:"));
    first_field_tells_the_fix(line, 0, 6, (8 + spaces) as int);
    let short = text("+GPSST: ") + seq![b] + rest;
    assert(short.subrange(0, 7) =~= text("+GPSST:"));
    first_field_tells_the_fix(short, 0, 6, 8);
}

/// Whether a status line tells of a fix.
pub fn has_fix(line: &[u8]) -> (r: bool)
    ensures
        r == tells_fix(line@),
{
    proof {
        reveal_strlit(":");
        ascii_text(":");
    }
    if find(line, bytes("+GPSST: ")).is_none() && find(line, bytes("+GPSST:\0")).is_none() {
        return false;
    }
    match find(line, bytes(":")) {
        None => {
            proof {
                label_has_colon(line@);
            }
            false
        },
        Some(p) => {
            assert(p + 1 <= line.len());
            let mut i: usize = p + 1;
            let ghost field = line@.skip(p + 1);
            while i < line.len() && line[i] == 32
                invariant
                    i <= line@.len(),
                    first_nonspace(line@.skip(i as int)) == first_nonspace(field),
                decreases line@.len() - i,
            {
                assert(line@.skip(i as int).drop_first() =~= line@.skip(i + 1));
                i = i + 1;
            }
            i < line.len() && line[i] != 48
        },
    }
}

} // verus!
