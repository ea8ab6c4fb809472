//! What each exchange with the modem sends, how long it waits, and what it brings back.

use vstd::prelude::*;
use vstd::string::*;

use crate::gps::{
    iccid_is_the_number_behind_the_label, iccid_of, poll_script, read_iccid_script, reports_fit,
};
use crate::rx::{Action, Event};
use crate::rx_laws::{
    all_in_time, brings, drain_reads_to_the_deadline, heard, line_read_whole, marker_read_whole,
    sound, Poll,
};
use crate::session::{Operation, SessionState, Step};
use crate::session_laws::{
    after_exchange, after_query, after_read, answered_full_or_late, before_read, collect_reply,
    ends_with_last, exchange_reads, init_skips, init_waits, later_polls_change_nothing,
    power_off_waits, power_on_waits, receiver_after, reported_or_late, response_read,
    session_follows_receiver,
};
use crate::system_info::{collect_script, response};
use crate::text::{ascii_text, clip_keeps_the_start, occurs, occurs_at, text};

verus! {

/// The session runs `operation`, and no read is in progress.
pub open spec fn between_reads(s: SessionState, operation: Operation) -> bool {
    s.script == operation.script() && s.rx is None
}

/// The set-up writes ten commands, each in its turn; in between it reads; and then it is done.
pub proof fn init_writes_its_commands(s: SessionState)
    requires
        between_reads(s, Operation::Init),
    ensures
        s.action() is Done <==> s.at >= 21,
        s.at == 1 ==> s.action() == (Action::Write { command: "AT+CGDRT=12,1\r\n" }),
        s.at == 2 ==> s.action() == (Action::Write { command: "AT+CGSETV=12,1\r\n" }),
        s.at == 3 ==> s.action() == (Action::Write { command: "AT+CGGETV=12\r\n" }),
        s.at == 5 ==> s.action() == (Action::Write { command: "AT+MGPSGET=ALL,0\r\n" }),
        s.at == 7 ==> s.action() == (Action::Write { command: "AT+MGPSC=1\r\n" }),
        s.at == 11 ==> s.action() == (Action::Write { command: "AT+GPSMODE=1\r\n" }),
        s.at == 13 ==> s.action() == (Action::Write {
            command: "AT+AGNSSGET=pos.asrmicro.com\r\n",
        }),
        s.at == 15 ==> s.action() == (Action::Write { command: "AT+AGNSSSET\r\n" }),
        s.at == 17 ==> s.action() == (Action::Write { command: "AT+GPSST\r\n" }),
        s.at == 19 ==> s.action() == (Action::Write { command: "AT+MGPSC=0\r\n" }),
        s.at == 0 || s.at == 4 || s.at == 6 || s.at == 8 || s.at == 9 || s.at == 10 || s.at == 12
            || s.at == 14 || s.at == 16 || s.at == 18 || s.at == 20 ==> s.action() is ReadClock,
{
}

/// The other exchanges write these commands, each in its turn; in between they read; and then they
/// are done.
pub proof fn exchanges_write_their_commands(s: SessionState)
    requires
        s.rx is None,
    ensures
        s.script == Operation::PowerOn.script() ==> {
            &&& s.action() is Done <==> s.at >= 3
            &&& s.at == 0 ==> s.action() == (Action::Write { command: "AT+MGPSC=1\r\n" })
            &&& s.at == 1 || s.at == 2 ==> s.action() is ReadClock
        },
        s.script == Operation::PowerOff.script() ==> {
            &&& s.action() is Done <==> s.at >= 2
            &&& s.at == 0 ==> s.action() == (Action::Write { command: "AT+MGPSC=0\r\n" })
            &&& s.at == 1 ==> s.action() is ReadClock
        },
        s.script == Operation::Poll.script() ==> {
            &&& s.action() is Done <==> s.at >= 3
            &&& s.at == 1 ==> s.action() == (Action::Write { command: "AT+GPSST\r\n" })
            &&& s.at == 0 || s.at == 2 ==> s.action() is ReadClock
        },
        s.script == Operation::ReadIccid.script() ==> {
            &&& s.action() is Done <==> s.at >= 3
            &&& s.at == 1 ==> s.action() == (Action::Write { command: "AT+ICCID\r\n" })
            &&& s.at == 0 || s.at == 2 ==> s.action() is ReadClock
        },
        s.script == Operation::Collect.script() ==> {
            &&& s.action() is Done <==> s.at >= 9
            &&& s.at == 1 ==> s.action() == (Action::Write { command: "ATI\r\n" })
            &&& s.at == 3 ==> s.action() == (Action::Write { command: "AT+ICCID\r\n" })
            &&& s.at == 5 ==> s.action() == (Action::Write { command: "AT+CSQ\r\n" })
            &&& s.at == 7 ==> s.action() == (Action::Write { command: "AT+CCLK?\r\n" })
            &&& s.at == 0 || s.at == 2 || s.at == 4 || s.at == 6 || s.at == 8
                ==> s.action() is ReadClock
        },
{
}

/// The session goes on to the next step with these polls exactly when `over` holds.
pub open spec fn leaves_when(s: SessionState, now: u64, polls: Seq<Poll>, over: bool) -> bool {
    after_read(s, now, polls).at == if over {
        s.at + 1
    } else {
        s.at
    }
}

/// A session leaves a drain exactly when its time is over.
proof fn leaves_drain(s: SessionState, heeds_overrun: bool, now: u64, millis: u64, polls: Seq<Poll>)
    requires
        before_read(s),
        s.script[s.at as int] == (Step::Drain { heeds_overrun, millis }),
        ends_with_last(s.script[s.at as int], now, polls),
    ensures
        leaves_when(s, now, polls, !all_in_time(polls, now + 1000 * millis)),
{
    session_follows_receiver(s, now, polls);
    drain_reads_to_the_deadline(heeds_overrun, 0, now, millis, polls);
}

/// How long the set-up reads at each of its steps that read. The two drains last a fifth of a
/// second. The answers are read past for two seconds at most, the last one for five. The report of
/// the start is waited for thirty seconds, and that of the end ten. Fetching the assistance data
/// may take thirty seconds, and injecting it ten.
pub proof fn init_reads_in_time(s: SessionState, now: u64, polls: Seq<Poll>)
    requires
        between_reads(s, Operation::Init),
        before_read(s),
        ends_with_last(s.script[s.at as int], now, polls),
    ensures
        s.at == 0 || s.at == 10 ==> leaves_when(
            s,
            now,
            polls,
            !all_in_time(polls, now + 200_000),
        ),
        s.at == 4 || s.at == 6 || s.at == 8 || s.at == 12 ==> leaves_when(
            s,
            now,
            polls,
            answered_full_or_late(text("OK\r\n"), 256, now, 2000, polls),
        ),
        s.at == 9 ==> leaves_when(
            s,
            now,
            polls,
            reported_or_late(text("start up success."), now, 30_000, polls),
        ),
        s.at == 14 ==> leaves_when(
            s,
            now,
            polls,
            answered_full_or_late(text("AGPS download success."), 256, now, 30_000, polls),
        ),
        s.at == 16 ==> leaves_when(
            s,
            now,
            polls,
            answered_full_or_late(text("AGPS send success."), 256, now, 10_000, polls),
        ),
        s.at == 18 ==> leaves_when(
            s,
            now,
            polls,
            answered_full_or_late(text("OK\r\n"), 256, now, 5000, polls),
        ),
        s.at == 20 ==> leaves_when(
            s,
            now,
            polls,
            reported_or_late(text("poweroff success."), now, 10_000, polls),
        ),
{
    match s.script[s.at as int] {
        Step::Drain { heeds_overrun, millis } => leaves_drain(s, heeds_overrun, now, millis, polls),
        Step::SkipPast { marker, room, millis } => init_skips(s, marker, room, now, millis, polls),
        Step::WaitFor { marker, millis } => init_waits(s, marker, now, millis, polls),
        _ => {},
    }
}

/// Switching off ends when the report of it came within ten seconds, or ten seconds are over, and
/// at no other time. It replies with nothing.
pub proof fn switching_off_waits_for_its_report(now: u64, polls: Seq<Poll>)
    ensures
        ({
            let asked = SessionState::start(Operation::PowerOff.script()).step(Event::Written);
            let end = after_read(asked, now, polls);
            let deadline: int = now + 10_000_000;
            let bytes = sound(heard(polls, true, deadline));
            &&& end.done() <==> occurs(bytes, text("poweroff success.")) || !all_in_time(
                polls,
                deadline,
            )
            &&& end.reply == Seq::<u8>::empty()
        }),
{
    power_off_waits(now, polls);
    let asked = SessionState::start(Operation::PowerOff.script()).step(Event::Written);
    later_polls_change_nothing(asked, now, polls);
}

/// Switching on reads past the answer: until `OK` came within two seconds, or 128 bytes, or two
/// seconds are over. It ends when the report of the start then came within thirty seconds, or
/// thirty seconds are over, and at no other time. It replies with nothing.
pub proof fn switching_on_waits_for_its_report(n1: u64, p1: Seq<Poll>, n2: u64, p2: Seq<Poll>)
    requires
        ends_with_last(Operation::PowerOn.script()[1], n1, p1),
    ensures
        ({
            let asked = SessionState::start(Operation::PowerOn.script()).step(Event::Written);
            let answered = after_read(asked, n1, p1);
            let end = after_read(answered, n2, p2);
            let d1: int = n1 + 2_000_000;
            let b1 = sound(heard(p1, true, d1));
            let d2: int = n2 + 30_000_000;
            let b2 = sound(heard(p2, true, d2));
            let over = occurs(b1, text("OK\r\n")) || b1.len() >= 128 || !all_in_time(p1, d1);
            &&& !answered.done()
            &&& answered.at == 2 <==> over
            &&& over ==> {
                &&& end.done() <==> occurs(b2, text("start up success.")) || !all_in_time(p2, d2)
                &&& end.reply == Seq::<u8>::empty()
            }
        }),
{
    power_on_waits(n1, p1, n2, p2);
    let asked = SessionState::start(Operation::PowerOn.script()).step(Event::Written);
    session_follows_receiver(asked, n1, p1);
    let answered = after_read(asked, n1, p1);
    if answered.at == 2 {
        later_polls_change_nothing(answered, n2, p2);
    }
}

/// Before the status line and the SIM card number are asked for, what comes in is thrown away for a
/// fifth of a second; before the state of the modem is asked for, for a twentieth. The question
/// comes exactly then, and not before.
pub proof fn drains_before_asking(start: u64, stale: Seq<Poll>)
    ensures
        after_read(SessionState::start(Operation::Poll.script()), start, stale).at
            == if all_in_time(stale, start + 200_000) {
            0nat
        } else {
            1
        },
        after_read(SessionState::start(Operation::ReadIccid.script()), start, stale).at
            == if all_in_time(stale, start + 200_000) {
            0nat
        } else {
            1
        },
        after_read(SessionState::start(Operation::Collect.script()), start, stale).at
            == if all_in_time(stale, start + 50_000) {
            0nat
        } else {
            1
        },
{
    later_polls_change_nothing(SessionState::start(Operation::Poll.script()), start, stale);
    later_polls_change_nothing(SessionState::start(Operation::ReadIccid.script()), start, stale);
    later_polls_change_nothing(SessionState::start(Operation::Collect.script()), start, stale);
    drain_reads_to_the_deadline(true, 0, start, 200, stale);
    drain_reads_to_the_deadline(false, 0, start, 50, stale);
}

/// The drains of the exchanges with the GPS receiver also clear a lone overrun flag, which takes a
/// reading of the data register. The drain before the state of the modem does not.
pub proof fn drains_clear_the_overrun(s: SessionState, now: u64, t: u64)
    requires
        s.rx is None,
        now <= t,
    ensures
        ({
            let flagged = s.step(Event::Clock { now }).step(Event::Clock { now: t }).step(
                Event::Status { rxne: false, ore: true },
            );
            &&& t < now + 200_000 && s.at == 0 && (s.script == Operation::Poll.script() || s.script
                == Operation::ReadIccid.script() || s.script == Operation::Init.script())
                ==> flagged.action() is ReadData
            &&& t < now + 200_000 && s.at == 10 && s.script == Operation::Init.script()
                ==> flagged.action() is ReadData
            &&& t < now + 50_000 && s.at == 0 && s.script == Operation::Collect.script()
                ==> flagged.action() is ReadClock
        }),
{
}

/// The reply to a poll is the status line as it came, when it comes whole within ten seconds of the
/// question and is no longer than 192 bytes. What came before the question does not matter, nor do
/// other lines before the status line.
pub proof fn poll_brings_the_line(
    start: u64,
    stale: Seq<Poll>,
    late: int,
    now: u64,
    polls: Seq<Poll>,
    noise: Seq<u8>,
    line: Seq<u8>,
    end: u8,
)
    requires
        0 <= late < stale.len(),
        stale[late].now >= start + 200_000,
        brings(polls, noise + line + seq![end], now + 10_000_000),
        noise.len() > 0 ==> noise.last() == 13 || noise.last() == 10,
        forall|j: int| !#[trigger] occurs_at(noise, text("+GPSST:"), j),
        line.len() <= 192,
        text("+GPSST:").is_prefix_of(line),
        forall|k: int| 0 <= k < line.len() ==> #[trigger] line[k] != 13 && line[k] != 10,
        end == 13 || end == 10,
    ensures
        ({
            let s = after_exchange(Operation::Poll.script(), start, stale, now, polls);
            s.done() && s.reply == line
        }),
{
    reveal_strlit("+GPSST:");
    ascii_text("+GPSST:");
    drain_reads_to_the_deadline(true, 0, start, 200, stale);
    assert(!all_in_time(stale, start + 200_000));
    exchange_reads(poll_script(), start, stale, now, polls);
    line_read_whole(text("+GPSST:"), true, 192, now, 10_000, polls, noise, line, end);
    clip_keeps_the_start(line, 768);
}

/// A message ends with `OK`, which stands nowhere else in it, and has at most `room` bytes.
pub open spec fn ends_with_ok(message: Seq<u8>, room: nat) -> bool {
    let ok = text("OK\r\n");
    &&& ok.len() <= message.len() <= room
    &&& occurs_at(message, ok, message.len() - ok.len())
    &&& forall|j: int|
        0 <= j < message.len() - ok.len() ==> !#[trigger] occurs_at(message, ok, j)
}

/// The reply to the question for the SIM card number is the answer as it came, when it comes whole
/// within three seconds of the question and has no more than 128 bytes. What came before the
/// question does not matter.
pub proof fn read_iccid_brings_the_answer(
    start: u64,
    stale: Seq<Poll>,
    late: int,
    now: u64,
    polls: Seq<Poll>,
    message: Seq<u8>,
)
    requires
        0 <= late < stale.len(),
        stale[late].now >= start + 200_000,
        brings(polls, message, now + 3_000_000),
        ends_with_ok(message, 128),
    ensures
        ({
            let s = after_exchange(Operation::ReadIccid.script(), start, stale, now, polls);
            s.done() && s.reply == message
        }),
{
    reports_fit();
    drain_reads_to_the_deadline(true, 0, start, 200, stale);
    assert(!all_in_time(stale, start + 200_000));
    exchange_reads(read_iccid_script(), start, stale, now, polls);
    marker_read_whole(text("OK\r\n"), true, 128, now, 3000, polls, message);
    clip_keeps_the_start(message, 768);
}

/// The number of the SIM card is found in the answer to the question for it: the label, the number
/// and the `OK`, each on a line of its own or not.
pub proof fn read_iccid_brings_the_number(
    before: Seq<u8>,
    between: Seq<u8>,
    digits: Seq<u8>,
    rest: Seq<u8>,
    start: u64,
    stale: Seq<Poll>,
    late: int,
    now: u64,
    polls: Seq<Poll>,
)
    requires
        0 <= late < stale.len(),
        stale[late].now >= start + 200_000,
        brings(polls, before + text("+ICCID:") + between + digits + rest, now + 3_000_000),
        ends_with_ok(before + text("+ICCID:") + between + digits + rest, 128),
        forall|j: int|
            0 <= j < before.len() ==> !#[trigger] occurs_at(
                before + text("+ICCID:") + between + digits + rest,
                text("+ICCID:"),
                j,
            ),
        forall|k: int| 0 <= k < between.len() ==> !(48 <= #[trigger] between[k] <= 57),
        0 < digits.len() <= 24,
        forall|k: int| 0 <= k < digits.len() ==> 48 <= #[trigger] digits[k] <= 57,
        rest.len() > 0 ==> !(48 <= rest[0] <= 57),
    ensures
        iccid_of(
            after_exchange(Operation::ReadIccid.script(), start, stale, now, polls).reply,
        ) == digits,
{
    let message = before + text("+ICCID:") + between + digits + rest;
    read_iccid_brings_the_answer(start, stale, late, now, polls, message);
    iccid_is_the_number_behind_the_label(before, between, digits, rest);
}

/// The response to a query is the answer as it came, when it comes whole within a second and a half
/// of the query and has no more than 192 bytes; and the read is over then.
pub proof fn response_comes_whole(now: u64, polls: Seq<Poll>, message: Seq<u8>)
    requires
        brings(polls, message, now + 1_500_000),
        ends_with_ok(message, 192),
    ensures
        receiver_after(response(), now, polls).stopped(),
        response_read(now, polls) == message,
{
    reports_fit();
    marker_read_whole(text("OK\r\n"), false, 192, now, 1500, polls, message);
}

/// The reply of the collection is the four answers as they came, one after the other, when each
/// comes whole within a second and a half of its query and has no more than 192 bytes.
pub proof fn collect_brings_all_answers(
    start: u64,
    stale: Seq<Poll>,
    late: int,
    n1: u64,
    p1: Seq<Poll>,
    m1: Seq<u8>,
    n2: u64,
    p2: Seq<Poll>,
    m2: Seq<u8>,
    n3: u64,
    p3: Seq<Poll>,
    m3: Seq<u8>,
    n4: u64,
    p4: Seq<Poll>,
    m4: Seq<u8>,
)
    requires
        0 <= late < stale.len(),
        stale[late].now >= start + 50_000,
        brings(p1, m1, n1 + 1_500_000),
        brings(p2, m2, n2 + 1_500_000),
        brings(p3, m3, n3 + 1_500_000),
        brings(p4, m4, n4 + 1_500_000),
        ends_with_ok(m1, 192),
        ends_with_ok(m2, 192),
        ends_with_ok(m3, 192),
        ends_with_ok(m4, 192),
    ensures
        ({
            let drained = after_read(
                SessionState::start(Operation::Collect.script()),
                start,
                stale,
            );
            let end = after_query(
                after_query(after_query(after_query(drained, n1, p1), n2, p2), n3, p3),
                n4,
                p4,
            );
            end.done() && end.reply == m1 + m2 + m3 + m4
        }),
{
    assert(receiver_after(collect_script()[0], start, stale).stopped()) by {
        drain_reads_to_the_deadline(false, 0, start, 50, stale);
        assert(!all_in_time(stale, start + 50_000));
    }
    response_comes_whole(n1, p1, m1);
    response_comes_whole(n2, p2, m2);
    response_comes_whole(n3, p3, m3);
    response_comes_whole(n4, p4, m4);
    collect_reply(start, stale, n1, p1, n2, p2, n3, p3, n4, p4);
    clip_keeps_the_start(m1 + m2 + m3 + m4, 768);
}

/// One query is its command, written, and then its response, read.
pub proof fn a_query_is_asked_and_answered(s: SessionState, now: u64, polls: Seq<Poll>)
    ensures
        after_query(s, now, polls) == after_read(s.step(Event::Written), now, polls),
{
    reveal(after_query);
}

} // verus!
