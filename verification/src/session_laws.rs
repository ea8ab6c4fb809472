//! What an exchange sends, and what its reply is, whatever the modem does.

use vstd::prelude::*;

use crate::gps::{
    init_script, poll_script, power_off_script, power_on_script, read_iccid_script, reports_fit,
};
use crate::rx::{Action, Aim, Event, RxState, LINE_ROOM};
use crate::rx_laws::{
    after_poll, after_polls, all_in_time, ends_when_late, first_wanted_line, has_wanted_line, heard,
    line_read, marker_read, marker_read_ends, read_up_to, sound, stopped_is_final, wait_ends,
    waiting, Poll,
};
use crate::session::{SessionState, Step, REPLY_ROOM};
use crate::system_info::{collect_script, response};
use crate::text::{ascii_text, clip, clip_in_pieces, occurs, text};

verus! {

/// After all `events`, in order.
pub open spec fn after_events(s: SessionState, events: Seq<Event>) -> SessionState
    decreases events.len(),
{
    if events.len() == 0 {
        s
    } else {
        after_events(s, events.drop_last()).step(events.last())
    }
}

/// What was written to the serial port on the way: whenever a write is asked for and then
/// reported.
pub open spec fn sent(s: SessionState, events: Seq<Event>) -> Seq<Seq<u8>>
    decreases events.len(),
{
    if events.len() == 0 {
        Seq::empty()
    } else {
        let before = sent(s, events.drop_last());
        match (after_events(s, events.drop_last()).action(), events.last()) {
            (Action::Write { command }, Event::Written) => before.push(text(command)),
            _ => before,
        }
    }
}

/// The commands of a script, in order.
pub open spec fn commands(script: Seq<Step>) -> Seq<Seq<u8>>
    decreases script.len(),
{
    if script.len() == 0 {
        Seq::empty()
    } else {
        let before = commands(script.drop_last());
        match script.last() {
            Step::Send { command } => before.push(text(command)),
            _ => before,
        }
    }
}

/// A session sends the commands of its script in order, each once and nothing else: at any time
/// those of the steps that are over, and all of them once it is done.
pub proof fn sends_the_commands_in_order(script: Seq<Step>, events: Seq<Event>)
    ensures
        ({
            let end = after_events(SessionState::start(script), events);
            &&& end.script == script
            &&& end.at <= script.len()
            &&& sent(SessionState::start(script), events) == commands(script.take(end.at as int))
            &&& end.done() ==> sent(SessionState::start(script), events) == commands(script)
        }),
{
    in_order(script, events);
    assert(script.take(script.len() as int) =~= script);
}

/// Only a step that reads has a receiver, and one that has not stopped.
pub open spec fn receives(s: SessionState) -> bool {
    s.rx matches Some(rx) ==> !rx.stopped() && !s.done() && !(s.script[s.at as int] is Send)
}

proof fn in_order(script: Seq<Step>, events: Seq<Event>)
    ensures
        ({
            let end = after_events(SessionState::start(script), events);
            &&& end.script == script
            &&& end.at <= script.len()
            &&& receives(end)
            &&& sent(SessionState::start(script), events) == commands(script.take(end.at as int))
        }),
    decreases events.len(),
{
    let start = SessionState::start(script);
    if events.len() == 0 {
        assert(script.take(0) =~= Seq::<Step>::empty());
    } else {
        in_order(script, events.drop_last());
        let mid = after_events(start, events.drop_last());
        if !mid.done() {
            assert(script.take((mid.at + 1) as int).drop_last() =~= script.take(mid.at as int));
        }
    }
}

/// Once a session is done, nothing that happens changes it.
pub proof fn done_is_final(s: SessionState, event: Event)
    requires
        s.action() is Done,
        receives(s),
    ensures
        s.step(event) == s,
{
}

/// After one poll of the receiver. A register that is not asked for is not read: an event that the
/// session is not waiting for changes nothing.
pub open spec fn session_poll(s: SessionState, poll: Poll) -> SessionState {
    s.step(Event::Clock { now: poll.now }).step(
        Event::Status { rxne: poll.rxne, ore: poll.ore },
    ).step(Event::Data { byte: poll.byte })
}

/// After all `polls`, in order.
pub open spec fn session_polls(s: SessionState, polls: Seq<Poll>) -> SessionState
    decreases polls.len(),
{
    if polls.len() == 0 {
        s
    } else {
        session_poll(session_polls(s, polls.drop_last()), polls.last())
    }
}

/// After a step that reads: it starts at `now`, and goes on with `polls`.
pub open spec fn after_read(s: SessionState, now: u64, polls: Seq<Poll>) -> SessionState {
    session_polls(s.step(Event::Clock { now }), polls)
}

/// What the receiver of a step has come to.
pub open spec fn receiver_after(step: Step, now: u64, polls: Seq<Poll>) -> RxState {
    after_polls(step.receiver(now), polls)
}

/// The step in progress reads, and has not started yet.
pub open spec fn before_read(s: SessionState) -> bool {
    &&& !s.done()
    &&& s.rx is None
    &&& !(s.script[s.at as int] is Send)
}

/// No poll is made once the receiver of the step has stopped.
pub open spec fn ends_with_last(step: Step, now: u64, polls: Seq<Poll>) -> bool {
    polls.len() > 0 ==> !receiver_after(step, now, polls.drop_last()).stopped()
}

/// A session reads as the receiver of its step does, up to and with the poll that stops the
/// receiver, and then goes on to the next step.
pub proof fn session_follows_receiver(s: SessionState, now: u64, polls: Seq<Poll>)
    requires
        before_read(s),
        ends_with_last(s.script[s.at as int], now, polls),
    ensures
        after_read(s, now, polls) == s.with_receiver(
            receiver_after(s.script[s.at as int], now, polls),
        ),
    decreases polls.len(),
{
    if polls.len() > 0 {
        let step = s.script[s.at as int];
        let earlier = polls.drop_last();
        let mid = receiver_after(step, now, earlier);
        if earlier.len() > 0 {
            let before = receiver_after(step, now, earlier.drop_last());
            if before.stopped() {
                stopped_is_final(before, earlier.last());
            }
        }
        session_follows_receiver(s, now, earlier);
        assert(receiver_after(step, now, polls) == after_poll(mid, polls.last()));
    }
}

/// Where no other read follows, polls that are made once the receiver has stopped change nothing.
pub proof fn later_polls_change_nothing(s: SessionState, now: u64, polls: Seq<Poll>)
    requires
        before_read(s),
        s.at + 1 < s.script.len() ==> s.script[(s.at + 1) as int] is Send,
    ensures
        after_read(s, now, polls) == s.with_receiver(
            receiver_after(s.script[s.at as int], now, polls),
        ),
    decreases polls.len(),
{
    if polls.len() > 0 {
        let earlier = polls.drop_last();
        later_polls_change_nothing(s, now, earlier);
        let step = s.script[s.at as int];
        let mid = receiver_after(step, now, earlier);
        assert(receiver_after(step, now, polls) == after_poll(mid, polls.last()));
    }
}

/// A session never goes back to an earlier step.
pub proof fn never_back(s: SessionState, poll: Poll)
    ensures
        session_poll(s, poll).at >= s.at,
        session_poll(s, poll).script == s.script,
{
}

/// A step that reads is over at the latest with the first poll that finds its deadline reached.
pub proof fn a_late_poll_ends_the_step(s: SessionState, now: u64, polls: Seq<Poll>)
    requires
        before_read(s),
    ensures
        !all_in_time(polls, s.script[s.at as int].receiver(now).deadline) ==> after_read(
            s,
            now,
            polls,
        ).at > s.at,
{
    over_or_reading(s, now, polls);
    let step = s.script[s.at as int];
    ends_when_late(step.receiver(now), polls);
}

/// Until its step is over, a session is where its receiver is.
proof fn over_or_reading(s: SessionState, now: u64, polls: Seq<Poll>)
    requires
        before_read(s),
    ensures
        ({
            let end = after_read(s, now, polls);
            let rx = receiver_after(s.script[s.at as int], now, polls);
            end.at > s.at || (!rx.stopped() && end == s.with_receiver(rx))
        }),
    decreases polls.len(),
{
    if polls.len() > 0 {
        let earlier = polls.drop_last();
        over_or_reading(s, now, earlier);
        never_back(after_read(s, now, earlier), polls.last());
        let step = s.script[s.at as int];
        let mid = receiver_after(step, now, earlier);
        assert(receiver_after(step, now, polls) == after_poll(mid, polls.last()));
    }
}

/// Every session that is not done moves on, whatever happened before. A command is over once it is
/// reported as written. A step that reads starts with the clock, and its deadline counts from
/// there. Once it reads, it is over with the next reading of the clock that finds the deadline
/// reached. A poll that was under way may come before that reading, so that two polls are enough.
pub proof fn every_state_moves_on(
    script: Seq<Step>,
    events: Seq<Event>,
    now: u64,
    first: Poll,
    second: Poll,
)
    ensures
        ({
            let s = after_events(SessionState::start(script), events);
            !s.done() ==> match s.rx {
                None => match script[s.at as int] {
                    Step::Send { command } => {
                        &&& s.action() == (Action::Write { command })
                        &&& s.step(Event::Written).at == s.at + 1
                    },
                    step => {
                        let begun = s.step(Event::Clock { now });
                        &&& s.action() is ReadClock
                        &&& begun.at == s.at + 1 || begun.rx == Some(step.receiver(now))
                    },
                },
                Some(rx) => {
                    &&& s.action() is ReadClock && now >= rx.deadline ==> s.step(
                        Event::Clock { now },
                    ).at == s.at + 1
                    &&& first.now >= rx.deadline && second.now >= rx.deadline ==> session_poll(
                        session_poll(s, first),
                        second,
                    ).at > s.at
                },
            }
        }),
{
    in_order(script, events);
    let s = after_events(SessionState::start(script), events);
    if !s.done() && s.rx is Some {
        let mid = session_poll(s, first);
        never_back(s, first);
        never_back(mid, second);
        if mid.at == s.at && first.now >= s.rx->0.deadline && second.now >= s.rx->0.deadline {
            assert(mid.rx is Some && mid.rx->0.phase is Clock);
            assert(mid.rx->0.deadline == s.rx->0.deadline);
            assert(session_poll(mid, second).at > mid.at);
        }
    }
}

/// A step that reads may last a thousand ticks for each of its milliseconds, and a session takes
/// the reading of the clock that starts it exactly when that much is left on the clock. It takes
/// any other event.
pub proof fn reads_last_their_milliseconds(s: SessionState, now: u64, millis: u64, event: Event)
    requires
        before_read(s),
        s.script[s.at as int].reads_for() == Some(millis),
    ensures
        s.script[s.at as int].receiver(now).deadline == now + 1000 * millis,
        s.admits(Event::Clock { now }) <==> now + 1000 * millis <= u64::MAX,
        !(event is Clock) ==> s.admits(event),
{
}

/// A session that does not start to read takes any event.
pub proof fn admits_all_but_late_starts(s: SessionState, event: Event)
    requires
        !before_read(s),
    ensures
        s.admits(event),
{
}

/// An event that a session did not ask for changes nothing.
pub proof fn unasked_events_leave_the_session(script: Seq<Step>, events: Seq<Event>, event: Event)
    requires
        match event {
            Event::Clock { .. } => !(after_events(
                SessionState::start(script),
                events,
            ).action() is ReadClock),
            Event::Status { .. } => !(after_events(
                SessionState::start(script),
                events,
            ).action() is ReadStatus),
            Event::Data { .. } => !(after_events(
                SessionState::start(script),
                events,
            ).action() is ReadData),
            Event::Written => !(after_events(
                SessionState::start(script),
                events,
            ).action() is Write),
        },
    ensures
        ({
            let s = after_events(SessionState::start(script), events);
            s.step(event) == s
        }),
{
    in_order(script, events);
}

/// The step in progress is a wait of `millis` milliseconds for `marker`.
pub open spec fn waits_for(s: SessionState, marker: &'static str, millis: u64) -> bool {
    &&& before_read(s)
    &&& s.script[s.at as int] == (Step::WaitFor { marker, millis })
}

/// The report came in time among these polls, or the time is over.
pub open spec fn reported_or_late(
    marker: Seq<u8>,
    now: u64,
    millis: u64,
    polls: Seq<Poll>,
) -> bool {
    let deadline: int = now + 1000 * millis;
    occurs(sound(heard(polls, true, deadline)), marker) || !all_in_time(polls, deadline)
}

/// A session leaves a wait when the report came in time or the time is over, and at no other time:
/// other bytes do not end the wait, however many come. The reply stays as it was.
pub proof fn waits_for_the_report(
    s: SessionState,
    marker: &'static str,
    now: u64,
    millis: u64,
    polls: Seq<Poll>,
)
    requires
        waits_for(s, marker, millis),
        text(marker).len() > 0,
        ends_with_last(s.script[s.at as int], now, polls),
    ensures
        ({
            let end = after_read(s, now, polls);
            let over = reported_or_late(text(marker), now, millis, polls);
            &&& end.at == if over {
                s.at + 1
            } else {
                s.at
            }
            &&& over <==> end.rx is None
            &&& end.script == s.script
            &&& end.reply == s.reply
        }),
{
    session_follows_receiver(s, now, polls);
    wait_ends(text(marker), now, millis, polls);
}

/// The step in progress reads past `marker`, `room` bytes at most, for `millis` milliseconds.
pub open spec fn skips_past(
    s: SessionState,
    marker: &'static str,
    room: usize,
    millis: u64,
) -> bool {
    &&& before_read(s)
    &&& s.script[s.at as int] == (Step::SkipPast { marker, room, millis })
}

/// The answer came in time among these polls, or as many bytes as there is room for, or the time is
/// over.
pub open spec fn answered_full_or_late(
    marker: Seq<u8>,
    room: nat,
    now: u64,
    millis: u64,
    polls: Seq<Poll>,
) -> bool {
    let deadline: int = now + 1000 * millis;
    let bytes = sound(heard(polls, true, deadline));
    occurs(bytes, marker) || bytes.len() >= room || !all_in_time(polls, deadline)
}

/// A session leaves a step that reads past an answer when the answer came in time, the room is
/// full, or the time is over, and at no other time. The reply stays as it was.
pub proof fn skips_past_the_answer(
    s: SessionState,
    marker: &'static str,
    room: usize,
    now: u64,
    millis: u64,
    polls: Seq<Poll>,
)
    requires
        skips_past(s, marker, room, millis),
        text(marker).len() > 0,
        ends_with_last(s.script[s.at as int], now, polls),
    ensures
        ({
            let end = after_read(s, now, polls);
            let over = answered_full_or_late(text(marker), room as nat, now, millis, polls);
            &&& end.at == if over {
                s.at + 1
            } else {
                s.at
            }
            &&& over <==> end.rx is None
            &&& end.script == s.script
            &&& end.reply == s.reply
        }),
{
    session_follows_receiver(s, now, polls);
    marker_read_ends(text(marker), true, room as nat, now, millis, polls);
}

/// Switching off sends its command and is done when the receiver reported that it is off, or ten
/// seconds are over, and at no other time.
pub proof fn power_off_waits(now: u64, polls: Seq<Poll>)
    ensures
        ({
            let asked = SessionState::start(power_off_script()).step(Event::Written);
            after_read(asked, now, polls).done() <==> reported_or_late(
                text("poweroff success."),
                now,
                10_000,
                polls,
            )
        }),
{
    reports_fit();
    let asked = SessionState::start(power_off_script()).step(Event::Written);
    later_polls_change_nothing(asked, now, polls);
    wait_ends(text("poweroff success."), now, 10_000, polls);
}

/// Switching on sends its command and reads past the answer. It is done when the receiver then
/// reported that it has started, or thirty seconds are over, and at no other time.
pub proof fn power_on_waits(n1: u64, p1: Seq<Poll>, n2: u64, p2: Seq<Poll>)
    requires
        ends_with_last(power_on_script()[1], n1, p1),
    ensures
        ({
            let asked = SessionState::start(power_on_script()).step(Event::Written);
            let answered = after_read(asked, n1, p1);
            let over = answered_full_or_late(text("OK\r\n"), 128, n1, 2000, p1);
            &&& !over ==> answered.at == 1 && !answered.done()
            &&& over ==> {
                &&& answered.at == 2 && !answered.done()
                &&& after_read(answered, n2, p2).done() <==> reported_or_late(
                    text("start up success."),
                    n2,
                    30_000,
                    p2,
                )
            }
        }),
{
    reports_fit();
    let asked = SessionState::start(power_on_script()).step(Event::Written);
    skips_past_the_answer(asked, "OK\r\n", 128, n1, 2000, p1);
    let answered = after_read(asked, n1, p1);
    if answered_full_or_late(text("OK\r\n"), 128, n1, 2000, p1) {
        later_polls_change_nothing(answered, n2, p2);
        wait_ends(text("start up success."), n2, 30_000, p2);
    }
}

/// The set-up leaves each of its waits when the report came in time or the time is over, and at no
/// other time.
pub proof fn init_waits(
    s: SessionState,
    marker: &'static str,
    now: u64,
    millis: u64,
    polls: Seq<Poll>,
)
    requires
        s.script == init_script(),
        waits_for(s, marker, millis),
        ends_with_last(s.script[s.at as int], now, polls),
    ensures
        ({
            let end = after_read(s, now, polls);
            let over = reported_or_late(text(marker), now, millis, polls);
            &&& end.script == init_script()
            &&& end.at == if over {
                s.at + 1
            } else {
                s.at
            }
        }),
{
    reports_fit();
    waits_for_the_report(s, marker, now, millis, polls);
}

/// The set-up leaves each step that reads past an answer when the answer came in time, the room is
/// full, or the time is over, and at no other time.
pub proof fn init_skips(
    s: SessionState,
    marker: &'static str,
    room: usize,
    now: u64,
    millis: u64,
    polls: Seq<Poll>,
)
    requires
        s.script == init_script(),
        skips_past(s, marker, room, millis),
        ends_with_last(s.script[s.at as int], now, polls),
    ensures
        ({
            let end = after_read(s, now, polls);
            let over = answered_full_or_late(text(marker), room as nat, now, millis, polls);
            &&& room == 256
            &&& end.script == init_script()
            &&& end.at == if over {
                s.at + 1
            } else {
                s.at
            }
        }),
{
    reports_fit();
    skips_past_the_answer(s, marker, room, now, millis, polls);
}

/// What is among the commands of a script is sent by one of its steps.
proof fn commands_are_sent_by_steps(script: Seq<Step>, command: Seq<u8>) -> (i: int)
    requires
        commands(script).contains(command),
    ensures
        0 <= i < script.len(),
        script[i] matches Step::Send { command: c } && text(c) == command,
    decreases script.len(),
{
    let before = commands(script.drop_last());
    if before.contains(command) {
        commands_are_sent_by_steps(script.drop_last(), command)
    } else {
        script.len() - 1
    }
}

/// The command that sets the mode differs from those that the set-up sends before it.
proof fn mode_command_is_new(i: int)
    requires
        0 <= i < 11,
    ensures
        init_script()[i] matches Step::Send { command } ==> text(command) != text(
            "AT+GPSMODE=1\r\n",
        ),
{
    reveal_strlit("AT+GPSMODE=1\r\n");
    reveal_strlit("AT+CGDRT=12,1\r\n");
    reveal_strlit("AT+CGSETV=12,1\r\n");
    reveal_strlit("AT+CGGETV=12\r\n");
    reveal_strlit("AT+MGPSGET=ALL,0\r\n");
    reveal_strlit("AT+MGPSC=1\r\n");
    ascii_text("AT+GPSMODE=1\r\n");
    ascii_text("AT+CGDRT=12,1\r\n");
    ascii_text("AT+CGSETV=12,1\r\n");
    ascii_text("AT+CGGETV=12\r\n");
    ascii_text("AT+MGPSGET=ALL,0\r\n");
    ascii_text("AT+MGPSC=1\r\n");
    assert(text("AT+GPSMODE=1\r\n")[3] == 'G' as u8);
    assert(text("AT+CGGETV=12\r\n")[3] == 'C' as u8);
}

/// The set-up sends `AT+GPSMODE=1` only once its wait for the start of the GPS receiver is over,
/// and that wait ends only when the receiver reported that it has started, or when thirty seconds
/// are over.
pub proof fn mode_is_set_after_the_start(events: Seq<Event>, now: u64, polls: Seq<Poll>)
    ensures
        ({
            let start = SessionState::start(init_script());
            let s = after_events(start, events);
            let end = after_read(s, now, polls);
            &&& sent(start, events).contains(text("AT+GPSMODE=1\r\n")) ==> s.at > 11
            &&& s.at == 9 && s.rx is None && ends_with_last(init_script()[9], now, polls)
                ==> end.at == if reported_or_late(text("start up success."), now, 30_000, polls) {
                10nat
            } else {
                9
            }
        }),
{
    let script = init_script();
    let start = SessionState::start(script);
    let s = after_events(start, events);
    in_order(script, events);
    if sent(start, events).contains(text("AT+GPSMODE=1\r\n")) && s.at <= 11 {
        let i = commands_are_sent_by_steps(script.take(s.at as int), text("AT+GPSMODE=1\r\n"));
        mode_command_is_new(i);
    }
    if s.at == 9 && s.rx is None && ends_with_last(script[9], now, polls) {
        init_waits(s, "start up success.", now, 30_000, polls);
    }
}

/// After an exchange of a drain, a command and a read: stale bytes are drained from `start` on, and
/// the reply is read from `now` on.
pub open spec fn after_exchange(
    script: Seq<Step>,
    start: u64,
    stale: Seq<Poll>,
    now: u64,
    polls: Seq<Poll>,
) -> SessionState {
    after_read(
        after_read(SessionState::start(script), start, stale).step(Event::Written),
        now,
        polls,
    )
}

/// What such an exchange comes to once its drain is over.
pub proof fn exchange_reads(
    script: Seq<Step>,
    start: u64,
    stale: Seq<Poll>,
    now: u64,
    polls: Seq<Poll>,
)
    requires
        script.len() == 3,
        script[0] is Drain,
        script[1] is Send,
        script[2].keeps(),
        receiver_after(script[0], start, stale).stopped(),
    ensures
        ({
            let end = after_exchange(script, start, stale, now, polls);
            let rx = receiver_after(script[2], now, polls);
            &&& end.done() <==> rx.stopped()
            &&& end.reply == if rx.stopped() {
                clip(rx.result(), REPLY_ROOM as nat)
            } else {
                Seq::empty()
            }
        }),
{
    let s0 = SessionState::start(script);
    later_polls_change_nothing(s0, start, stale);
    let asked = after_read(s0, start, stale).step(Event::Written);
    later_polls_change_nothing(asked, now, polls);
    let rx = receiver_after(script[2], now, polls);
    assert(Seq::<u8>::empty() + rx.result() =~= rx.result());
}

/// The reply to a poll is the first whole line that starts with `+GPSST:` and arrives in time after
/// the question, as far as there is room; it is empty exactly when the time is over without one.
/// What was drained before the question does not matter.
pub proof fn poll_reply(start: u64, stale: Seq<Poll>, now: u64, polls: Seq<Poll>)
    requires
        receiver_after(poll_script()[0], start, stale).stopped(),
    ensures
        ({
            let end = after_exchange(poll_script(), start, stale, now, polls);
            let prefix = text("+GPSST:");
            let deadline: int = now + 10_000_000;
            let h = heard(polls, true, deadline);
            let found = has_wanted_line(h, prefix, 192);
            &&& end.done() <==> found || !all_in_time(polls, deadline)
            &&& end.reply.len() > 0 <==> found
            &&& found ==> first_wanted_line(h, prefix, 192, end.reply)
        }),
{
    exchange_reads(poll_script(), start, stale, now, polls);
    line_read(text("+GPSST:"), true, LINE_ROOM as nat, now, 10_000, polls);
}

/// The reply to the question for the SIM card number is what arrives in time after the question,
/// spoilt bytes left out, up to and with the `OK`, as far as there is room. The exchange is done
/// when the `OK` came, the room is full, or the time is over, and at no other time.
#[verifier::rlimit(30)]
pub proof fn read_iccid_reply(start: u64, stale: Seq<Poll>, now: u64, polls: Seq<Poll>)
    requires
        receiver_after(read_iccid_script()[0], start, stale).stopped(),
    ensures
        ({
            let end = after_exchange(read_iccid_script(), start, stale, now, polls);
            let deadline: int = now + 3_000_000;
            let bytes = sound(heard(polls, true, deadline));
            &&& end.done() <==> occurs(bytes, text("OK\r\n")) || bytes.len() >= 128
                || !all_in_time(polls, deadline)
            &&& end.done() ==> read_up_to(bytes, text("OK\r\n"), 128, end.reply)
            &&& !end.done() ==> end.reply == Seq::<u8>::empty()
        }),
{
    reports_fit();
    exchange_reads(read_iccid_script(), start, stale, now, polls);
    marker_read(text("OK\r\n"), true, 128, now, 3000, polls);
    marker_read_ends(text("OK\r\n"), true, 128, now, 3000, polls);
}

/// After one query of the modem's state: the command is written, and its response read.
#[verifier::opaque]
pub open spec fn after_query(s: SessionState, now: u64, polls: Seq<Poll>) -> SessionState {
    after_read(s.step(Event::Written), now, polls)
}

/// What was read in response to one query.
pub open spec fn response_read(now: u64, polls: Seq<Poll>) -> Seq<u8> {
    receiver_after(response(), now, polls).result()
}

/// The response to a query is what arrives in time up to and with the `OK`, as far as there is
/// room. It is over when the `OK` came, the room is full, or the time is over, and at no other
/// time. The overrun flag counts for nothing.
pub proof fn response_is_read_up_to_ok(now: u64, polls: Seq<Poll>)
    ensures
        ({
            let deadline: int = now + 1_500_000;
            let bytes = sound(heard(polls, false, deadline));
            &&& read_up_to(bytes, text("OK\r\n"), 192, response_read(now, polls))
            &&& receiver_after(response(), now, polls).stopped() <==> occurs(bytes, text("OK\r\n"))
                || bytes.len() >= 192 || !all_in_time(polls, deadline)
        }),
{
    reports_fit();
    marker_read(text("OK\r\n"), false, 192, now, 1500, polls);
    marker_read_ends(text("OK\r\n"), false, 192, now, 1500, polls);
}

/// The reply of the collection is the responses to the four queries, one after the other, as far as
/// there is room.
pub proof fn collect_reply(
    start: u64,
    stale: Seq<Poll>,
    n1: u64,
    p1: Seq<Poll>,
    n2: u64,
    p2: Seq<Poll>,
    n3: u64,
    p3: Seq<Poll>,
    n4: u64,
    p4: Seq<Poll>,
)
    requires
        receiver_after(collect_script()[0], start, stale).stopped(),
        receiver_after(response(), n1, p1).stopped(),
        receiver_after(response(), n2, p2).stopped(),
        receiver_after(response(), n3, p3).stopped(),
        receiver_after(response(), n4, p4).stopped(),
    ensures
        ({
            let drained = after_read(SessionState::start(collect_script()), start, stale);
            let end = after_query(
                after_query(after_query(after_query(drained, n1, p1), n2, p2), n3, p3),
                n4,
                p4,
            );
            &&& end.done()
            &&& end.reply == clip(
                response_read(n1, p1) + response_read(n2, p2) + response_read(n3, p3)
                    + response_read(n4, p4),
                768,
            )
        }),
{
    let s1 = after_read(SessionState::start(collect_script()), start, stale);
    collect_drains_first(start, stale);
    let r1 = response_read(n1, p1);
    let r2 = response_read(n2, p2);
    let r3 = response_read(n3, p3);
    let r4 = response_read(n4, p4);
    let s2 = after_query(s1, n1, p1);
    query_adds_response(s1, n1, p1);
    let s3 = after_query(s2, n2, p2);
    query_adds_response(s2, n2, p2);
    let s4 = after_query(s3, n3, p3);
    query_adds_response(s3, n3, p3);
    query_adds_response(s4, n4, p4);
    clip_in_four_pieces(r1, r2, r3, r4, REPLY_ROOM as nat);
}

/// Four pieces are kept as if they came as one.
proof fn clip_in_four_pieces(a: Seq<u8>, b: Seq<u8>, c: Seq<u8>, d: Seq<u8>, room: nat)
    ensures
        clip(clip(clip(clip(Seq::empty() + a, room) + b, room) + c, room) + d, room) == clip(
            a + b + c + d,
            room,
        ),
{
    assert(Seq::<u8>::empty() + a =~= a);
    clip_in_pieces(a, b, room);
    clip_in_pieces(a + b, c, room);
    clip_in_pieces(a + b + c, d, room);
}

/// The collection starts with a drain, which adds nothing to the reply.
proof fn collect_drains_first(start: u64, stale: Seq<Poll>)
    requires
        receiver_after(collect_script()[0], start, stale).stopped(),
    ensures
        after_read(SessionState::start(collect_script()), start, stale) == (SessionState {
            at: 1,
            ..SessionState::start(collect_script())
        }),
{
    later_polls_change_nothing(SessionState::start(collect_script()), start, stale);
}

/// A query is two steps, and its response joins the reply.
proof fn query_adds_response(s: SessionState, now: u64, polls: Seq<Poll>)
    requires
        s.script == collect_script(),
        s.rx is None,
        s.at == 1 || s.at == 3 || s.at == 5 || s.at == 7,
        receiver_after(response(), now, polls).stopped(),
    ensures
        after_query(s, now, polls) == (SessionState {
            at: s.at + 2,
            reply: clip(s.reply + response_read(now, polls), REPLY_ROOM as nat),
            ..s
        }),
{
    reveal(after_query);
    later_polls_change_nothing(s.step(Event::Written), now, polls);
}

} // verus!
