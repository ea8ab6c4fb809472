//! What a receiver hands over, told from the polls alone.

use vstd::prelude::*;

use crate::rx::{Aim, Event, Phase, RxState, CR, LF};
use crate::text::{clip, occurs, occurs_at};

verus! {

/// One poll of the receiver: the clock, the two flags of the status register, and the byte that is
/// in the data register.
pub struct Poll {
    pub now: u64,
    pub rxne: bool,
    pub ore: bool,
    pub byte: u8,
}

/// After one poll. A register that is not asked for is not read: an event that the receiver is not
/// waiting for changes nothing.
pub open spec fn after_poll(s: RxState, poll: Poll) -> RxState {
    s.step(Event::Clock { now: poll.now }).step(
        Event::Status { rxne: poll.rxne, ore: poll.ore },
    ).step(Event::Data { byte: poll.byte })
}

/// After all `polls`, in order.
pub open spec fn after_polls(s: RxState, polls: Seq<Poll>) -> RxState
    decreases polls.len(),
{
    if polls.len() == 0 {
        s
    } else {
        after_poll(after_polls(s, polls.drop_last()), polls.last())
    }
}

/// No poll found the deadline reached.
pub open spec fn all_in_time(polls: Seq<Poll>, deadline: int) -> bool {
    forall|i: int| 0 <= i < polls.len() ==> (#[trigger] polls[i]).now < deadline
}

/// What comes in with the polls before the first late one: bytes, and `None` for each byte that an
/// overrun spoilt.
pub open spec fn heard(polls: Seq<Poll>, heeds_overrun: bool, deadline: int) -> Seq<Option<u8>>
    decreases polls.len(),
{
    if polls.len() == 0 {
        Seq::empty()
    } else {
        let before = heard(polls.drop_last(), heeds_overrun, deadline);
        let poll = polls.last();
        if !all_in_time(polls, deadline) {
            before
        } else if heeds_overrun && poll.ore {
            before.push(None)
        } else if poll.rxne {
            before.push(Some(poll.byte))
        } else {
            before
        }
    }
}

/// The bytes among what came in, without the spoilt ones.
pub open spec fn sound(heard: Seq<Option<u8>>) -> Seq<u8>
    decreases heard.len(),
{
    if heard.len() == 0 {
        Seq::empty()
    } else {
        match heard.last() {
            Some(byte) => sound(heard.drop_last()).push(byte),
            None => sound(heard.drop_last()),
        }
    }
}

/// What one more poll brings: nothing once a poll was late; a spoilt byte with the overrun flag,
/// where that counts; a byte when one is there; and otherwise nothing.
pub proof fn one_more_poll(polls: Seq<Poll>, poll: Poll, heeds_overrun: bool, deadline: int)
    ensures
        ({
            let before = heard(polls, heeds_overrun, deadline);
            let after = heard(polls.push(poll), heeds_overrun, deadline);
            let late = poll.now >= deadline || exists|i: int|
                0 <= i < polls.len() && (#[trigger] polls[i]).now >= deadline;
            &&& late ==> after == before && sound(after) == sound(before)
            &&& !late && heeds_overrun && poll.ore ==> after == before.push(None) && sound(after)
                == sound(before)
            &&& !late && !(heeds_overrun && poll.ore) && poll.rxne ==> after == before.push(
                Some(poll.byte),
            ) && sound(after) == sound(before).push(poll.byte)
            &&& !late && !(heeds_overrun && poll.ore) && !poll.rxne ==> after == before
        }),
{
    let all = polls.push(poll);
    assert(all.drop_last() =~= polls);
    in_time_last(all, deadline);
    let before = heard(polls, heeds_overrun, deadline);
    sound_push(before, None);
    sound_push(before, Some(poll.byte));
}

/// These polls bring `bytes`: one with each poll that finds a byte, none of them spoilt, and all
/// before `deadline`.
pub open spec fn brings(polls: Seq<Poll>, bytes: Seq<u8>, deadline: int) -> bool {
    &&& polls.filter(|poll: Poll| poll.rxne).map_values(|poll: Poll| poll.byte) == bytes
    &&& forall|i: int|
        0 <= i < polls.len() ==> !(#[trigger] polls[i]).ore && polls[i].now < deadline
}

/// What polls bring is heard as it is.
pub proof fn brings_is_heard(polls: Seq<Poll>, bytes: Seq<u8>, heeds_overrun: bool, deadline: int)
    requires
        brings(polls, bytes, deadline),
    ensures
        all_in_time(polls, deadline),
        sound(heard(polls, heeds_overrun, deadline)) == bytes,
        heard(polls, heeds_overrun, deadline) == Seq::new(
            bytes.len(),
            |i: int| Some(bytes[i]),
        ),
    decreases polls.len(),
{
    reveal(Seq::filter);
    let found = |poll: Poll| poll.rxne;
    let byte_of = |poll: Poll| poll.byte;
    if polls.len() == 0 {
        assert(bytes =~= Seq::empty());
        assert(heard(polls, heeds_overrun, deadline) =~= Seq::new(
            bytes.len(),
            |i: int| Some(bytes[i]),
        ));
    } else {
        let earlier = polls.drop_last();
        let poll = polls.last();
        assert(poll == polls[polls.len() - 1]);
        assert forall|i: int| 0 <= i < earlier.len() implies !(#[trigger] earlier[i]).ore
            && earlier[i].now < deadline by {
            assert(earlier[i] == polls[i]);
        }
        let fewer = earlier.filter(found).map_values(byte_of);
        brings_is_heard(earlier, fewer, heeds_overrun, deadline);
        one_more_poll(earlier, poll, heeds_overrun, deadline);
        assert(earlier.push(poll) =~= polls);
        if poll.rxne {
            assert(polls.filter(found) =~= earlier.filter(found).push(poll));
            assert(bytes =~= fewer.push(poll.byte));
        } else {
            assert(polls.filter(found) =~= earlier.filter(found));
            assert(bytes =~= fewer);
        }
        assert(heard(polls, heeds_overrun, deadline) =~= Seq::new(
            bytes.len(),
            |i: int| Some(bytes[i]),
        ));
    }
}

proof fn sound_push(heard: Seq<Option<u8>>, x: Option<u8>)
    ensures
        sound(heard.push(x)) == match x {
            Some(byte) => sound(heard).push(byte),
            None => sound(heard),
        },
{
    assert(heard.push(x).drop_last() =~= heard);
}

proof fn in_time_last(polls: Seq<Poll>, deadline: int)
    requires
        polls.len() > 0,
    ensures
        all_in_time(polls, deadline) <==> all_in_time(polls.drop_last(), deadline)
            && polls.last().now < deadline,
{
    let before = polls.drop_last();
    if all_in_time(before, deadline) && polls.last().now < deadline {
        assert forall|i: int| 0 <= i < polls.len() implies (#[trigger] polls[i]).now < deadline by {
            if i < polls.len() - 1 {
                assert(before[i].now < deadline);
            }
        }
    }
    if all_in_time(polls, deadline) {
        assert forall|i: int| 0 <= i < before.len() implies (#[trigger] before[i]).now
            < deadline by {
            assert(polls[i].now < deadline);
        }
    }
}

/// No read hangs: whatever it looks for, it stops at the latest with the first poll that finds its
/// deadline reached.
pub proof fn a_late_poll_ends_the_read(
    aim: Aim,
    heeds_overrun: bool,
    room: nat,
    now: u64,
    millis: u64,
    polls: Seq<Poll>,
)
    ensures
        ({
            let start = RxState::start(aim, heeds_overrun, room, now, millis);
            !all_in_time(polls, now + 1000 * millis) ==> after_polls(start, polls).stopped()
        }),
{
    ends_when_late(RxState::start(aim, heeds_overrun, room, now, millis), polls);
}

/// A read that has just started gives up at a reading of the clock exactly when as many thousand
/// ticks have passed as it may last milliseconds; otherwise it looks at the status register. It
/// takes the byte from the data register when one is there, and, where the overrun flag counts,
/// also when that flag is set.
pub proof fn polls_clock_status_and_data(
    aim: Aim,
    heeds_overrun: bool,
    room: nat,
    now: u64,
    millis: u64,
    t: u64,
    rxne: bool,
    ore: bool,
)
    requires
        aim is Marker ==> room > 0,
    ensures
        ({
            let start = RxState::start(aim, heeds_overrun, room, now, millis);
            let s = start.step(Event::Clock { now: t });
            &&& start.action() is ReadClock
            &&& t >= now + 1000 * millis ==> s.action() is Done && s.stopped()
            &&& t < now + 1000 * millis ==> {
                &&& s.action() is ReadStatus
                &&& s.step(Event::Status { rxne, ore }).action() is ReadData <==> rxne || (
                heeds_overrun && ore)
                &&& s.step(Event::Status { rxne, ore }).action() is ReadClock <==> !(rxne || (
                heeds_overrun && ore))
            }
        }),
{
}

/// An event that a receiver did not ask for changes nothing.
pub proof fn unasked_events_change_nothing(s: RxState, event: Event)
    requires
        match event {
            Event::Clock { .. } => !(s.action() is ReadClock),
            Event::Status { .. } => !(s.action() is ReadStatus),
            Event::Data { .. } => !(s.action() is ReadData),
            Event::Written => true,
        },
    ensures
        s.step(event) == s,
{
}

/// A read that has stopped stays as it is.
pub proof fn stopped_is_final(s: RxState, poll: Poll)
    requires
        s.stopped(),
    ensures
        after_poll(s, poll) == s,
{
}

/// Until it stops, a read that starts to poll is between two polls after each of them, and it has
/// stopped once a poll found its deadline reached.
pub proof fn ends_when_late(start: RxState, polls: Seq<Poll>)
    requires
        start.phase is Clock || start.phase is Stopped,
    ensures
        after_polls(start, polls).deadline == start.deadline,
        after_polls(start, polls).phase is Clock || after_polls(start, polls).phase is Stopped,
        !all_in_time(polls, start.deadline) ==> after_polls(start, polls).stopped(),
    decreases polls.len(),
{
    if polls.len() > 0 {
        ends_when_late(start, polls.drop_last());
        in_time_last(polls, start.deadline);
    }
}

/// A drain keeps nothing, and lasts until a poll finds its deadline reached.
pub proof fn drain_reads_to_the_deadline(
    heeds_overrun: bool,
    room: nat,
    now: u64,
    millis: u64,
    polls: Seq<Poll>,
)
    ensures
        ({
            let start = RxState::start(Aim::Drain, heeds_overrun, room, now, millis);
            let end = after_polls(start, polls);
            &&& end.result() == Seq::<u8>::empty()
            &&& end.stopped() <==> !all_in_time(polls, now + 1000 * millis)
        }),
{
    let start = RxState::start(Aim::Drain, heeds_overrun, room, now, millis);
    drain_invariant(start, polls);
}

proof fn drain_invariant(start: RxState, polls: Seq<Poll>)
    requires
        start.aim is Drain,
        start.phase is Clock,
        start.kept.len() == 0,
    ensures
        after_polls(start, polls) == (RxState {
            phase: if all_in_time(polls, start.deadline) {
                Phase::Clock
            } else {
                Phase::Stopped { complete: false }
            },
            ..start
        }),
    decreases polls.len(),
{
    if polls.len() > 0 {
        drain_invariant(start, polls.drop_last());
        in_time_last(polls, start.deadline);
    }
}

/// What a read up to a marker has kept is the shortest start of the bytes that came in which ends
/// with the marker or fills the room; it is all of them while there is no such start.
pub open spec fn read_up_to(bytes: Seq<u8>, marker: Seq<u8>, room: nat, kept: Seq<u8>) -> bool {
    &&& kept.is_prefix_of(bytes)
    &&& kept.len() <= room
    &&& forall|k: int| 0 < k < kept.len() ==> !marker.is_suffix_of(#[trigger] bytes.take(k))
    &&& kept.len() < bytes.len() ==> kept.len() == room || (kept.len() > 0 && marker.is_suffix_of(
        kept,
    ))
}

/// Only one sequence is the outcome of a read up to a marker.
pub proof fn read_up_to_is_unique(
    bytes: Seq<u8>,
    marker: Seq<u8>,
    room: nat,
    a: Seq<u8>,
    b: Seq<u8>,
)
    requires
        read_up_to(bytes, marker, room, a),
        read_up_to(bytes, marker, room, b),
    ensures
        a == b,
{
    if a.len() < b.len() {
        assert(a =~= bytes.take(a.len() as int));
    } else if b.len() < a.len() {
        assert(b =~= bytes.take(b.len() as int));
    }
    assert(a =~= b);
}

/// A read up to a marker keeps the bytes that arrive in time, spoilt ones left out, up to and with
/// the marker, as far as the room goes. It is complete when they end with the marker, and it stops
/// then, when the room is full, or when a poll finds the deadline reached.
pub proof fn marker_read(
    marker: Seq<u8>,
    heeds_overrun: bool,
    room: nat,
    now: u64,
    millis: u64,
    polls: Seq<Poll>,
)
    ensures
        ({
            let start = RxState::start(Aim::Marker { marker }, heeds_overrun, room, now, millis);
            let end = after_polls(start, polls);
            let deadline: int = now + 1000 * millis;
            let bytes = sound(heard(polls, heeds_overrun, deadline));
            let complete = end.kept.len() > 0 && marker.is_suffix_of(end.kept);
            &&& end.result() == end.kept
            &&& read_up_to(bytes, marker, room, end.kept)
            &&& end.phase == (Phase::Stopped { complete: true }) <==> complete
            &&& end.stopped() <==> complete || end.kept.len() == room || !all_in_time(
                polls,
                deadline,
            )
        }),
{
    let start = RxState::start(Aim::Marker { marker }, heeds_overrun, room, now, millis);
    marker_invariant(start, marker, polls);
}

proof fn marker_invariant(start: RxState, marker: Seq<u8>, polls: Seq<Poll>)
    requires
        start.aim == (Aim::Marker { marker }),
        start.kept.len() == 0,
        start.phase == if start.room == 0 {
            Phase::Stopped { complete: false }
        } else {
            Phase::Clock
        },
    ensures
        ({
            let end = after_polls(start, polls);
            let bytes = sound(heard(polls, start.heeds_overrun, start.deadline));
            let complete = end.kept.len() > 0 && marker.is_suffix_of(end.kept);
            &&& end == (RxState { kept: end.kept, phase: end.phase, ..start })
            &&& read_up_to(bytes, marker, start.room, end.kept)
            &&& end.phase is Clock || end.phase is Stopped
            &&& end.phase == (Phase::Stopped { complete: true }) <==> complete
            &&& end.stopped() <==> complete || end.kept.len() == start.room || !all_in_time(
                polls,
                start.deadline,
            )
        }),
    decreases polls.len(),
{
    if polls.len() > 0 {
        let earlier = polls.drop_last();
        let poll = polls.last();
        marker_invariant(start, marker, earlier);
        in_time_last(polls, start.deadline);
        let mid = after_polls(start, earlier);
        let end = after_polls(start, polls);
        let h0 = heard(earlier, start.heeds_overrun, start.deadline);
        let b0 = sound(h0);
        let b1 = sound(heard(polls, start.heeds_overrun, start.deadline));
        sound_push(h0, None);
        sound_push(h0, Some(poll.byte));
        if b1 != b0 {
            assert(b1 == b0.push(poll.byte));
            assert forall|k: int| 0 < k < end.kept.len() implies !marker.is_suffix_of(
                #[trigger] b1.take(k),
            ) by {
                assert(b1.take(k) =~= b0.take(k));
                if k == mid.kept.len() {
                    assert(b0.take(k) =~= mid.kept);
                }
            }
            if !mid.stopped() {
                assert(mid.kept =~= b0);
                assert(end.kept == mid.kept.push(poll.byte));
            }
            assert(end.kept.is_prefix_of(b1));
        }
    }
}

/// The read reached the marker or filled the room exactly when the marker stands in the bytes that
/// came or they are as many as the room holds.
proof fn read_up_to_ends(bytes: Seq<u8>, marker: Seq<u8>, room: nat, kept: Seq<u8>)
    requires
        marker.len() > 0,
        read_up_to(bytes, marker, room, kept),
    ensures
        kept.len() > 0 && marker.is_suffix_of(kept) || kept.len() == room <==> occurs(bytes, marker)
            || bytes.len() >= room,
{
    if marker.is_suffix_of(kept) {
        let i = kept.len() - marker.len();
        assert(bytes.subrange(i, i + marker.len()) =~= kept.subrange(i, i + marker.len()));
        assert(occurs_at(bytes, marker, i));
    } else if kept.len() != room && occurs(bytes, marker) {
        assert(kept =~= bytes);
        let i = choose|i: int| occurs_at(bytes, marker, i);
        let start = bytes.take(i + marker.len());
        assert(start.subrange(i, i + marker.len()) =~= bytes.subrange(i, i + marker.len()));
        assert(marker.is_suffix_of(start));
        if start.len() == kept.len() {
            assert(start =~= kept);
        }
    }
}

/// A read up to a marker stops when the marker came in time, when as many bytes came in time as
/// there is room for, or when a poll finds its deadline reached, and at no other time. Spoilt bytes
/// do not count.
pub proof fn marker_read_ends(
    marker: Seq<u8>,
    heeds_overrun: bool,
    room: nat,
    now: u64,
    millis: u64,
    polls: Seq<Poll>,
)
    requires
        marker.len() > 0,
    ensures
        ({
            let start = RxState::start(Aim::Marker { marker }, heeds_overrun, room, now, millis);
            let deadline: int = now + 1000 * millis;
            let bytes = sound(heard(polls, heeds_overrun, deadline));
            after_polls(start, polls).stopped() <==> occurs(bytes, marker) || bytes.len() >= room
                || !all_in_time(polls, deadline)
        }),
{
    let start = RxState::start(Aim::Marker { marker }, heeds_overrun, room, now, millis);
    let bytes = sound(heard(polls, heeds_overrun, start.deadline));
    marker_read(marker, heeds_overrun, room, now, millis, polls);
    read_up_to_ends(bytes, marker, room, after_polls(start, polls).kept);
}

/// A text that ends with the marker, and in which the marker stands nowhere else, is read whole
/// when it comes in time and there is room for it; and the read is over with its last byte.
pub proof fn marker_read_whole(
    marker: Seq<u8>,
    heeds_overrun: bool,
    room: nat,
    now: u64,
    millis: u64,
    polls: Seq<Poll>,
    message: Seq<u8>,
)
    requires
        brings(polls, message, now + 1000 * millis),
        0 < marker.len() <= message.len() <= room,
        occurs_at(message, marker, message.len() - marker.len()),
        forall|j: int|
            0 <= j < message.len() - marker.len() ==> !#[trigger] occurs_at(message, marker, j),
    ensures
        ({
            let start = RxState::start(Aim::Marker { marker }, heeds_overrun, room, now, millis);
            after_polls(start, polls).stopped() && after_polls(start, polls).result() == message
        }),
{
    brings_is_heard(polls, message, heeds_overrun, now + 1000 * millis);
    marker_read(marker, heeds_overrun, room, now, millis, polls);
    marker_read_ends(marker, heeds_overrun, room, now, millis, polls);
    let start = RxState::start(Aim::Marker { marker }, heeds_overrun, room, now, millis);
    let kept = after_polls(start, polls).kept;
    if kept.len() < message.len() {
        let at = kept.len() - marker.len();
        assert(message.subrange(at, at + marker.len()) =~= kept.subrange(at, at + marker.len()));
        assert(occurs_at(message, marker, at));
    }
    assert(kept =~= message);
}

/// Bytes among which the marker is not, and that leave room, do not end a read before its deadline.
pub proof fn marker_read_goes_on(
    marker: Seq<u8>,
    heeds_overrun: bool,
    room: nat,
    now: u64,
    millis: u64,
    polls: Seq<Poll>,
    bytes: Seq<u8>,
)
    requires
        brings(polls, bytes, now + 1000 * millis),
        marker.len() > 0,
        bytes.len() < room,
        forall|j: int| !#[trigger] occurs_at(bytes, marker, j),
    ensures
        !after_polls(
            RxState::start(Aim::Marker { marker }, heeds_overrun, room, now, millis),
            polls,
        ).stopped(),
{
    brings_is_heard(polls, bytes, heeds_overrun, now + 1000 * millis);
    marker_read_ends(marker, heeds_overrun, room, now, millis, polls);
}

/// One more byte brings the marker, or it was there before.
proof fn occurs_in_longer(bytes: Seq<u8>, byte: u8, marker: Seq<u8>)
    ensures
        occurs(bytes.push(byte), marker) <==> occurs(bytes, marker) || marker.is_suffix_of(
            bytes.push(byte),
        ),
{
    let longer = bytes.push(byte);
    let end = longer.len() - marker.len();
    if occurs(longer, marker) {
        let i = choose|i: int| occurs_at(longer, marker, i);
        if i < end {
            assert(longer.subrange(i, i + marker.len()) =~= bytes.subrange(i, i + marker.len()));
            assert(occurs_at(bytes, marker, i));
        }
    }
    if occurs(bytes, marker) {
        let i = choose|i: int| occurs_at(bytes, marker, i);
        assert(longer.subrange(i, i + marker.len()) =~= bytes.subrange(i, i + marker.len()));
        assert(occurs_at(longer, marker, i));
    }
    if marker.is_suffix_of(longer) {
        assert(longer.subrange(end, end + marker.len()) =~= marker);
        assert(occurs_at(longer, marker, end));
    }
}

/// The receiver of a wait for `marker`.
pub open spec fn waiting(marker: Seq<u8>, now: u64, millis: u64) -> RxState {
    RxState::start(Aim::Wait { marker }, true, marker.len(), now, millis)
}

/// A wait ends when its marker came among the bytes that arrive in time, spoilt ones left out, or
/// when a poll finds its deadline reached, and at no other time: it does not matter how many other
/// bytes come. It hands nothing over.
pub proof fn wait_ends(marker: Seq<u8>, now: u64, millis: u64, polls: Seq<Poll>)
    requires
        marker.len() > 0,
    ensures
        ({
            let start = waiting(marker, now, millis);
            let end = after_polls(start, polls);
            let deadline: int = now + 1000 * millis;
            let came = occurs(sound(heard(polls, true, deadline)), marker);
            &&& end.result() == Seq::<u8>::empty()
            &&& end.phase == (Phase::Stopped { complete: true }) <==> came
            &&& end.stopped() <==> came || !all_in_time(polls, deadline)
        }),
{
    wait_invariant(marker, now, millis, polls);
}

/// The last bytes that came, as many as the marker has.
spec fn latest(bytes: Seq<u8>, n: nat) -> Seq<u8> {
    if bytes.len() <= n {
        bytes
    } else {
        bytes.skip(bytes.len() - n)
    }
}

proof fn wait_invariant(marker: Seq<u8>, now: u64, millis: u64, polls: Seq<Poll>)
    requires
        marker.len() > 0,
    ensures
        ({
            let start = waiting(marker, now, millis);
            let end = after_polls(start, polls);
            let bytes = sound(heard(polls, true, start.deadline));
            let complete = end.phase == (Phase::Stopped { complete: true });
            &&& end == (RxState { kept: end.kept, phase: end.phase, ..start })
            &&& end.phase is Clock || end.phase is Stopped
            &&& complete <==> occurs(bytes, marker)
            &&& !complete ==> end.kept == latest(bytes, marker.len())
            &&& end.stopped() <==> complete || !all_in_time(polls, start.deadline)
        }),
    decreases polls.len(),
{
    let start = waiting(marker, now, millis);
    if polls.len() == 0 {
        assert(!occurs(Seq::<u8>::empty(), marker));
    } else {
        let earlier = polls.drop_last();
        let poll = polls.last();
        wait_invariant(marker, now, millis, earlier);
        in_time_last(polls, start.deadline);
        let mid = after_polls(start, earlier);
        let h0 = heard(earlier, true, start.deadline);
        let b0 = sound(h0);
        sound_push(h0, None);
        sound_push(h0, Some(poll.byte));
        occurs_in_longer(b0, poll.byte, marker);
        if !mid.stopped() {
            let b1 = b0.push(poll.byte);
            let kept = mid.slid(poll.byte);
            assert(kept =~= latest(b1, marker.len()));
            assert(marker.is_suffix_of(kept) <==> marker.is_suffix_of(b1)) by {
                if marker.len() <= b1.len() {
                    assert(kept.subrange(
                        kept.len() - marker.len(),
                        kept.len() as int,
                    ) =~= b1.subrange(b1.len() - marker.len(), b1.len() as int));
                }
            }
        }
    }
}

/// A carriage return, a line feed, or a spoilt byte: what a line cannot hold.
pub open spec fn breaks_line(x: Option<u8>) -> bool {
    match x {
        Some(byte) => byte == CR || byte == LF,
        None => true,
    }
}

/// From `i` up to `j` stands a whole line: not empty, nothing in it breaks it, it starts where the
/// input starts or behind a break, and it ends with a carriage return or a line feed.
pub open spec fn line_at(h: Seq<Option<u8>>, i: int, j: int) -> bool {
    &&& 0 <= i < j < h.len()
    &&& i == 0 || breaks_line(h[i - 1])
    &&& forall|k: int| i <= k < j ==> !breaks_line(#[trigger] h[k])
    &&& h[j] is Some
    &&& breaks_line(h[j])
}

/// The line from `i` up to `j`, as far as the room goes.
pub open spec fn line_text(h: Seq<Option<u8>>, i: int, j: int, room: nat) -> Seq<u8> {
    clip(Seq::new((j - i) as nat, |k: int| h[i + k]->0), room)
}

/// From `i` up to `j` stands a whole line that starts with `prefix`.
pub open spec fn wanted_line(
    h: Seq<Option<u8>>,
    prefix: Seq<u8>,
    room: nat,
    i: int,
    j: int,
) -> bool {
    line_at(h, i, j) && prefix.is_prefix_of(line_text(h, i, j, room))
}

/// `line` is the first whole line of `h` that starts with `prefix`.
pub open spec fn first_wanted_line(
    h: Seq<Option<u8>>,
    prefix: Seq<u8>,
    room: nat,
    line: Seq<u8>,
) -> bool {
    exists|i: int, j: int|
        {
            &&& #[trigger] wanted_line(h, prefix, room, i, j)
            &&& line == line_text(h, i, j, room)
            &&& forall|i2: int, j2: int| #[trigger]
                wanted_line(h, prefix, room, i2, j2) ==> j <= j2
        }
}

/// Some whole line of `h` starts with `prefix`.
pub open spec fn has_wanted_line(h: Seq<Option<u8>>, prefix: Seq<u8>, room: nat) -> bool {
    exists|i: int, j: int| #[trigger] wanted_line(h, prefix, room, i, j)
}

/// Where the line that is being received starts.
spec fn open_line(h: Seq<Option<u8>>) -> int
    decreases h.len(),
{
    if h.len() == 0 {
        0
    } else if breaks_line(h.last()) {
        h.len() as int
    } else {
        open_line(h.drop_last())
    }
}

proof fn open_line_is_unbroken(h: Seq<Option<u8>>)
    ensures
        0 <= open_line(h) <= h.len(),
        open_line(h) == 0 || breaks_line(h[open_line(h) - 1]),
        forall|k: int| open_line(h) <= k < h.len() ==> !breaks_line(#[trigger] h[k]),
    decreases h.len(),
{
    if h.len() > 0 && !breaks_line(h.last()) {
        let before = h.drop_last();
        open_line_is_unbroken(before);
        assert forall|k: int| open_line(h) <= k < h.len() implies !breaks_line(#[trigger] h[k]) by {
            if k < h.len() - 1 {
                assert(h[k] == before[k]);
            }
        }
    }
}

/// A line of the longer input that ends before its last element is a line of the shorter one.
proof fn lines_before(h: Seq<Option<u8>>, x: Option<u8>, prefix: Seq<u8>, room: nat, i: int, j: int)
    requires
        j < h.len(),
    ensures
        wanted_line(h.push(x), prefix, room, i, j) == wanted_line(h, prefix, room, i, j),
        0 <= i <= j ==> line_text(h.push(x), i, j, room) == line_text(h, i, j, room),
{
    let g = h.push(x);
    if 0 <= i <= j {
        assert(line_text(g, i, j, room) =~= line_text(h, i, j, room));
    }
    if line_at(h, i, j) {
        assert forall|k: int| i <= k < j implies !breaks_line(#[trigger] g[k]) by {
            assert(g[k] == h[k]);
        }
        assert(line_at(g, i, j));
    }
    if line_at(g, i, j) {
        assert forall|k: int| i <= k < j implies !breaks_line(#[trigger] h[k]) by {
            assert(g[k] == h[k]);
        }
        assert(line_at(h, i, j));
    }
}

/// A line that ends with the last element starts where the open line before it starts.
proof fn line_at_end(h: Seq<Option<u8>>, x: Option<u8>, i: int)
    ensures
        line_at(h.push(x), i, h.len() as int) <==> {
            &&& i == open_line(h)
            &&& i < h.len()
            &&& x is Some
            &&& breaks_line(x)
        },
{
    let g = h.push(x);
    open_line_is_unbroken(h);
    let o = open_line(h);
    if line_at(g, i, h.len() as int) {
        if i < o {
            assert(!breaks_line(g[o - 1]));
            assert(g[o - 1] == h[o - 1]);
        } else if o < i {
            assert(breaks_line(g[i - 1]));
            assert(g[i - 1] == h[i - 1]);
        }
    }
    if i == o && i < h.len() && x is Some && breaks_line(x) {
        assert forall|k: int| i <= k < h.len() implies !breaks_line(#[trigger] g[k]) by {
            assert(g[k] == h[k]);
        }
        if i > 0 {
            assert(g[i - 1] == h[i - 1]);
        }
    }
}

/// A read of a line hands over the first whole line that arrives in time and starts with the
/// prefix, and nothing while there is none. It stops with that line, or when a poll finds the
/// deadline reached.
pub proof fn line_read(
    prefix: Seq<u8>,
    heeds_overrun: bool,
    room: nat,
    now: u64,
    millis: u64,
    polls: Seq<Poll>,
)
    requires
        room > 0 || prefix.len() > 0,
    ensures
        ({
            let start = RxState::start(Aim::Line { prefix }, heeds_overrun, room, now, millis);
            let end = after_polls(start, polls);
            let deadline: int = now + 1000 * millis;
            let h = heard(polls, heeds_overrun, deadline);
            let complete = end.phase == (Phase::Stopped { complete: true });
            &&& complete <==> has_wanted_line(h, prefix, room)
            &&& complete ==> first_wanted_line(h, prefix, room, end.result())
            &&& !complete ==> end.result() == Seq::<u8>::empty()
            &&& end.stopped() <==> complete || !all_in_time(polls, deadline)
        }),
{
    let start = RxState::start(Aim::Line { prefix }, heeds_overrun, room, now, millis);
    line_invariant(start, prefix, polls);
}

/// A line that starts with the prefix is what a line read hands over, when it comes in time and
/// there is room for it: as it is, without the carriage return or line feed that ends it. What came
/// before it does not matter, as long as it ended with one too and the prefix is nowhere in it.
#[verifier::rlimit(30)]
pub proof fn line_read_whole(
    prefix: Seq<u8>,
    heeds_overrun: bool,
    room: nat,
    now: u64,
    millis: u64,
    polls: Seq<Poll>,
    noise: Seq<u8>,
    line: Seq<u8>,
    end: u8,
)
    requires
        brings(polls, noise + line + seq![end], now + 1000 * millis),
        noise.len() > 0 ==> noise.last() == 13 || noise.last() == 10,
        forall|j: int| !#[trigger] occurs_at(noise, prefix, j),
        0 < line.len() <= room,
        prefix.is_prefix_of(line),
        prefix.len() > 0,
        forall|k: int| 0 <= k < line.len() ==> #[trigger] line[k] != 13 && line[k] != 10,
        end == 13 || end == 10,
    ensures
        ({
            let start = RxState::start(Aim::Line { prefix }, heeds_overrun, room, now, millis);
            after_polls(start, polls).stopped() && after_polls(start, polls).result() == line
        }),
{
    let bytes = noise + line + seq![end];
    let deadline: int = now + 1000 * millis;
    brings_is_heard(polls, bytes, heeds_overrun, deadline);
    line_read(prefix, heeds_overrun, room, now, millis, polls);
    let h = heard(polls, heeds_overrun, deadline);
    let from = noise.len() as int;
    let to = from + line.len();
    assert forall|k: int| from <= k < to implies !breaks_line(#[trigger] h[k]) by {
        assert(h[k] == Some(line[k - from]));
    }
    assert(h[to] == Some(end));
    if from > 0 {
        assert(h[from - 1] == Some(noise.last()));
    }
    assert(line_text(h, from, to, room) =~= line);
    assert(wanted_line(h, prefix, room, from, to));
    let start = RxState::start(Aim::Line { prefix }, heeds_overrun, room, now, millis);
    let result = after_polls(start, polls).result();
    let (i, j) = choose|i: int, j: int|
        {
            &&& #[trigger] wanted_line(h, prefix, room, i, j)
            &&& result == line_text(h, i, j, room)
            &&& forall|i2: int, j2: int| #[trigger]
                wanted_line(h, prefix, room, i2, j2) ==> j <= j2
        };
    if j < from {
        let found = line_text(h, i, j, room);
        assert(found.subrange(0, prefix.len() as int) =~= prefix);
        assert forall|k: int| 0 <= k < prefix.len() implies noise.subrange(
            i,
            i + prefix.len(),
        )[k] == prefix[k] by {
            assert(found[k] == prefix[k]);
            assert(h[i + k] == Some(noise[i + k]));
        }
        assert(noise.subrange(i, i + prefix.len()) =~= prefix);
        assert(occurs_at(noise, prefix, i));
    }
    assert(j == to) by {
        if from <= j < to {
            assert(!breaks_line(h[j]));
        }
    }
    if i < from {
        assert(breaks_line(h[from - 1]));
    } else if i > from {
        assert(!breaks_line(h[i - 1]));
    }
}

/// The state of a line read against what it heard.
spec fn line_inv(start: RxState, prefix: Seq<u8>, polls: Seq<Poll>) -> bool {
    let end = after_polls(start, polls);
    let h = heard(polls, start.heeds_overrun, start.deadline);
    let complete = end.phase == (Phase::Stopped { complete: true });
    &&& end == (RxState { kept: end.kept, phase: end.phase, ..start })
    &&& end.phase is Clock || end.phase is Stopped
    &&& complete <==> has_wanted_line(h, prefix, start.room)
    &&& complete ==> first_wanted_line(h, prefix, start.room, end.kept)
    &&& !complete ==> end.kept == line_text(h, open_line(h), h.len() as int, start.room)
    &&& end.stopped() <==> complete || !all_in_time(polls, start.deadline)
}

proof fn line_invariant(start: RxState, prefix: Seq<u8>, polls: Seq<Poll>)
    requires
        start.room > 0 || prefix.len() > 0,
        start.aim == (Aim::Line { prefix }),
        start.kept.len() == 0,
        start.phase is Clock,
    ensures
        line_inv(start, prefix, polls),
    decreases polls.len(),
{
    let room = start.room;
    let h = heard(polls, start.heeds_overrun, start.deadline);
    if polls.len() == 0 {
        assert(start.kept =~= line_text(h, 0, 0, room));
    } else {
        let earlier = polls.drop_last();
        let poll = polls.last();
        line_invariant(start, prefix, earlier);
        in_time_last(polls, start.deadline);
        let mid = after_polls(start, earlier);
        let end = after_polls(start, polls);
        let h0 = heard(earlier, start.heeds_overrun, start.deadline);
        if h != h0 {
            let x: Option<u8> = if start.heeds_overrun && poll.ore {
                None
            } else {
                Some(poll.byte)
            };
            assert(h == h0.push(x));
            line_step(start, prefix, mid, end, h0, x);
        }
    }
}

/// One more element heard.
proof fn line_step(
    start: RxState,
    prefix: Seq<u8>,
    mid: RxState,
    end: RxState,
    h0: Seq<Option<u8>>,
    x: Option<u8>,
)
    requires
        start.room > 0 || prefix.len() > 0,
        start.aim == (Aim::Line { prefix }),
        mid == (RxState { kept: mid.kept, phase: mid.phase, ..start }),
        mid.phase is Clock || mid.phase == (Phase::Stopped { complete: true }),
        mid.phase is Stopped <==> has_wanted_line(h0, prefix, start.room),
        mid.phase is Stopped ==> first_wanted_line(h0, prefix, start.room, mid.kept),
        mid.phase is Clock ==> mid.kept == line_text(
            h0,
            open_line(h0),
            h0.len() as int,
            start.room,
        ),
        end == if mid.phase is Stopped {
            mid
        } else {
            match x {
                Some(byte) => mid.take(byte),
                None => mid.lose(),
            }
        },
    ensures
        ({
            let h = h0.push(x);
            let complete = end.phase == (Phase::Stopped { complete: true });
            &&& end == (RxState { kept: end.kept, phase: end.phase, ..start })
            &&& end.phase is Clock || complete
            &&& complete <==> has_wanted_line(h, prefix, start.room)
            &&& complete ==> first_wanted_line(h, prefix, start.room, end.kept)
            &&& !complete ==> end.kept == line_text(h, open_line(h), h.len() as int, start.room)
        }),
{
    let room = start.room;
    let h = h0.push(x);
    let n = h0.len() as int;
    let o = open_line(h0);
    open_line_is_unbroken(h0);
    assert(h.drop_last() =~= h0);
    assert forall|i: int, j: int| #[trigger] wanted_line(h, prefix, room, i, j) implies j < n
        && wanted_line(h0, prefix, room, i, j) || j == n && i == o by {
        if j < n {
            lines_before(h0, x, prefix, room, i, j);
        } else {
            line_at_end(h0, x, i);
        }
    }
    if mid.phase is Stopped {
        let (i, j) = choose|i: int, j: int|
            {
                &&& #[trigger] wanted_line(h0, prefix, room, i, j)
                &&& mid.kept == line_text(h0, i, j, room)
                &&& forall|i2: int, j2: int| #[trigger]
                    wanted_line(h0, prefix, room, i2, j2) ==> j <= j2
            };
        lines_before(h0, x, prefix, room, i, j);
        assert(wanted_line(h, prefix, room, i, j));
    } else {
        assert(!has_wanted_line(h0, prefix, room));
        line_at_end(h0, x, o);
        assert(line_text(h, o, n, room) =~= line_text(h0, o, n, room));
        let complete = end.phase == (Phase::Stopped { complete: true });
        if complete {
            assert(mid.kept.len() > 0);
            assert(wanted_line(h, prefix, room, o, n));
        } else {
            if breaks_line(x) {
                assert(end.kept =~= line_text(h, open_line(h), n + 1, room));
            } else {
                assert(open_line(h) == o);
                assert(end.kept =~= line_text(h, o, n + 1, room));
            }
        }
    }
}

} // verus!
