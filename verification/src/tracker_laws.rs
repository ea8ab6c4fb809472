//! What the tracker does over a cycle, and over all of its life.

use vstd::prelude::*;
use vstd::string::*;

use crate::gps::{iccid_is_digits, iccid_of, tells_fix, ICCID_ROOM};
use crate::power::{after_cycles, stays_on_until_stable, three_fixes_save_power, PowerPolicy};
use crate::rx::LINE_ROOM;
use crate::session::Operation;
use crate::text::{ascii_text, clip, clip_in_pieces, text};
use crate::tracker::{
    card_of, closing_lines, fix_of, position_line, Stage, Task, TrackerState, PAYLOAD_ROOM,
};

verus! {

/// After tasks that brought `replies`, from power-up on.
pub open spec fn after_tasks(replies: Seq<Seq<u8>>) -> TrackerState
    decreases replies.len(),
{
    if replies.len() == 0 {
        TrackerState::initial()
    } else {
        after_tasks(replies.drop_last()).step(replies.last())
    }
}

/// Whatever the modem replies, the stage fits the power: the GPS receiver is asked only while it is
/// on, the exchange for the SIM card number runs only while it is off, and at the end of a cycle
/// the GPS receiver is on exactly when power is not saved. And the texts always fit in their
/// buffers.
pub proof fn stages_fit_the_power(replies: Seq<Seq<u8>>)
    ensures
        after_tasks(replies).ordered(),
        after_tasks(replies).gpsst.len() <= LINE_ROOM,
        after_tasks(replies).iccid.len() <= ICCID_ROOM,
        after_tasks(replies).payload.len() <= PAYLOAD_ROOM,
        after_tasks(replies).gpsst.len() <= 192,
        after_tasks(replies).iccid.len() <= 24,
        after_tasks(replies).payload.len() <= 768,
    decreases replies.len(),
{
    if replies.len() > 0 {
        stages_fit_the_power(replies.drop_last());
        assert(card_of(replies.last()).len() <= ICCID_ROOM) by {
            reveal(card_of);
            iccid_is_digits(replies.last());
        }
    }
}

/// The start-up comes first, whatever the modem replies: a pause, the start-up of the modem, the
/// set-up of the GPS receiver, and then the first cycle.
pub proof fn starts_up_first(a: Seq<u8>, b: Seq<u8>, c: Seq<u8>)
    ensures
        ({
            let s0 = TrackerState::initial();
            let s1 = s0.step(a);
            let s2 = s1.step(b);
            let s3 = s2.step(c);
            &&& s0.task() == (Task::Wait { millis: 1500 })
            &&& s1.task() is StartUp
            &&& s2.task() == (Task::Run { operation: Operation::Init })
            &&& s3.task() == (Task::Run { operation: Operation::Collect })
        }),
{
}

/// One cycle, up to the post: the state of the modem is `info`, and the replies to a poll and to
/// the question for the SIM card number, if they are made, are `status` and `card`.
#[verifier::opaque]
pub open spec fn through_cycle(
    t: TrackerState,
    info: Seq<u8>,
    status: Seq<u8>,
    card: Seq<u8>,
) -> TrackerState {
    let none = Seq::<u8>::empty();
    let begun = t.step(info);
    let ready = if begun.stage is PoweringOn {
        begun.step(none).step(none)
    } else {
        begun
    };
    let asked = if ready.stage is Polling {
        ready.step(status)
    } else {
        ready
    };
    let off = if asked.stage is PoweringOff {
        asked.step(none)
    } else {
        asked
    };
    if off.stage is ReadingIccid {
        off.step(card)
    } else {
        off
    }
}

/// A cycle ends with a post. The power saving goes through one of its cycles, with what the status
/// line tells. A status line that came is remembered, and so is a SIM card number that was found;
/// otherwise the old ones stay. The report is the state of the modem, the line on the position,
/// marked unless it came in this cycle, the SIM card number, and whether power is saved, as far as
/// there is room.
#[verifier::rlimit(30)]
pub proof fn cycle_posts_the_report(
    t: TrackerState,
    info: Seq<u8>,
    status: Seq<u8>,
    card: Seq<u8>,
)
    requires
        t.stage is Collecting,
        t.ordered(),
    ensures
        ({
            let end = through_cycle(t, info, status, card);
            let fresh = t.policy.polls() && status.len() > 0;
            let line = clip(status, LINE_ROOM as nat);
            &&& end.stage is Posting
            &&& end.policy == t.policy.after_cycle(status.len() > 0 && fix_of(line))
            &&& end.gpsst == if fresh {
                line
            } else {
                t.gpsst
            }
            &&& end.iccid == if !end.policy.gps_powered && card_of(card).len() > 0 {
                card_of(card)
            } else {
                t.iccid
            }
            &&& end.payload == clip(
                info + position_line(end.gpsst, fresh) + closing_lines(
                    end.iccid,
                    end.policy.power_save_enabled,
                ),
                PAYLOAD_ROOM as nat,
            )
        }),
{
    reveal(through_cycle);
    let end = through_cycle(t, info, status, card);
    let fresh = t.policy.polls() && status.len() > 0;
    let position = position_line(end.gpsst, fresh);
    clip_in_pieces(info, position, PAYLOAD_ROOM as nat);
    clip_in_pieces(
        info + position,
        closing_lines(end.iccid, end.policy.power_save_enabled),
        PAYLOAD_ROOM as nat,
    );
}

/// The tracker takes from a status line and from a reply on the SIM card what they tell, whatever
/// they are.
pub proof fn takes_what_is_told(line: Seq<u8>, reply: Seq<u8>)
    ensures
        fix_of(line) <==> tells_fix(line),
        card_of(reply) == iccid_of(reply),
{
    reveal(fix_of);
    reveal(card_of);
}

/// The report of a cycle, written out: the state of the modem as it came; the status line as it
/// came, its first 192 bytes if it is longer, with a mark if it is from an earlier cycle; the SIM
/// card number; and the power saving. Only what does not fit in 768 bytes is missing, at the end.
#[verifier::rlimit(30)]
pub proof fn report_is_complete(t: TrackerState, info: Seq<u8>, status: Seq<u8>, card: Seq<u8>)
    requires
        t.stage is Collecting,
        t.ordered(),
    ensures
        ({
            let end = through_cycle(t, info, status, card);
            let p = t.policy;
            let polled = p.gps_powered || !p.power_save_enabled || p.gps_track_off_cycles == 0;
            let fresh = polled && status.len() > 0;
            let line = if !fresh {
                t.gpsst
            } else if status.len() <= 192 {
                status
            } else {
                status.take(192)
            };
            let iccid = if end.policy.power_save_enabled && iccid_of(card).len() > 0 {
                iccid_of(card)
            } else {
                t.iccid
            };
            let report = info + (if line.len() == 0 {
                text("GPS_FIX=UNKNOWN\r\n")
            } else if fresh {
                line + text("\r\n")
            } else {
                line + text(" CACHED=1\r\n")
            }) + text("ICCID=") + iccid + (if end.policy.power_save_enabled {
                text("\r\nGPS_PS=1\r\n")
            } else {
                text("\r\nGPS_PS=0\r\n")
            });
            &&& end.gpsst == line
            &&& end.iccid == iccid
            &&& end.policy.power_save_enabled == if !polled {
                p.power_save_enabled
            } else if fresh && tells_fix(line) {
                p.power_save_enabled || p.gps_stable_fix_count >= 2
            } else {
                p.power_save_enabled && p.gps_no_fix_streak < 4
            }
            &&& end.payload == if report.len() <= 768 {
                report
            } else {
                report.take(768)
            }
        }),
{
    cycle_posts_the_report(t, info, status, card);
    let end = through_cycle(t, info, status, card);
    let fresh = t.policy.polls() && status.len() > 0;
    takes_what_is_told(clip(status, LINE_ROOM as nat), card);
    marks_and_line_ends();
    let position = position_line(end.gpsst, fresh);
    let closing = closing_lines(end.iccid, end.policy.power_save_enabled);
    if end.gpsst.len() > 0 {
        assert(position =~= end.gpsst + if fresh {
            text("\r\n")
        } else {
            text(" CACHED=1\r\n")
        });
    }
    let last = if end.policy.power_save_enabled {
        text("\r\nGPS_PS=1\r\n")
    } else {
        text("\r\nGPS_PS=0\r\n")
    };
    assert(closing =~= text("ICCID=") + end.iccid + last);
    assert(info + position + closing =~= info + position + text("ICCID=") + end.iccid + last);
}

/// What a cycle does to the power saving. Without a poll, one of the cycles off is over. A status
/// line with a fix is one more fix in a row; any other line, and none at all, is one more poll in a
/// row without a fix. At the end the receiver is off exactly when power is saved, and is then to
/// stay off for two cycles.
pub proof fn cycle_counts_its_poll(t: TrackerState, info: Seq<u8>, status: Seq<u8>, card: Seq<u8>)
    requires
        t.stage is Collecting,
        t.ordered(),
    ensures
        ({
            let p = t.policy;
            let q = through_cycle(t, info, status, card).policy;
            let line = if status.len() <= 192 {
                status
            } else {
                status.take(192)
            };
            let fix = status.len() > 0 && tells_fix(line);
            let polled = p.gps_powered || !p.power_save_enabled || p.gps_track_off_cycles == 0;
            &&& !polled ==> q == (PowerPolicy {
                gps_track_off_cycles: (p.gps_track_off_cycles - 1) as u8,
                ..p
            })
            &&& polled ==> {
                &&& q.gps_powered <==> !q.power_save_enabled
                &&& q.power_save_enabled ==> q.gps_track_off_cycles == 2
            }
            &&& polled && fix ==> {
                &&& q.gps_stable_fix_count == if p.gps_stable_fix_count < 255 {
                    p.gps_stable_fix_count + 1
                } else {
                    255
                }
                &&& q.gps_no_fix_streak == 0
                &&& q.power_save_enabled <==> p.power_save_enabled || p.gps_stable_fix_count >= 2
            }
            &&& polled && !fix ==> {
                &&& q.gps_stable_fix_count == 0
                &&& q.gps_no_fix_streak == if p.gps_no_fix_streak < 255 {
                    p.gps_no_fix_streak + 1
                } else {
                    255
                }
                &&& q.power_save_enabled <==> p.power_save_enabled && p.gps_no_fix_streak < 4
            }
        }),
{
    cycle_posts_the_report(t, info, status, card);
    let line = clip(status, LINE_ROOM as nat);
    let fix = tells_fix(line);
    assert(fix_of(line) == fix) by {
        reveal(fix_of);
    }
}

proof fn marks_and_line_ends()
    ensures
        text(" CACHED=1\r\n") == text(" CACHED=1") + text("\r\n"),
        text("\r\nGPS_PS=1\r\n") == text("\r\n") + text("GPS_PS=") + text("1\r\n"),
        text("\r\nGPS_PS=0\r\n") == text("\r\n") + text("GPS_PS=") + text("0\r\n"),
{
    reveal_strlit("\r\n");
    reveal_strlit(" CACHED=1");
    reveal_strlit(" CACHED=1\r\n");
    reveal_strlit("GPS_PS=");
    reveal_strlit("1\r\n");
    reveal_strlit("0\r\n");
    reveal_strlit("\r\nGPS_PS=1\r\n");
    reveal_strlit("\r\nGPS_PS=0\r\n");
    ascii_text("\r\n");
    ascii_text(" CACHED=1");
    ascii_text(" CACHED=1\r\n");
    ascii_text("GPS_PS=");
    ascii_text("1\r\n");
    ascii_text("0\r\n");
    ascii_text("\r\nGPS_PS=1\r\n");
    ascii_text("\r\nGPS_PS=0\r\n");
    assert(text(" CACHED=1\r\n") =~= text(" CACHED=1") + text("\r\n"));
    assert(text("\r\nGPS_PS=1\r\n") =~= text("\r\n") + text("GPS_PS=") + text("1\r\n"));
    assert(text("\r\nGPS_PS=0\r\n") =~= text("\r\n") + text("GPS_PS=") + text("0\r\n"));
}

/// The whole status line stands in the report right behind the state of the modem, and its mark or
/// the end of the line right behind it, wherever there is room for them.
pub proof fn status_line_is_forwarded(
    t: TrackerState,
    info: Seq<u8>,
    status: Seq<u8>,
    card: Seq<u8>,
)
    requires
        t.stage is Collecting,
        t.ordered(),
        through_cycle(t, info, status, card).gpsst.len() > 0,
        info.len() + through_cycle(t, info, status, card).gpsst.len() + 11 <= 768,
    ensures
        ({
            let end = through_cycle(t, info, status, card);
            let from = info.len() as int;
            let to = from + end.gpsst.len();
            let fresh = status.len() > 0 && (t.policy.gps_powered || !t.policy.power_save_enabled
                || t.policy.gps_track_off_cycles == 0);
            &&& end.payload.subrange(0, from) == info
            &&& end.payload.subrange(from, to) == end.gpsst
            &&& fresh ==> end.payload.subrange(to, to + 2) == seq![13u8, 10u8]
            &&& !fresh ==> end.payload.subrange(to, to + 11) == text(" CACHED=1\r\n")
            &&& fresh && status.len() <= 192 ==> end.gpsst == status
        }),
{
    cycle_posts_the_report(t, info, status, card);
    let end = through_cycle(t, info, status, card);
    let fresh = t.policy.polls() && status.len() > 0;
    let closing = closing_lines(end.iccid, end.policy.power_save_enabled);
    marks_and_line_ends();
    reveal_strlit("\r\n");
    reveal_strlit(" CACHED=1\r\n");
    ascii_text("\r\n");
    ascii_text(" CACHED=1\r\n");
    assert(text("\r\n") =~= seq![13u8, 10u8]);
    if fresh {
        assert(end.gpsst + Seq::<u8>::empty() + text("\r\n") =~= end.gpsst + text("\r\n"));
        stand_in_a_row(info, end.gpsst, text("\r\n"), closing);
    } else {
        assert(end.gpsst + text(" CACHED=1") + text("\r\n") =~= end.gpsst + text(
            " CACHED=1\r\n",
        ));
        stand_in_a_row(info, end.gpsst, text(" CACHED=1\r\n"), closing);
    }
}

/// Where there is room for them, the parts of a text stand in it one behind the other.
proof fn stand_in_a_row(a: Seq<u8>, b: Seq<u8>, c: Seq<u8>, d: Seq<u8>)
    requires
        a.len() + b.len() + c.len() <= PAYLOAD_ROOM,
    ensures
        ({
            let s = clip(a + (b + c) + d, PAYLOAD_ROOM as nat);
            let from = a.len() as int;
            let to = from + b.len();
            &&& s.subrange(0, from) == a
            &&& s.subrange(from, to) == b
            &&& s.subrange(to, to + c.len()) == c
        }),
{
    let s = clip(a + (b + c) + d, PAYLOAD_ROOM as nat);
    let from = a.len() as int;
    let to = from + b.len();
    assert(s.subrange(0, from) =~= a);
    assert(s.subrange(from, to) =~= b);
    assert(s.subrange(to, to + c.len()) =~= c);
}

/// The tasks of a cycle up to its poll, whatever the exchanges reply: the state of the modem is
/// collected. A receiver that is off and due is switched on and given fifteen seconds before it is
/// polled; one that is on is polled at once; one that is to stay off is not polled.
pub proof fn cycle_begins_in_order(t: TrackerState, info: Seq<u8>, a: Seq<u8>, b: Seq<u8>)
    requires
        t.stage is Collecting,
    ensures
        t.task() == (Task::Run { operation: Operation::Collect }),
        ({
            let p = t.policy;
            let s = t.step(info);
            &&& p.gps_powered ==> s.task() == (Task::Run { operation: Operation::Poll })
            &&& !p.gps_powered && (!p.power_save_enabled || p.gps_track_off_cycles == 0) ==> {
                &&& s.task() == (Task::Run { operation: Operation::PowerOn })
                &&& s.step(a).task() == (Task::Wait { millis: 15_000 })
                &&& s.step(a).step(b).task() == (Task::Run { operation: Operation::Poll })
            }
            &&& !p.gps_powered && p.power_save_enabled && p.gps_track_off_cycles > 0 ==> s.task()
                == (Task::Run { operation: Operation::ReadIccid })
        }),
{
}

/// The tasks of a cycle from its poll on, whatever the exchanges reply: where power is saved, the
/// receiver is switched off and the SIM card number read; then the report is posted, and after a
/// minute the next cycle begins.
#[verifier::rlimit(30)]
pub proof fn cycle_ends_in_order(
    t: TrackerState,
    status: Seq<u8>,
    a: Seq<u8>,
    card: Seq<u8>,
    b: Seq<u8>,
    c: Seq<u8>,
)
    requires
        t.stage is Polling,
        t.ordered(),
    ensures
        ({
            let s = t.step(status);
            let posting = if s.policy.power_save_enabled {
                s.step(a).step(card)
            } else {
                s
            };
            &&& s.policy.power_save_enabled ==> {
                &&& s.task() == (Task::Run { operation: Operation::PowerOff })
                &&& s.step(a).task() == (Task::Run { operation: Operation::ReadIccid })
            }
            &&& posting.task() is Post
            &&& posting.step(b).task() == (Task::Wait { millis: 60_000 })
            &&& posting.step(b).step(c).task() == (Task::Run { operation: Operation::Collect })
            &&& posting.step(b).step(c).payload == posting.payload
            &&& posting.step(b).step(c).policy == posting.policy
            &&& posting.step(b).step(c).gpsst == posting.gpsst
            &&& posting.step(b).step(c).iccid == posting.iccid
        }),
{
}

/// What a cycle gets from the modem: its state, and the replies to a poll and to the question for
/// the SIM card number, if they are made.
pub struct Replies {
    pub info: Seq<u8>,
    pub status: Seq<u8>,
    pub card: Seq<u8>,
}

/// The status line of a cycle tells of a fix.
pub open spec fn fix_in(replies: Replies) -> bool {
    replies.status.len() > 0 && fix_of(clip(replies.status, LINE_ROOM as nat))
}

/// At the post of the last of these cycles, the first of which follows the start-up; just before
/// the first cycle if there are none.
pub open spec fn at_post(cycles: Seq<Replies>) -> TrackerState
    decreases cycles.len(),
{
    let none = Seq::<u8>::empty();
    if cycles.len() == 0 {
        TrackerState::initial().step(none).step(none).step(none)
    } else {
        let before = at_post(cycles.drop_last());
        let t = if cycles.len() == 1 {
            before
        } else {
            before.step(none).step(none)
        };
        through_cycle(t, cycles.last().info, cycles.last().status, cycles.last().card)
    }
}

/// The last status line among those that polls brought, or nothing.
pub open spec fn last_line(cycles: Seq<Replies>) -> Seq<u8>
    decreases cycles.len(),
{
    if cycles.len() == 0 {
        Seq::empty()
    } else if polled_line(cycles) {
        clip(cycles.last().status, LINE_ROOM as nat)
    } else {
        last_line(cycles.drop_last())
    }
}

/// The last of the cycles polled the GPS receiver, and a status line came.
pub open spec fn polled_line(cycles: Seq<Replies>) -> bool {
    &&& cycles.len() > 0
    &&& after_cycles(fixes(cycles.drop_last())).polls()
    &&& cycles.last().status.len() > 0
}

/// The last SIM card number that was found while the GPS receiver was off, or nothing.
pub open spec fn last_card(cycles: Seq<Replies>) -> Seq<u8>
    decreases cycles.len(),
{
    if cycles.len() == 0 {
        Seq::empty()
    } else {
        let iccid = card_of(cycles.last().card);
        if !after_cycles(fixes(cycles)).gps_powered && iccid.len() > 0 {
            iccid
        } else {
            last_card(cycles.drop_last())
        }
    }
}

/// Whether the status lines of the cycles tell of fixes.
pub open spec fn fixes(cycles: Seq<Replies>) -> Seq<bool> {
    cycles.map_values(|replies: Replies| fix_in(replies))
}

/// Three cycles in a row whose status lines tell of a fix leave the tracker saving power, whatever
/// was before them and whatever else the modem replies.
pub proof fn three_status_lines_save_power(cycles: Seq<Replies>, a: Replies, b: Replies, c: Replies)
    requires
        0 < a.status.len() <= 192 && tells_fix(a.status),
        0 < b.status.len() <= 192 && tells_fix(b.status),
        0 < c.status.len() <= 192 && tells_fix(c.status),
    ensures
        at_post(cycles.push(a).push(b).push(c)).policy.power_save_enabled,
{
    reveal(fix_of);
    let all = cycles.push(a).push(b).push(c);
    every_report_carries_the_latest(all);
    assert(fixes(all) =~= fixes(cycles).push(true).push(true).push(true));
    three_fixes_save_power(fixes(cycles));
}

/// Over any number of cycles the power saving follows the fixes as its own laws say. Every report
/// carries the state of the modem; the last status line that a poll brought, marked as cached
/// unless it is of the same cycle, or the word that there never was one; the last SIM card number;
/// and whether power is saved.
pub proof fn every_report_carries_the_latest(cycles: Seq<Replies>)
    requires
        cycles.len() > 0,
    ensures
        ({
            let end = at_post(cycles);
            &&& end.stage is Posting
            &&& end.policy == after_cycles(fixes(cycles))
            &&& end.gpsst == last_line(cycles)
            &&& end.iccid == last_card(cycles)
            &&& end.payload == clip(
                cycles.last().info + position_line(last_line(cycles), polled_line(cycles))
                    + closing_lines(
                    last_card(cycles),
                    after_cycles(fixes(cycles)).power_save_enabled,
                ),
                PAYLOAD_ROOM as nat,
            )
        }),
    decreases cycles.len(),
{
    let before = cycles.drop_last();
    let last = cycles.last();
    assert(fixes(cycles).drop_last() =~= fixes(before));
    assert(after_cycles(fixes(cycles)) == after_cycles(fixes(before)).after_cycle(fix_in(last)));
    let none = Seq::<u8>::empty();
    let t = if cycles.len() == 1 {
        at_post(before)
    } else {
        at_post(before).step(none).step(none)
    };
    if cycles.len() == 1 {
        assert(after_cycles(fixes(before)) == PowerPolicy::initial());
        assert(last_line(before) == none && last_card(before) == none);
        assert(t =~= TrackerState { stage: Stage::Collecting, ..TrackerState::initial() });
    } else {
        every_report_carries_the_latest(before);
        stays_on_until_stable(fixes(before));
    }
    cycle_posts_the_report(t, last.info, last.status, last.card);
}

} // verus!
