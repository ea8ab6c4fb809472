//! When the GPS receiver is on.
//!
//! It stays on until it has a stable position. From then on it is switched on for one cycle and off
//! for the next two, until it has found no position several times in a row.

use vstd::prelude::*;

verus! {

/// So many fixes in a row make the position stable.
pub const GPS_STABLE_FIX_TARGET: u8 = 3;

/// After so many polls in a row without a fix the receiver stays on again.
pub const GPS_NO_FIX_RECOVER_THRESHOLD: u8 = 5;

/// So many cycles the receiver stays off between two queries.
pub const GPS_TRACK_OFF_CYCLES: u8 = 2;

/// The state of the power saving.
#[derive(Clone, Copy)]
pub struct PowerPolicy {
    /// The receiver is on.
    pub gps_powered: bool,
    /// The receiver is switched off between queries.
    pub power_save_enabled: bool,
    /// Fixes in a row, as far as the counter goes.
    pub gps_stable_fix_count: u8,
    /// Polls in a row without a fix, as far as the counter goes.
    pub gps_no_fix_streak: u8,
    /// Cycles that the receiver is still to stay off.
    pub gps_track_off_cycles: u8,
}

/// The next value of a counter that stays at its largest one.
pub open spec fn count(n: u8) -> u8 {
    if n < u8::MAX {
        (n + 1) as u8
    } else {
        n
    }
}

impl PowerPolicy {
    /// At start-up the receiver is off and is to be switched on at once.
    pub open spec fn initial() -> PowerPolicy {
        PowerPolicy {
            gps_powered: false,
            power_save_enabled: false,
            gps_stable_fix_count: 0,
            gps_no_fix_streak: 0,
            gps_track_off_cycles: 0,
        }
    }

    /// The receiver is off and is to be switched on in this cycle.
    pub open spec fn query_due(self) -> bool {
        !self.gps_powered && (!self.power_save_enabled || self.gps_track_off_cycles == 0)
    }

    /// Once a cycle has begun: a cycle in which the receiver stays off is counted.
    pub open spec fn begun(self) -> PowerPolicy {
        if self.power_save_enabled && !self.gps_powered && self.gps_track_off_cycles > 0 {
            PowerPolicy { gps_track_off_cycles: (self.gps_track_off_cycles - 1) as u8, ..self }
        } else {
            self
        }
    }

    /// Once the receiver was switched on.
    pub open spec fn switched_on(self) -> PowerPolicy {
        PowerPolicy { gps_powered: true, ..self }
    }

    /// Once a poll has told of a fix, or of none.
    pub open spec fn observed(self, fix: bool) -> PowerPolicy {
        if fix {
            let fixes = count(self.gps_stable_fix_count);
            PowerPolicy {
                gps_stable_fix_count: fixes,
                gps_no_fix_streak: 0,
                power_save_enabled: self.power_save_enabled || fixes >= GPS_STABLE_FIX_TARGET,
                ..self
            }
        } else {
            let misses = count(self.gps_no_fix_streak);
            let recover = misses >= GPS_NO_FIX_RECOVER_THRESHOLD;
            PowerPolicy {
                gps_stable_fix_count: 0,
                gps_no_fix_streak: misses,
                power_save_enabled: self.power_save_enabled && !recover,
                gps_track_off_cycles: if recover {
                    0
                } else {
                    self.gps_track_off_cycles
                },
                ..self
            }
        }
    }

    /// The receiver is on and is to be switched off.
    pub open spec fn switch_off_due(self) -> bool {
        self.power_save_enabled && self.gps_powered
    }

    /// Once the receiver was switched off.
    pub open spec fn switched_off(self) -> PowerPolicy {
        PowerPolicy {
            gps_powered: false,
            gps_track_off_cycles: GPS_TRACK_OFF_CYCLES,
            ..self
        }
    }

    /// The state at start-up.
    pub fn new() -> (r: PowerPolicy)
        ensures
            r == Self::initial(),
    {
        PowerPolicy {
            gps_powered: false,
            power_save_enabled: false,
            gps_stable_fix_count: 0,
            gps_no_fix_streak: 0,
            gps_track_off_cycles: 0,
        }
    }

    /// Begins a cycle, and tells whether the receiver is to be switched on in it.
    pub fn begin_cycle(&mut self) -> (due: bool)
        ensures
            due == old(self).query_due(),
            *final(self) == old(self).begun(),
    {
        let due: bool = !self.gps_powered && (!self.power_save_enabled
            || self.gps_track_off_cycles == 0);
        if self.power_save_enabled && !self.gps_powered && self.gps_track_off_cycles > 0 {
            self.gps_track_off_cycles = self.gps_track_off_cycles - 1;
        }
        due
    }

    /// Notes that the receiver was switched on.
    pub fn switch_on(&mut self)
        ensures
            *final(self) == old(self).switched_on(),
    {
        self.gps_powered = true;
    }

    /// Notes whether a poll told of a fix.
    pub fn observe(&mut self, fix: bool)
        ensures
            *final(self) == old(self).observed(fix),
    {
        if fix {
            self.gps_stable_fix_count = self.gps_stable_fix_count.saturating_add(1);
            self.gps_no_fix_streak = 0;
            if self.gps_stable_fix_count >= GPS_STABLE_FIX_TARGET {
                self.power_save_enabled = true;
            }
        } else {
            self.gps_stable_fix_count = 0;
            self.gps_no_fix_streak = self.gps_no_fix_streak.saturating_add(1);
            if self.gps_no_fix_streak >= GPS_NO_FIX_RECOVER_THRESHOLD {
                self.power_save_enabled = false;
                self.gps_track_off_cycles = 0;
            }
        }
    }

    /// Whether the receiver is on and is to be switched off.
    pub fn must_switch_off(&self) -> (r: bool)
        ensures
            r == self.switch_off_due(),
    {
        self.power_save_enabled && self.gps_powered
    }

    /// Notes that the receiver was switched off, and for how long it is to stay so.
    pub fn switch_off(&mut self)
        ensures
            *final(self) == old(self).switched_off(),
    {
        self.gps_powered = false;
        self.gps_track_off_cycles = GPS_TRACK_OFF_CYCLES;
    }

    /// The receiver is polled in the cycle that begins in this state.
    pub open spec fn polls(self) -> bool {
        self.gps_powered || self.query_due()
    }

    /// After a whole cycle: switched on if that is due, polled if it is on, and then switched off
    /// if that is due. `fix` is what a poll would tell.
    pub open spec fn after_cycle(self, fix: bool) -> PowerPolicy {
        if self.polls() {
            let told = self.begun().switched_on().observed(fix);
            if told.switch_off_due() {
                told.switched_off()
            } else {
                told
            }
        } else {
            self.begun()
        }
    }
}

/// After cycles whose polls would tell `fixes`, from start-up on.
pub open spec fn after_cycles(fixes: Seq<bool>) -> PowerPolicy
    decreases fixes.len(),
{
    if fixes.len() == 0 {
        PowerPolicy::initial()
    } else {
        after_cycles(fixes.drop_last()).after_cycle(fixes.last())
    }
}

proof fn one_more_cycle(fixes: Seq<bool>, fix: bool)
    ensures
        after_cycles(fixes.push(fix)) == after_cycles(fixes).after_cycle(fix),
{
    assert(fixes.push(fix).drop_last() =~= fixes);
}

/// What the polls of these cycles told: a cycle in which the receiver is off tells nothing.
pub open spec fn told(fixes: Seq<bool>) -> Seq<bool>
    decreases fixes.len(),
{
    if fixes.len() == 0 {
        Seq::empty()
    } else if after_cycles(fixes.drop_last()).polls() {
        told(fixes.drop_last()).push(fixes.last())
    } else {
        told(fixes.drop_last())
    }
}

/// The `n` polls up to and with the one at `i` all told `fix`.
pub open spec fn in_a_row(polls: Seq<bool>, fix: bool, n: int, i: int) -> bool {
    &&& n - 1 <= i < polls.len()
    &&& forall|k: int| i - n < k <= i ==> #[trigger] polls[k] == fix
}

/// Three fixes in a row came at some poll, and since then never five polls in a row without one.
pub open spec fn is_stable(polls: Seq<bool>) -> bool {
    exists|i: int|
        {
            &&& #[trigger] in_a_row(polls, true, 3, i)
            &&& forall|j: int| i < j < polls.len() ==> !#[trigger] in_a_row(polls, false, 5, j)
        }
}

/// How many of the last polls told `fix`.
spec fn run_length(polls: Seq<bool>, fix: bool) -> nat
    decreases polls.len(),
{
    if polls.len() == 0 || polls.last() != fix {
        0
    } else {
        run_length(polls.drop_last(), fix) + 1
    }
}

proof fn run_is_in_a_row(polls: Seq<bool>, fix: bool, n: int)
    requires
        n >= 1,
    ensures
        run_length(polls, fix) <= polls.len(),
        run_length(polls, fix) >= n <==> in_a_row(polls, fix, n, polls.len() - 1),
    decreases polls.len(),
{
    if polls.len() > 0 {
        let before = polls.drop_last();
        let last = polls.len() - 1;
        if polls.last() == fix {
            if n > 1 {
                run_is_in_a_row(before, fix, n - 1);
                if in_a_row(before, fix, n - 1, last - 1) {
                    assert forall|k: int| last - n < k <= last implies #[trigger] polls[k]
                        == fix by {
                        if k < last {
                            assert(before[k] == fix);
                        }
                    }
                }
                if in_a_row(polls, fix, n, last) {
                    assert forall|k: int| last - n < k <= last - 1 implies #[trigger] before[k]
                        == fix by {
                        assert(polls[k] == fix);
                    }
                }
            } else {
                run_is_in_a_row(before, fix, 1);
            }
        } else {
            if in_a_row(polls, fix, n, last) {
                assert(polls[last] == fix);
            }
        }
    }
}

proof fn in_a_row_before(polls: Seq<bool>, x: bool, fix: bool, n: int, i: int)
    requires
        i < polls.len(),
    ensures
        in_a_row(polls.push(x), fix, n, i) == in_a_row(polls, fix, n, i),
{
    let longer = polls.push(x);
    if n - 1 <= i {
        if in_a_row(polls, fix, n, i) {
            assert forall|k: int| i - n < k <= i implies #[trigger] longer[k] == fix by {
                assert(polls[k] == fix);
            }
        }
        if in_a_row(longer, fix, n, i) {
            assert forall|k: int| i - n < k <= i implies #[trigger] polls[k] == fix by {
                assert(longer[k] == fix);
            }
        }
    }
}

/// What one more poll changes about stability.
proof fn stable_step(polls: Seq<bool>, x: bool)
    ensures
        is_stable(polls.push(x)) <==> {
            ||| in_a_row(polls.push(x), true, GPS_STABLE_FIX_TARGET as int, polls.len() as int)
            ||| is_stable(polls) && !in_a_row(
                polls.push(x),
                false,
                GPS_NO_FIX_RECOVER_THRESHOLD as int,
                polls.len() as int,
            )
        },
{
    let longer = polls.push(x);
    let n = polls.len() as int;
    let up = GPS_STABLE_FIX_TARGET as int;
    let down = GPS_NO_FIX_RECOVER_THRESHOLD as int;
    if is_stable(longer) {
        let i = choose|i: int|
            {
                &&& #[trigger] in_a_row(longer, true, up, i)
                &&& forall|j: int|
                    i < j < longer.len() ==> !#[trigger] in_a_row(longer, false, down, j)
            };
        if i < n {
            in_a_row_before(polls, x, true, up, i);
            assert(in_a_row(polls, true, up, i));
            assert forall|j: int| i < j < polls.len() implies !#[trigger] in_a_row(
                polls,
                false,
                down,
                j,
            ) by {
                in_a_row_before(polls, x, false, down, j);
                assert(!in_a_row(longer, false, down, j));
            }
            assert(!in_a_row(longer, false, down, n));
        }
    }
    if in_a_row(longer, true, up, n) {
        assert(is_stable(longer));
    }
    if is_stable(polls) && !in_a_row(longer, false, down, n) {
        let i = choose|i: int|
            {
                &&& #[trigger] in_a_row(polls, true, up, i)
                &&& forall|j: int|
                    i < j < polls.len() ==> !#[trigger] in_a_row(polls, false, down, j)
            };
        in_a_row_before(polls, x, true, up, i);
        assert(in_a_row(longer, true, up, i));
        assert forall|j: int| i < j < longer.len() implies !#[trigger] in_a_row(
            longer,
            false,
            down,
            j,
        ) by {
            if j < n {
                in_a_row_before(polls, x, false, down, j);
            }
        }
        assert(is_stable(longer));
    }
}

/// A number as far as a counter goes.
spec fn counted(n: nat) -> u8 {
    if n < u8::MAX {
        n as u8
    } else {
        u8::MAX
    }
}

proof fn counters_follow(fixes: Seq<bool>)
    ensures
        after_cycles(fixes).gps_stable_fix_count == counted(run_length(told(fixes), true)),
        after_cycles(fixes).gps_no_fix_streak == counted(run_length(told(fixes), false)),
        after_cycles(fixes).power_save_enabled == is_stable(told(fixes)),
        after_cycles(fixes).gps_track_off_cycles <= GPS_TRACK_OFF_CYCLES,
        fixes.len() > 0 ==> after_cycles(fixes).gps_powered == !after_cycles(
            fixes,
        ).power_save_enabled,
    decreases fixes.len(),
{
    if fixes.len() == 0 {
        let none = Seq::<bool>::empty();
        assert(forall|i: int| !in_a_row(none, true, GPS_STABLE_FIX_TARGET as int, i));
    } else {
        let before = fixes.drop_last();
        counters_follow(before);
        let p = after_cycles(before);
        if p.polls() {
            let polls = told(before);
            let x = fixes.last();
            let longer = polls.push(x);
            assert(longer.drop_last() =~= polls);
            stable_step(polls, x);
            run_is_in_a_row(longer, true, GPS_STABLE_FIX_TARGET as int);
            run_is_in_a_row(longer, false, GPS_NO_FIX_RECOVER_THRESHOLD as int);
        }
    }
}

/// Power is saved exactly while the position is stable: from three fixes in a row on, until five
/// polls in a row told of none. Cycles without a poll count for nothing.
pub proof fn saves_power_while_stable(fixes: Seq<bool>)
    ensures
        after_cycles(fixes).power_save_enabled <==> is_stable(told(fixes)),
{
    counters_follow(fixes);
}

/// While power is not saved the receiver is polled in every cycle, and is still on at its end;
/// while power is saved it is off between cycles.
pub proof fn stays_on_until_stable(fixes: Seq<bool>)
    ensures
        !after_cycles(fixes).power_save_enabled ==> after_cycles(fixes).polls(),
        fixes.len() > 0 ==> (after_cycles(fixes).gps_powered <==> !after_cycles(
            fixes,
        ).power_save_enabled),
{
    counters_follow(fixes);
}

/// After three cycles whose polls would all tell of a fix, power is saved, whatever was before.
pub proof fn three_fixes_save_power(fixes: Seq<bool>)
    ensures
        after_cycles(fixes.push(true).push(true).push(true)).power_save_enabled,
{
    stays_on_until_stable(fixes);
    stays_on_until_stable(fixes.push(true));
    stays_on_until_stable(fixes.push(true).push(true));
    one_more_cycle(fixes, true);
    one_more_cycle(fixes.push(true), true);
    one_more_cycle(fixes.push(true).push(true), true);
}

/// In whatever state a cycle begins, the receiver is polled in it unless power is saved, the
/// receiver is off, and it is to stay off for some more cycles; and then one of these is over.
pub proof fn polls_unless_it_stays_off(p: PowerPolicy)
    ensures
        p.polls() <==> p.gps_powered || !p.power_save_enabled || p.gps_track_off_cycles == 0,
        !p.polls() ==> p.begun() == (PowerPolicy {
            gps_track_off_cycles: (p.gps_track_off_cycles - 1) as u8,
            ..p
        }),
        p.polls() && !p.gps_powered ==> p.begun() == p && p.query_due(),
{
}

/// In whatever state a poll is made, a fix ends a row of polls without one, and the third in a row
/// makes power saved; a poll without a fix ends a row of fixes, and the fifth in a row makes the
/// receiver stay on. Nothing else does either.
pub proof fn a_poll_counts(p: PowerPolicy)
    ensures
        ({
            let q = p.observed(true);
            &&& q.gps_powered == p.gps_powered
            &&& q.gps_stable_fix_count == if p.gps_stable_fix_count < 255 {
                p.gps_stable_fix_count + 1
            } else {
                255
            }
            &&& q.gps_no_fix_streak == 0
            &&& q.power_save_enabled <==> p.power_save_enabled || p.gps_stable_fix_count >= 2
            &&& q.gps_track_off_cycles == p.gps_track_off_cycles
        }),
        ({
            let q = p.observed(false);
            &&& q.gps_powered == p.gps_powered
            &&& q.gps_stable_fix_count == 0
            &&& q.gps_no_fix_streak == if p.gps_no_fix_streak < 255 {
                p.gps_no_fix_streak + 1
            } else {
                255
            }
            &&& q.power_save_enabled <==> p.power_save_enabled && p.gps_no_fix_streak < 4
            &&& q.gps_track_off_cycles == if p.gps_no_fix_streak < 4 {
                p.gps_track_off_cycles
            } else {
                0
            }
        }),
{
}

/// Switching on and off changes the power. Switching off also makes the receiver stay off for two
/// cycles. It is due exactly when power is saved and the receiver is on.
pub proof fn switches_change_the_power(p: PowerPolicy)
    ensures
        p.switched_on() == (PowerPolicy { gps_powered: true, ..p }),
        p.switched_off() == (PowerPolicy { gps_powered: false, gps_track_off_cycles: 2, ..p }),
        p.switch_off_due() <==> p.power_save_enabled && p.gps_powered,
{
}

/// While power is saved, a cycle with a poll is followed by two cycles without one, and then by one
/// with a poll.
pub proof fn off_for_two_cycles_on_for_one(fixes: Seq<bool>, a: bool, b: bool, c: bool)
    requires
        after_cycles(fixes).polls(),
        after_cycles(fixes.push(a)).power_save_enabled,
    ensures
        !after_cycles(fixes.push(a)).polls(),
        !after_cycles(fixes.push(a).push(b)).polls(),
        after_cycles(fixes.push(a).push(b).push(c)).polls(),
{
    one_more_cycle(fixes, a);
    one_more_cycle(fixes.push(a), b);
    one_more_cycle(fixes.push(a).push(b), c);
}

} // verus!
