//! The state of the modem, and decimal numbers for it.

use vstd::arithmetic::power::pow;
use vstd::prelude::*;

use crate::session::{Operation, Session, SessionState, Step};
use crate::text::clip;

verus! {

/// A read of a raw response, up to its `OK`. The overrun flag counts for nothing here.
pub open spec fn response() -> Step {
    Step::ReadUntil { marker: "OK\r\n", heeds_overrun: false, room: 192, millis: 1500 }
}

fn reading_response() -> (r: Step)
    ensures
        r == response(),
{
    Step::ReadUntil { marker: "OK\r\n", heeds_overrun: false, room: 192, millis: 1500 }
}

/// Identification, SIM card number, signal quality and clock of the modem, as raw responses.
pub open spec fn collect_script() -> Seq<Step> {
    seq![
        Step::Drain { heeds_overrun: false, millis: 50 },
        Step::Send { command: "ATI\r\n" },
        response(),
        Step::Send { command: "AT+ICCID\r\n" },
        response(),
        Step::Send { command: "AT+CSQ\r\n" },
        response(),
        Step::Send { command: "AT+CCLK?\r\n" },
        response(),
    ]
}

pub(crate) fn collect_step(index: usize) -> (r: Option<Step>)
    ensures
        index < collect_script().len() ==> r == Some(collect_script()[index as int]),
        index >= collect_script().len() ==> r is None,
        r matches Some(step) ==> step.wf(),
{
    match index {
        0 => Some(Step::Drain { heeds_overrun: false, millis: 50 }),
        1 => Some(Step::Send { command: "ATI\r\n" }),
        2 => Some(reading_response()),
        3 => Some(Step::Send { command: "AT+ICCID\r\n" }),
        4 => Some(reading_response()),
        5 => Some(Step::Send { command: "AT+CSQ\r\n" }),
        6 => Some(reading_response()),
        7 => Some(Step::Send { command: "AT+CCLK?\r\n" }),
        8 => Some(reading_response()),
        _ => None,
    }
}

/// The exchange that collects the state of the modem; its reply is the raw responses to all the
/// queries, one after the other, as far as there is room.
pub fn collect() -> (r: Session)
    ensures
        r.wf(),
        r@ == SessionState::start(collect_script()),
{
    Session::start(Operation::Collect)
}

/// The decimal digits of `n` in ASCII, the most significant one first, without leading zeros.
pub open spec fn decimal(n: nat) -> Seq<u8>
    decreases n,
{
    if n < 10 {
        seq![(48 + n) as u8]
    } else {
        decimal(n / 10).push((48 + n % 10) as u8)
    }
}

/// The number that a string of ASCII digits stands for.
pub open spec fn decimal_value(digits: Seq<u8>) -> int
    decreases digits.len(),
{
    if digits.len() == 0 {
        0
    } else {
        10 * decimal_value(digits.drop_last()) + (digits.last() - 48)
    }
}

/// Reading the digits of a number gives the number back, and only zero starts with a zero.
pub proof fn decimal_reads_back(n: nat)
    ensures
        decimal_value(decimal(n)) == n,
        decimal(n).len() >= 1,
        forall|i: int| 0 <= i < decimal(n).len() ==> 48 <= #[trigger] decimal(n)[i] <= 57,
        n > 0 ==> decimal(n)[0] != 48,
    decreases n,
{
    reveal_with_fuel(decimal_value, 2);
    if n >= 10 {
        decimal_reads_back(n / 10);
        assert(decimal(n).drop_last() =~= decimal(n / 10));
    } else {
        assert(decimal(n).drop_last() =~= Seq::<u8>::empty());
    }
}

/// The digits of a number are those of its tenth, and then its last one; a number below ten is one
/// digit.
pub proof fn decimal_digit_by_digit(tens: nat, ones: nat)
    requires
        ones < 10,
    ensures
        decimal(ones) == seq![(48 + ones) as u8],
        tens > 0 ==> decimal(10 * tens + ones) == decimal(tens).push((48 + ones) as u8),
{
}

/// A number below ten to the `k`-th power has at most `k` digits.
pub proof fn decimal_len(n: nat, k: nat)
    requires
        k >= 1,
        n < pow(10, k),
    ensures
        1 <= decimal(n).len() <= k,
    decreases k,
{
    reveal(pow);
    if n >= 10 {
        if k == 1 {
            assert(pow(10, 0) == 1);
        }
        decimal_len(n / 10, (k - 1) as nat);
    }
}

/// A `usize` has at most twenty digits.
pub proof fn usize_digits(n: usize)
    ensures
        1 <= decimal(n as nat).len() <= 20,
{
    assert(pow(10, 20) == 100_000_000_000_000_000_000) by {
        reveal_with_fuel(pow, 21);
    }
    decimal_len(n as nat, 20);
}

/// The digits of what is left of a number once its last digits are taken off: none for zero.
spec fn leading_digits(rest: nat) -> Seq<u8> {
    if rest == 0 {
        Seq::empty()
    } else {
        decimal(rest)
    }
}

/// Writes `n` in decimal ASCII digits into `buf`, and returns how many bytes it wrote: all the
/// digits, or the leading ones that fit.
pub fn usize_to_ascii(n: usize, buf: &mut [u8]) -> (written: usize)
    ensures
        final(buf)@.len() == old(buf)@.len(),
        written <= old(buf)@.len(),
        final(buf)@.take(written as int) == clip(decimal(n as nat), old(buf)@.len()),
        final(buf)@.skip(written as int) == old(buf)@.skip(written as int),
{
    if buf.is_empty() {
        assert(buf@.take(0) =~= clip(decimal(n as nat), 0));
        return 0;
    }
    if n == 0 {
        buf[0] = 48;
        assert(buf@.take(1) =~= clip(decimal(0), old(buf)@.len()));
        assert(buf@.skip(1) =~= old(buf)@.skip(1));
        return 1;
    }
    let ghost digits = decimal(n as nat);
    proof {
        usize_digits(n);
    }
    // The digits, the least significant one first.
    let mut tmp = [0u8; 20];
    let mut rest: usize = n;
    let mut len: usize = 0;
    while rest > 0
        invariant
            len <= 20,
            digits.len() <= 20,
            digits == leading_digits(rest as nat) + Seq::new(
                len as nat,
                |i: int| tmp@[len - 1 - i],
            ),
        decreases rest,
    {
        proof {
            decimal_reads_back(rest as nat);
        }
        let digit: u8 = (rest % 10) as u8;
        tmp[len] = 48 + digit;
        len = len + 1;
        rest = rest / 10;
        assert(digits =~= leading_digits(rest as nat) + Seq::new(
            len as nat,
            |i: int| tmp@[len - 1 - i],
        ));
    }
    assert(digits =~= Seq::new(len as nat, |i: int| tmp@[len - 1 - i]));
    let out_len: usize = len.min(buf.len());
    let mut i: usize = 0;
    while i < out_len
        invariant
            i <= out_len <= len <= 20,
            out_len <= buf@.len(),
            buf@.len() == old(buf)@.len(),
            digits == Seq::new(len as nat, |i: int| tmp@[len - 1 - i]),
            forall|j: int| 0 <= j < i ==> buf@[j] == digits[j],
            forall|j: int| i <= j < buf@.len() ==> buf@[j] == old(buf)@[j],
        decreases out_len - i,
    {
        buf[i] = tmp[len - 1 - i];
        i = i + 1;
    }
    assert(buf@.take(out_len as int) =~= clip(digits, old(buf)@.len()));
    assert(buf@.skip(out_len as int) =~= old(buf)@.skip(out_len as int));
    out_len
}

} // verus!
