//! The sign of life: a short flash every second.

use vstd::prelude::*;

verus! {

/// How long the light is on in every second, in milliseconds.
pub const LIT_MILLIS: u64 = 300;

/// How long the light is off in every second, in milliseconds.
pub const DARK_MILLIS: u64 = 700;

/// Whether the light is to be on next, and for how many milliseconds: on and off in turn.
pub fn blink(lit: bool) -> (r: (bool, u64))
    ensures
        r.0 == !lit,
        r.1 == if r.0 {
            LIT_MILLIS
        } else {
            DARK_MILLIS
        },
        lit ==> r == (false, 700u64),
        !lit ==> r == (true, 300u64),
{
    if lit {
        (false, DARK_MILLIS)
    } else {
        (true, LIT_MILLIS)
    }
}

} // verus!
