//! Wraparound arithmetic for toroidal coordinates.
//!
//! A coordinate on an axis of extent `max` lives in `[0, max)`; stepping
//! off either end wraps to the opposite end.  These two modular-offset
//! helpers are the only arithmetic the grid engine needs.

use vstd::arithmetic::div_mod::lemma_mod_self_0;
use vstd::arithmetic::div_mod::lemma_small_mod;
use vstd::prelude::*;

verus! {

/// The coordinate one step back from `v` on a wrapping axis of extent `max`:
/// `0` wraps to `max - 1`.
pub open spec fn wrap_dec(v: int, max: int) -> int {
    if v == 0 {
        max - 1
    } else {
        v - 1
    }
}

/// The coordinate one step forward from `v` on a wrapping axis of extent
/// `max`: `max - 1` wraps to `0`.
pub open spec fn wrap_inc(v: int, max: int) -> int {
    if v + 1 == max {
        0
    } else {
        v + 1
    }
}

/// The coordinate `offset` steps (`-1`, `0` or `1`) from `v` on a wrapping
/// axis of extent `max`; any other offset leaves `v` unchanged.
pub open spec fn wrap_offset(v: int, max: int, offset: int) -> int {
    if offset == -1 {
        wrap_dec(v, max)
    } else if offset == 1 {
        wrap_inc(v, max)
    } else {
        v
    }
}

/// Wrap around subtraction of 1 from input, bound by max.
pub fn clamp_sub(val: u32, max: u32) -> (r: u32)
    requires
        max >= 1,
    ensures
        r == if val == 0 { max - 1 } else { val - 1 },
        val < max ==> r == wrap_dec(val as int, max as int),
{
    val.checked_sub(1).unwrap_or(max - 1)
}

/// Wrap around addition of 1 from input, bound by max.
pub fn clamp_add(val: u32, max: u32) -> (r: u32)
    requires
        max >= 1,
        val < u32::MAX,
    ensures
        r == (val + 1) % (max as int),
        val < max ==> r == wrap_inc(val as int, max as int),
{
    proof {
        if val + 1 == max {
            lemma_mod_self_0(max as int);
        } else if val + 1 < max {
            lemma_small_mod((val + 1) as nat, max as nat);
        }
    }
    (val + 1) % max
}

/// Offset `val` by `offset` along a wrapping axis of extent `max`: `-1`
/// steps back, `1` steps forward, anything else stays put.
pub fn wrapped_add_or_sub(val: u32, max: u32, offset: i8) -> (r: u32)
    requires
        max >= 1,
        val < max,
    ensures
        r < max,
        r == wrap_offset(val as int, max as int, offset as int),
{
    match offset {
        -1 => clamp_sub(val, max),
        1 => clamp_add(val, max),
        _ => val,
    }
}

} // verus!
