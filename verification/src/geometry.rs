//! Distances and bounds on the page, in thousandths of a page unit.

use vstd::prelude::*;

verus! {

/// One page unit.
pub const UNIT: i64 = 1000;

/// How far two coordinates lie apart.
pub open spec fn gap(a: int, b: int) -> int {
    if a >= b {
        a - b
    } else {
        b - a
    }
}

/// The greatest whole number of page units that is not above `v`.
pub open spec fn floor_unit(v: int) -> int {
    v - v % (UNIT as int)
}

/// How far two coordinates lie apart.
pub fn gap_of(a: i64, b: i64) -> (g: i128)
    ensures
        g == gap(a as int, b as int),
{
    let wide_a: i128 = a as i128;
    let wide_b: i128 = b as i128;
    if wide_a >= wide_b {
        wide_a - wide_b
    } else {
        wide_b - wide_a
    }
}

/// The greatest whole number of page units that is not above `v`.
pub fn floor_of(v: i64) -> (f: i128)
    ensures
        f == floor_unit(v as int),
{
    let wide: i128 = v as i128;
    if wide >= 0 {
        wide - wide % 1000
    } else {
        let up: i128 = (-wide) % 1000;
        if up == 0 {
            wide
        } else {
            wide - (1000 - up)
        }
    }
}

} // verus!
