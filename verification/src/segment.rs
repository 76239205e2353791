//! Click-to-select geometry: how a photo is fitted into the model's square.
use vstd::prelude::*;
use crate::text::{push_str, string_from_chars};

verus! {

/// The square the selection model was trained on; the longest edge is scaled to it.
pub const SIDE: u32 = 1024;

/// `v * 1024 / m`, rounded half away from zero, and never past the square; an
/// empty photo is taken to fill it.
pub open spec fn fitted(v: int, m: int) -> int {
    if m == 0 {
        SIDE as int
    } else {
        let rounded = (2 * SIDE * v + m) / (2 * m);
        if rounded > SIDE {
            SIDE as int
        } else {
            rounded
        }
    }
}

/// The part of the square a `width` by `height` photo fills once its longest
/// edge is scaled to the square's side; the rest is padding.
pub fn used_size(width: u32, height: u32) -> (r: (u32, u32))
    ensures
        ({
            let m = if width >= height {
                width as int
            } else {
                height as int
            };
            r.0 == fitted(width as int, m) && r.1 == fitted(height as int, m)
        }),
        width >= height ==> r.0 == SIDE,
        height >= width ==> r.1 == SIDE,
        r.0 <= SIDE && r.1 <= SIDE,
{
    let m: u64 = if width >= height {
        width as u64
    } else {
        height as u64
    };
    if m == 0 {
        return (SIDE, SIDE);
    }
    assert(2 * 1024 * (width as u64) <= 0x800_0000_0000 && 2 * 1024 * (height as u64) <= 0x800_0000_0000)
        by (nonlinear_arith)
        requires
            width <= u32::MAX,
            height <= u32::MAX,
    ;
    let w = (2 * 1024 * (width as u64) + m) / (2 * m);
    let h = (2 * 1024 * (height as u64) + m) / (2 * m);
    assert(w <= SIDE && h <= SIDE) by (nonlinear_arith)
        requires
            w == (2 * SIDE * width + m) / (2 * m),
            h == (2 * SIDE * height + m) / (2 * m),
            width <= m,
            height <= m,
            m > 0,
    ;
    assert(m == width ==> w == SIDE) by (nonlinear_arith)
        requires
            w == (2 * SIDE * width + m) / (2 * m),
            m > 0,
    ;
    assert(m == height ==> h == SIDE) by (nonlinear_arith)
        requires
            h == (2 * SIDE * height + m) / (2 * m),
            m > 0,
    ;
    (w as u32, h as u32)
}

/// Checks a selection before the model runs: it needs at least one point.
/// `points` is how many points the click gave.
pub fn check_points(points: usize) -> (r: Result<(), String>)
    ensures
        match r {
            Ok(()) => points > 0,
            Err(e) => points == 0 && e@ == "no point was given to select from"@,
        },
{
    if points == 0 {
        let mut out: Vec<char> = Vec::new();
        push_str(&mut out, "no point was given to select from");
        return Err(string_from_chars(&out));
    }
    Ok(())
}

} // verus!
