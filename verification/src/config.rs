//! Configuration constants for the automaton engine.
//!
//! The one true core invariant here is [`MAX_NEIGHBORHOOD_BITS`]: a
//! neighborhood's cell count is also the bit width of its packed key, so it
//! must stay small enough that a rule table over every key fits in memory
//! (and in a `u64` key).
use vstd::prelude::*;

verus! {

/// Default grid width.
pub const GRID_W: usize = 64;

/// Default grid height.
pub const GRID_H: usize = 1;

/// Default length of the history ring kept by the presentation layer.
pub const HISTORY_LENGTH: usize = 16;

/// Default neighborhood width.
pub const NEIGHBORHOOD_W: usize = 3;

/// Default neighborhood height.
pub const NEIGHBORHOOD_H: usize = 1;

/// Ceiling on `neighborhood_w * neighborhood_h`: the rule table stores one
/// entry per key in `[0, 2^bits)`, so 16 bits caps it at 65536 entries.
pub const MAX_NEIGHBORHOOD_BITS: usize = 16;

/// Spawn chances are stored as a numerator over this denominator, so the
/// representable probabilities are `0/1_000_000 ..= 1_000_000/1_000_000`.
pub const SPAWN_CHANCE_DENOM: u32 = 1000000;

/// Default spawn chance numerator (a probability of one fifth).
pub const SPAWN_CHANCE: u32 = 200000;

/// `n` pushed up to at least one.
pub open spec fn at_least_one(n: int) -> int {
    if n < 1 {
        1
    } else {
        n
    }
}

/// The result of shrinking a neighborhood until it fits under `max` cells:
/// the larger extent gives way first, one step at a time.
pub open spec fn clamped_neighborhood(w: int, h: int, max: int) -> (int, int)
    decreases w + h,
{
    if w < 1 || h < 1 || w * h <= max {
        (w, h)
    } else if w >= h && w > 1 {
        clamped_neighborhood(w - 1, h, max)
    } else if h > 1 {
        clamped_neighborhood(w, h - 1, max)
    } else {
        (w, h)
    }
}

/// Shrink requested neighborhood dimensions until they respect the bit
/// ceiling, the larger extent giving way first; extents below one are pushed
/// up to one first.
pub fn clamp_neighborhood_to_limit(w: usize, h: usize) -> (r: (usize, usize))
    ensures
        (r.0 as int, r.1 as int) == clamped_neighborhood(
            at_least_one(w as int),
            at_least_one(h as int),
            MAX_NEIGHBORHOOD_BITS as int,
        ),
        1 <= r.0,
        1 <= r.1,
        r.0 * r.1 <= MAX_NEIGHBORHOOD_BITS,
{
    let mut cw = if w < 1 {
        1
    } else {
        w
    };
    let mut ch = if h < 1 {
        1
    } else {
        h
    };
    while !neighborhood_fits(cw, ch)
        invariant
            1 <= cw,
            1 <= ch,
            clamped_neighborhood(cw as int, ch as int, MAX_NEIGHBORHOOD_BITS as int)
                == clamped_neighborhood(
                at_least_one(w as int),
                at_least_one(h as int),
                MAX_NEIGHBORHOOD_BITS as int,
            ),
        decreases cw + ch,
    {
        if cw >= ch && cw > 1 {
            cw -= 1;
        } else {
            proof {
                assert(ch > 1) by (nonlinear_arith)
                    requires
                        1 <= cw,
                        1 <= ch,
                        cw * ch > MAX_NEIGHBORHOOD_BITS,
                        !(cw >= ch && cw > 1),
                ;
            }
            ch -= 1;
        }
    }
    (cw, ch)
}

/// Whether a `w * h` neighborhood respects the bit ceiling, computed without
/// overflowing even for huge `w` and `h`.
pub fn neighborhood_fits(w: usize, h: usize) -> (r: bool)
    ensures
        r <==> w * h <= MAX_NEIGHBORHOOD_BITS,
{
    if h == 0 {
        true
    } else {
        let r = w <= MAX_NEIGHBORHOOD_BITS / h;
        proof {
            assert(r <==> w * h <= MAX_NEIGHBORHOOD_BITS) by (nonlinear_arith)
                requires
                    h > 0,
                    r <==> w <= MAX_NEIGHBORHOOD_BITS as int / h as int,
            ;
        }
        r
    }
}

} // verus!
