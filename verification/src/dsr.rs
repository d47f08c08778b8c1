//! Dynamic super resolution: when the frame is drawn larger than the screen.
use vstd::prelude::*;

use crate::config::ONE_BITS;

verus! {

/// The bit pattern of infinity.
pub const INFINITY_BITS: u64 = 0x7ff0_0000_0000_0000;

/// The state of the pass: its factor, as an IEEE 754 bit pattern, whether there is an offscreen
/// target, and the size that one was allocated at.
#[derive(Debug, Clone, Copy, PartialEq, Eq)]
pub struct Dsr {
    pub multiplier: u64,
    pub has_offscreen: bool,
    pub last_render_size: Option<(i32, i32)>,
}

/// A factor greater than 1.
pub open spec fn enlarges(multiplier: u64) -> bool {
    ONE_BITS < multiplier <= INFINITY_BITS
}

impl Dsr {
    pub fn new(multiplier: u64) -> (r: Self)
        ensures
            r == (Dsr { multiplier, has_offscreen: false, last_render_size: None }),
    {
        Dsr { multiplier, has_offscreen: false, last_render_size: None }
    }

    /// Whether frames are drawn offscreen at all.
    pub fn active(&self) -> (r: bool)
        ensures
            r == enlarges(self.multiplier),
    {
        ONE_BITS < self.multiplier && self.multiplier <= INFINITY_BITS
    }

    /// The size to draw at, from the scaled and rounded one: not empty.
    pub fn render_size(&self, scaled_w: i32, scaled_h: i32) -> (r: (i32, i32))
        ensures
            r.0 == if scaled_w < 1 {
                1
            } else {
                scaled_w
            },
            r.1 == if scaled_h < 1 {
                1
            } else {
                scaled_h
            },
    {
        let w = if scaled_w < 1 {
            1
        } else {
            scaled_w
        };
        let h = if scaled_h < 1 {
            1
        } else {
            scaled_h
        };
        (w, h)
    }

    /// Whether a new target of that size is to be allocated.
    pub fn needs_offscreen(&self, size: (i32, i32)) -> (r: bool)
        ensures
            r == (!self.has_offscreen || self.last_render_size != Some(size)),
            r == wants_target(*self, size),
    {
        match self.last_render_size {
            Some(last) => !self.has_offscreen || last.0 != size.0 || last.1 != size.1,
            None => true,
        }
    }

    /// Notes that a target of that size was allocated.
    pub fn allocated(&mut self, size: (i32, i32))
        ensures
            *final(self) == (Dsr {
                has_offscreen: true,
                last_render_size: Some(size),
                ..*old(self)
            }),
    {
        self.has_offscreen = true;
        self.last_render_size = Some(size);
    }
}

/// A target that was allocated serves every frame of its size, and no other.
pub proof fn law_offscreen_is_kept_until_resize(d: Dsr, size: (i32, i32), next: (i32, i32))
    ensures
        ({
            let e = Dsr { has_offscreen: true, last_render_size: Some(size), ..d };
            (!e.has_offscreen || e.last_render_size != Some(next)) == (next != size)
        }),
{
}

/// A multiplier enlarges where it is a number above one: one itself does not, nor does anything
/// below it, nor what is no number at all, and what is larger than one that enlarges does so too, up
/// to infinity.
pub proof fn law_multiplier_enlarges_above_one(a: u64, b: u64)
    ensures
        !enlarges(0x3ff0_0000_0000_0000),
        enlarges(0x3ff0_0000_0000_0001),
        enlarges(0x7ff0_0000_0000_0000),
        enlarges(a) && a <= b <= 0x7ff0_0000_0000_0000 ==> enlarges(b),
        enlarges(b) && 0x3ff0_0000_0000_0000 < a <= b ==> enlarges(a),
        a > 0x7ff0_0000_0000_0000 ==> !enlarges(a),
        a <= 0x3ff0_0000_0000_0000 ==> !enlarges(a),
{
}

/// A target of that size is to be allocated.
pub open spec fn wants_target(d: Dsr, size: (i32, i32)) -> bool {
    !d.has_offscreen || d.last_render_size != Some(size)
}

/// Before there is a target one is wanted, and one that is there is wanted anew only in another size.
pub proof fn law_target_is_wanted_for_a_new_size(d: Dsr, size: (i32, i32), next: (i32, i32))
    ensures
        !d.has_offscreen ==> wants_target(d, size),
        wants_target(Dsr { has_offscreen: true, last_render_size: Some(size), ..d }, next) <==> next
            != size,
{
}

} // verus!
