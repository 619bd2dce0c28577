//! One point of the alignment search space: a translation and a stretch
//! along each axis, plus the target matrix produced by applying it.

use vstd::prelude::*;
use crate::matrix::{mx_bit, pop_mx, ring_bit};

verus! {

/// A 4-tuple (horizontal translate, vertical translate, horizontal stretch,
/// vertical stretch) identifying one explored alignment. Equality and
/// hashing are structural.
#[derive(Clone, Copy, Debug, PartialEq, Eq, Hash, Structural)]
pub struct Transformation {
    pub horizontal_translate: i32,
    pub vertical_translate: i32,
    pub horizontal_stretch: i32,
    pub vertical_stretch: i32,
}

impl Transformation {
    pub fn new(h_t: i32, v_t: i32, h_s: i32, v_s: i32) -> (r: Transformation)
        ensures
            r.horizontal_translate == h_t,
            r.vertical_translate == v_t,
            r.horizontal_stretch == h_s,
            r.vertical_stretch == v_s,
    {
        Transformation {
            horizontal_translate: h_t,
            horizontal_stretch: h_s,
            vertical_translate: v_t,
            vertical_stretch: v_s,
        }
    }

    /// True when this transformation is exactly the given 4-tuple.
    pub fn contains(&self, h_t: i32, v_t: i32, h_s: i32, v_s: i32) -> (r: bool)
        ensures
            r == (self.horizontal_translate == h_t && self.vertical_translate == v_t
                && self.horizontal_stretch == h_s && self.vertical_stretch == v_s),
    {
        self.horizontal_translate == h_t && self.vertical_translate == v_t
            && self.horizontal_stretch == h_s && self.vertical_stretch == v_s
    }

    /// Sum of the absolute values of all four components.
    pub open spec fn spec_steps(self) -> int {
        abs_int(self.horizontal_translate as int) + abs_int(self.vertical_translate as int)
            + abs_int(self.horizontal_stretch as int) + abs_int(self.vertical_stretch as int)
    }
}

pub open spec fn abs_int(v: int) -> int {
    if v < 0 {
        -v
    } else {
        v
    }
}

/// A target bitmap produced for one explored transformation, with its
/// pre-computed pixel count and halo layers.
#[derive(Debug)]
pub struct TargetMatrix {
    pub matrix: [u32; 32],
    pub pixels: u32,
    pub halo: Vec<[u32; 32]>,
    pub char_index: u32,
    pub transform: Transformation,
}

impl TargetMatrix {
    pub fn new(
        matrix: [u32; 32],
        pixels: u32,
        halo: Vec<[u32; 32]>,
        char_index: u32,
        transform: Transformation,
    ) -> (r: TargetMatrix)
        ensures
            r.matrix == matrix,
            r.pixels == pixels,
            r.halo == halo,
            r.char_index == char_index,
            r.transform == transform,
    {
        TargetMatrix { matrix, pixels, halo, char_index, transform }
    }

    /// Internal consistency: the pixel count is the matrix's population
    /// and every halo entry is the matching dilation ring of the matrix.
    pub open spec fn wf(self) -> bool {
        &&& self.pixels as int == pop_mx(self.matrix@)
        &&& forall|i: int, x: int, y: int|
            0 <= i < self.halo@.len() ==> (#[trigger] mx_bit(self.halo@[i]@, x, y) == ring_bit(
                self.matrix@,
                (i + 1) as nat,
                x,
                y,
            ))
    }

    /// An equal-valued copy.
    pub fn duplicate(&self) -> (r: TargetMatrix)
        ensures
            r.matrix == self.matrix,
            r.pixels == self.pixels,
            r.halo@ == self.halo@,
            r.char_index == self.char_index,
            r.transform == self.transform,
    {
        TargetMatrix {
            matrix: self.matrix,
            pixels: self.pixels,
            halo: crate::util::copy_vec(&self.halo),
            char_index: self.char_index,
            transform: self.transform,
        }
    }
}

} // verus!
