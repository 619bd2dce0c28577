//! The alignment search: enumerates a bounded neighbourhood of
//! transformations around the identity, prunes it by a Manhattan budget and
//! by geometric feasibility on the 32x32 canvas, and produces one target
//! matrix per survivor. The stretch-only intermediate is memoized, since
//! every translation sharing a stretch reuses it.

use vstd::prelude::*;
use std::collections::HashMap;
use crate::gray::{
    GrayBuffer, stretch, create_square_image, make_bw, build_bit_mx_from_32_image, square_px,
    resize_of, bw_px,
};
use crate::matrix::{mx_bit, move_matrix, count_bits, build_mx_halo};
use crate::params::Parameters;
use crate::transformation::{Transformation, TargetMatrix, abs_int};

verus! {

broadcast use vstd::std_specs::hash::group_hash_axioms;

/// The identity transformation.
pub open spec fn spec_identity() -> Transformation {
    Transformation {
        horizontal_translate: 0,
        vertical_translate: 0,
        horizontal_stretch: 0,
        vertical_stretch: 0,
    }
}

/// Strict lexicographic order on transformations, in enumeration order:
/// horizontal translate, vertical translate, horizontal stretch, vertical
/// stretch.
pub open spec fn spec_lex_lt(a: Transformation, b: Transformation) -> bool {
    ||| a.horizontal_translate < b.horizontal_translate
    ||| (a.horizontal_translate == b.horizontal_translate && a.vertical_translate
        < b.vertical_translate)
    ||| (a.horizontal_translate == b.horizontal_translate && a.vertical_translate
        == b.vertical_translate && a.horizontal_stretch < b.horizontal_stretch)
    ||| (a.horizontal_translate == b.horizontal_translate && a.vertical_translate
        == b.vertical_translate && a.horizontal_stretch == b.horizontal_stretch
        && a.vertical_stretch < b.vertical_stretch)
}

/// Some emitted target carries the identity transformation.
pub open spec fn spec_has_identity(s: Seq<TargetMatrix>) -> bool {
    exists|j: int| 0 <= j < s.len() && (#[trigger] s[j].transform) == spec_identity()
}

/// Memoization key of a stretch-only intermediate.
pub open spec fn spec_stretch_key(hs: i32, vs: i32) -> u64 {
    ((hs as u32 as u64) << 32u64) | (vs as u32 as u64)
}

fn stretch_key(hs: i32, vs: i32) -> (r: u64)
    ensures
        r == spec_stretch_key(hs, vs),
{
    ((hs as u32 as u64) << 32u64) | (vs as u32 as u64)
}

proof fn lemma_stretch_key_injective(h1: i32, v1: i32, h2: i32, v2: i32)
    by (bit_vector)
    requires
        ((h1 as u32 as u64) << 32u64) | (v1 as u32 as u64) == ((h2 as u32 as u64) << 32u64) | (
        v2 as u32 as u64),
    ensures
        h1 == h2,
        v1 == v2,
{
}

/// Rounded-up half, toward positive infinity, of a small signed value.
pub open spec fn spec_ceil_half(v: int) -> int {
    if v >= 0 {
        (v + 1) / 2
    } else {
        -((-v) / 2)
    }
}

fn ceil_half(v: i32) -> (r: i32)
    requires
        -100 <= v <= 100,
    ensures
        r as int == spec_ceil_half(v as int),
{
    if v >= 0 {
        (v + 1) / 2
    } else {
        -((-v) / 2)
    }
}

fn abs_i32(v: i32) -> (r: i32)
    requires
        -100 <= v <= 100,
    ensures
        r as int == abs_int(v as int),
{
    if v < 0 {
        -v
    } else {
        v
    }
}

/// Whether one cell of the stretch-only intermediate is ink: the sharpened
/// base image of edge `bs`, resampled to `nw` by `nh`, centred on a white
/// 32x32 canvas, lies below the binarisation threshold there.
pub open spec fn spec_stretched_bit(
    base: Seq<u8>,
    bs: int,
    nw: int,
    nh: int,
    thr: u8,
    x: int,
    y: int,
) -> bool {
    &&& 0 <= x < 32
    &&& 0 <= y < 32
    &&& bw_px(square_px(resize_of(base, bs, bs, nw, nh), nw, nh, 32, x, y), thr) == 0
}

/// Whether one cell of the final target matrix for a transformation is ink:
/// the stretch-only intermediate, translated by the transformation, clipped
/// to the canvas.
pub open spec fn spec_target_bit(
    base: Seq<u8>,
    bs: int,
    thr: u8,
    t: Transformation,
    x: int,
    y: int,
) -> bool {
    &&& 0 <= x < 32
    &&& 0 <= y < 32
    &&& spec_stretched_bit(
        base,
        bs,
        bs + t.horizontal_stretch as int,
        bs + t.vertical_stretch as int,
        thr,
        x - t.horizontal_translate as int,
        y - t.vertical_translate as int,
    )
}

/// The Manhattan budget rule.
pub open spec fn spec_within_steps(t: Transformation, max_steps: int) -> bool {
    t.spec_steps() <= max_steps
}

/// The geometric feasibility rule: after stretching, the translation still
/// fits the unused canvas margin.
pub open spec fn spec_fits_canvas(t: Transformation, target_size: int) -> bool {
    let margin = (32 - target_size) / 2;
    &&& spec_ceil_half(t.horizontal_stretch as int) + abs_int(t.horizontal_translate as int)
        <= margin
    &&& spec_ceil_half(t.vertical_stretch as int) + abs_int(t.vertical_translate as int) <= margin
}

/// One target matrix of the search output is sound: tagged with the task's
/// character slot, obeying both pruning rules, carrying the configured halo
/// depth, and holding exactly the translated stretch intermediate.
pub open spec fn spec_target_ok(
    t: TargetMatrix,
    base: Seq<u8>,
    params: Parameters,
    char_index: u32,
    max_translate: int,
    max_stretch: int,
    max_steps: int,
) -> bool {
    &&& t.char_index == char_index
    &&& t.wf()
    &&& t.halo@.len() == params.spec_halo_layers()
    &&& -max_translate <= t.transform.horizontal_translate as int <= max_translate
    &&& -max_translate <= t.transform.vertical_translate as int <= max_translate
    &&& -max_stretch <= t.transform.horizontal_stretch as int <= max_stretch
    &&& -max_stretch <= t.transform.vertical_stretch as int <= max_stretch
    &&& spec_within_steps(t.transform, max_steps)
    &&& spec_fits_canvas(t.transform, params.target_size as int)
    &&& forall|x: int, y: int| #[trigger]
        mx_bit(t.matrix@, x, y) == spec_target_bit(
            base,
            params.target_size as int,
            params.pixel_rgba_threshold,
            t.transform,
            x,
            y,
        )
}

/// Memoization correctness: every target matrix is an exact translation of
/// the stretch-only intermediate shared by all transformations with the
/// same stretch — undoing a target's translation recovers the memoized
/// intermediate, re-clipped to the cells whose image stayed on the canvas.
pub proof fn lemma_memoization(
    base: Seq<u8>,
    bs: int,
    thr: u8,
    t: Transformation,
    m: Seq<u32>,
    sm: Seq<u32>,
    back: Seq<u32>,
)
    requires
        forall|x: int, y: int| #[trigger]
            mx_bit(sm, x, y) == spec_stretched_bit(
                base,
                bs,
                bs + t.horizontal_stretch as int,
                bs + t.vertical_stretch as int,
                thr,
                x,
                y,
            ),
        forall|x: int, y: int| #[trigger] mx_bit(m, x, y) == spec_target_bit(base, bs, thr, t, x, y),
        forall|x: int, y: int| #[trigger]
            mx_bit(back, x, y) == (0 <= x < 32 && 0 <= y < 32 && mx_bit(
                m,
                x + t.horizontal_translate as int,
                y + t.vertical_translate as int,
            )),
    ensures
        forall|x: int, y: int| #[trigger]
            mx_bit(back, x, y) == (mx_bit(sm, x, y) && 0 <= x + (t.horizontal_translate as int)
                < 32 && 0 <= y + (t.vertical_translate as int) < 32),
{
    assert forall|x: int, y: int| true implies #[trigger] mx_bit(back, x, y) == (mx_bit(sm, x, y)
        && 0 <= x + (t.horizontal_translate as int) < 32 && 0 <= y + (t.vertical_translate as int)
        < 32) by {
        let ht = t.horizontal_translate as int;
        let vt = t.vertical_translate as int;
        assert(mx_bit(back, x, y) == (0 <= x < 32 && 0 <= y < 32 && mx_bit(m, x + ht, y + vt)));
        assert(mx_bit(m, x + ht, y + vt) == spec_target_bit(base, bs, thr, t, x + ht, y + vt));
        assert(mx_bit(sm, x, y) == spec_stretched_bit(
            base,
            bs,
            bs + t.horizontal_stretch as int,
            bs + t.vertical_stretch as int,
            thr,
            x,
            y,
        ));
    }
}

/// The alignment search for one task: holds the sharpened base image and
/// the memoized stretch-only intermediates.
pub struct Transform {
    image: GrayBuffer,
    stretched_matrices: HashMap<u64, [u32; 32]>,
    char_index: u32,
    params: Parameters,
}

impl Transform {
    pub closed spec fn wf(self) -> bool {
        &&& self.params.wf()
        &&& self.image.wf()
        &&& self.image.width == self.params.target_size
        &&& self.image.height == self.params.target_size
        &&& forall|hs: i32, vs: i32|
            self.stretched_matrices@.contains_key(#[trigger] spec_stretch_key(hs, vs)) ==> {
                &&& 1 <= self.params.target_size as int + hs as int <= 32
                &&& 1 <= self.params.target_size as int + vs as int <= 32
                &&& forall|x: int, y: int| #[trigger]
                    mx_bit(self.stretched_matrices@[spec_stretch_key(hs, vs)]@, x, y)
                        == spec_stretched_bit(
                        self.image.pixels@,
                        self.params.target_size as int,
                        self.params.target_size as int + hs as int,
                        self.params.target_size as int + vs as int,
                        self.params.pixel_rgba_threshold,
                        x,
                        y,
                    )
            }
    }

    pub closed spec fn spec_image(self) -> Seq<u8> {
        self.image.pixels@
    }

    pub closed spec fn spec_params(self) -> Parameters {
        self.params
    }

    pub closed spec fn spec_char_index(self) -> u32 {
        self.char_index
    }

    /// Sets up the search for one task image: the sharpened, ratio-checked
    /// resize of the source, and an empty memo table.
    pub fn new(image: &GrayBuffer, char_index: u32, params: Parameters) -> (r: Transform)
        requires
            params.wf(),
            image.wf(),
            1 <= image.width,
            1 <= image.height,
        ensures
            r.wf(),
            r.spec_params() == params,
            r.spec_char_index() == char_index,
            r.spec_image() == crate::gray::sharpen_of(
                crate::gray::spec_check_ratio_px(
                    image.pixels@,
                    image.width as int,
                    image.height as int,
                    params.target_size as int,
                ),
                params.target_size as int,
                params.target_size as int,
            ),
    {
        let resized = crate::gray::stretch_check_ratio(image, params.target_size, params.target_size);
        let sharpened = crate::gray::sharpen_image(&resized);
        proof {
            assert(sharpened.pixels@ =~= crate::gray::sharpen_of(
                crate::gray::spec_check_ratio_px(
                    image.pixels@,
                    image.width as int,
                    image.height as int,
                    params.target_size as int,
                ),
                params.target_size as int,
                params.target_size as int,
            ));
        }
        Transform {
            image: sharpened,
            stretched_matrices: HashMap::new(),
            char_index,
            params,
        }
    }

    /// Looks up or builds the stretch-only intermediate for (hs, vs):
    /// resample the base to (target_size + hs, target_size + vs), centre it
    /// on a white 32x32 canvas, binarise, pack into a bit matrix.
    fn stretch_image(&mut self, parameters: &Transformation) -> (r: [u32; 32])
        requires
            old(self).wf(),
            1 <= old(self).params.target_size as int + parameters.horizontal_stretch as int <= 32,
            1 <= old(self).params.target_size as int + parameters.vertical_stretch as int <= 32,
        ensures
            final(self).wf(),
            final(self).spec_image() == old(self).spec_image(),
            final(self).spec_params() == old(self).spec_params(),
            final(self).spec_char_index() == old(self).spec_char_index(),
            forall|x: int, y: int| #[trigger]
                mx_bit(r@, x, y) == spec_stretched_bit(
                    old(self).image.pixels@,
                    old(self).params.target_size as int,
                    old(self).params.target_size as int + parameters.horizontal_stretch as int,
                    old(self).params.target_size as int + parameters.vertical_stretch as int,
                    old(self).params.pixel_rgba_threshold,
                    x,
                    y,
                ),
    {
        let h_s = parameters.horizontal_stretch;
        let v_s = parameters.vertical_stretch;
        let key = stretch_key(h_s, v_s);
        let cached: Option<[u32; 32]> = match self.stretched_matrices.get(&key) {
            Option::Some(m) => Option::Some(*m),
            Option::None => Option::None,
        };
        match cached {
            Option::Some(m) => m,
            Option::None => {
                let new_width: u32 = (self.params.target_size as i32 + h_s) as u32;
                let new_height: u32 = (self.params.target_size as i32 + v_s) as u32;
                let grayscale = stretch(&self.image, new_width, new_height);
                let square_grayscale = create_square_image(&grayscale, 32);
                let square_bw = make_bw(
                    &square_grayscale,
                    Option::Some(self.params.pixel_rgba_threshold),
                );
                let stretched = build_bit_mx_from_32_image(&square_bw);
                proof {
                    assert forall|x: int, y: int| true implies #[trigger] mx_bit(stretched@, x, y)
                        == spec_stretched_bit(
                        self.image.pixels@,
                        self.params.target_size as int,
                        self.params.target_size as int + h_s as int,
                        self.params.target_size as int + v_s as int,
                        self.params.pixel_rgba_threshold,
                        x,
                        y,
                    ) by {
                        if 0 <= x < 32 && 0 <= y < 32 {
                            assert(square_bw.px(x, y) == bw_px(square_grayscale.px(x, y),
                            self.params.pixel_rgba_threshold));
                            crate::gray::lemma_grid_index(x, y, 32, 32);
                        }
                    }
                }
                let ghost pre = self.stretched_matrices@;
                self.stretched_matrices.insert(key, stretched);
                proof {
                    assert forall|hs2: i32, vs2: i32|
                        self.stretched_matrices@.contains_key(
                            #[trigger] spec_stretch_key(hs2, vs2),
                        ) implies {
                        &&& 1 <= self.params.target_size as int + hs2 as int <= 32
                        &&& 1 <= self.params.target_size as int + vs2 as int <= 32
                        &&& forall|x: int, y: int| #[trigger]
                            mx_bit(self.stretched_matrices@[spec_stretch_key(hs2, vs2)]@, x, y)
                                == spec_stretched_bit(
                                self.image.pixels@,
                                self.params.target_size as int,
                                self.params.target_size as int + hs2 as int,
                                self.params.target_size as int + vs2 as int,
                                self.params.pixel_rgba_threshold,
                                x,
                                y,
                            )
                    } by {
                        if spec_stretch_key(hs2, vs2) == key {
                            lemma_stretch_key_injective(hs2, vs2, h_s, v_s);
                        } else {
                            assert(pre.contains_key(spec_stretch_key(hs2, vs2)));
                        }
                    }
                }
                stretched
            },
        }
    }

    /// The target matrix for one transformation: the memoized stretch
    /// intermediate translated by it, clipped to the canvas.
    fn build_matrix(&mut self, parameters: &Transformation) -> (r: [u32; 32])
        requires
            old(self).wf(),
            1 <= old(self).params.target_size as int + parameters.horizontal_stretch as int <= 32,
            1 <= old(self).params.target_size as int + parameters.vertical_stretch as int <= 32,
        ensures
            final(self).wf(),
            final(self).spec_image() == old(self).spec_image(),
            final(self).spec_params() == old(self).spec_params(),
            final(self).spec_char_index() == old(self).spec_char_index(),
            forall|x: int, y: int| #[trigger]
                mx_bit(r@, x, y) == spec_target_bit(
                    old(self).image.pixels@,
                    old(self).params.target_size as int,
                    old(self).params.pixel_rgba_threshold,
                    *parameters,
                    x,
                    y,
                ),
    {
        let mut stretched = self.stretch_image(parameters);
        Self::translate_matrix(&mut stretched, parameters);
        stretched
    }

    /// Applies the translation component of a transformation to a matrix.
    fn translate_matrix(mx: &mut [u32; 32], parameters: &Transformation)
        ensures
            forall|x: int, y: int| #[trigger]
                mx_bit(final(mx)@, x, y) == (0 <= x < 32 && 0 <= y < 32 && mx_bit(
                    old(mx)@,
                    x - parameters.horizontal_translate as int,
                    y - parameters.vertical_translate as int,
                )),
    {
        move_matrix(mx, parameters.horizontal_translate, parameters.vertical_translate)
    }

    /// Enumerates the bounded 4-dimensional box of transformations around
    /// the identity, skipping every point that breaks the Manhattan budget
    /// or the geometric canvas rule (the cheap check runs first), and emits
    /// one target matrix per survivor. The identity is always explored.
    pub fn run(&mut self, max_translate: i32, max_stretch: i32, max_steps: i32) -> (targets: Vec<
        TargetMatrix,
    >)
        requires
            old(self).wf(),
            0 <= max_translate <= 8,
            0 <= max_stretch <= 8,
            (max_stretch as int) < old(self).spec_params().target_size as int,
            0 <= max_steps <= 32,
        ensures
            final(self).wf(),
            final(self).spec_image() == old(self).spec_image(),
            final(self).spec_params() == old(self).spec_params(),
            final(self).spec_char_index() == old(self).spec_char_index(),
            forall|j: int|
                0 <= j < targets@.len() ==> spec_target_ok(
                    #[trigger] targets@[j],
                    old(self).spec_image(),
                    old(self).spec_params(),
                    old(self).spec_char_index(),
                    max_translate as int,
                    max_stretch as int,
                    max_steps as int,
                ),
            spec_has_identity(targets@),
            forall|j1: int, j2: int|
                0 <= j1 < j2 < targets@.len() ==> spec_lex_lt(
                    (#[trigger] targets@[j1]).transform,
                    (#[trigger] targets@[j2]).transform,
                ),
    {
        let ghost base = old(self).spec_image();
        let ghost ps = old(self).spec_params();
        let ghost ci = old(self).spec_char_index();
        let margin: i32 = ((32 - self.params.target_size) / 2) as i32;
        let mut targets: Vec<TargetMatrix> = Vec::new();
        let mut ht: i32 = -max_translate;
        while ht <= max_translate
            invariant
                self.wf(),
                self.spec_image() == base,
                self.spec_params() == ps,
                self.spec_char_index() == ci,
                ps.wf(),
                0 <= max_translate <= 8,
                0 <= max_stretch <= 8,
                (max_stretch as int) < ps.target_size as int,
                0 <= max_steps <= 32,
                margin as int == (32 - ps.target_size as int) / 2,
                -max_translate <= ht <= max_translate + 1,
                forall|j: int|
                    0 <= j < targets@.len() ==> spec_target_ok(
                        #[trigger] targets@[j],
                        base,
                        ps,
                        ci,
                        max_translate as int,
                        max_stretch as int,
                        max_steps as int,
                    ),
                forall|j1: int, j2: int|
                    0 <= j1 < j2 < targets@.len() ==> spec_lex_lt(
                        (#[trigger] targets@[j1]).transform,
                        (#[trigger] targets@[j2]).transform,
                    ),
                forall|j: int|
                    0 <= j < targets@.len() ==> spec_lex_lt(
                        (#[trigger] targets@[j]).transform,
                        Transformation {
                            horizontal_translate: ht,
                            vertical_translate: (-max_translate) as i32,
                            horizontal_stretch: (-max_stretch) as i32,
                            vertical_stretch: (-max_stretch) as i32,
                        },
                    ),
                ht > 0 ==> spec_has_identity(targets@),
            decreases max_translate + 1 - ht,
        {
            let mut vt: i32 = -max_translate;
            while vt <= max_translate
                invariant
                    self.wf(),
                    self.spec_image() == base,
                    self.spec_params() == ps,
                    self.spec_char_index() == ci,
                    ps.wf(),
                    0 <= max_translate <= 8,
                    0 <= max_stretch <= 8,
                    (max_stretch as int) < ps.target_size as int,
                    0 <= max_steps <= 32,
                    margin as int == (32 - ps.target_size as int) / 2,
                    -max_translate <= ht <= max_translate,
                    -max_translate <= vt <= max_translate + 1,
                    forall|j: int|
                        0 <= j < targets@.len() ==> spec_target_ok(
                            #[trigger] targets@[j],
                            base,
                            ps,
                            ci,
                            max_translate as int,
                            max_stretch as int,
                            max_steps as int,
                        ),
                forall|j1: int, j2: int|
                    0 <= j1 < j2 < targets@.len() ==> spec_lex_lt(
                        (#[trigger] targets@[j1]).transform,
                        (#[trigger] targets@[j2]).transform,
                    ),
                    forall|j: int|
                        0 <= j < targets@.len() ==> spec_lex_lt(
                            (#[trigger] targets@[j]).transform,
                            Transformation {
                                horizontal_translate: ht,
                                vertical_translate: vt,
                                horizontal_stretch: (-max_stretch) as i32,
                                vertical_stretch: (-max_stretch) as i32,
                            },
                        ),
                    ht > 0 || (ht == 0 && vt > 0) ==> spec_has_identity(targets@),
                decreases max_translate + 1 - vt,
            {
                let mut hs: i32 = -max_stretch;
                while hs <= max_stretch
                    invariant
                        self.wf(),
                        self.spec_image() == base,
                        self.spec_params() == ps,
                        self.spec_char_index() == ci,
                        ps.wf(),
                        0 <= max_translate <= 8,
                        0 <= max_stretch <= 8,
                        (max_stretch as int) < ps.target_size as int,
                        0 <= max_steps <= 32,
                        margin as int == (32 - ps.target_size as int) / 2,
                        -max_translate <= ht <= max_translate,
                        -max_translate <= vt <= max_translate,
                        -max_stretch <= hs <= max_stretch + 1,
                        forall|j: int|
                            0 <= j < targets@.len() ==> spec_target_ok(
                                #[trigger] targets@[j],
                                base,
                                ps,
                                ci,
                                max_translate as int,
                                max_stretch as int,
                                max_steps as int,
                            ),
                forall|j1: int, j2: int|
                    0 <= j1 < j2 < targets@.len() ==> spec_lex_lt(
                        (#[trigger] targets@[j1]).transform,
                        (#[trigger] targets@[j2]).transform,
                    ),
                        forall|j: int|
                            0 <= j < targets@.len() ==> spec_lex_lt(
                                (#[trigger] targets@[j]).transform,
                                Transformation {
                                    horizontal_translate: ht,
                                    vertical_translate: vt,
                                    horizontal_stretch: hs,
                                    vertical_stretch: (-max_stretch) as i32,
                                },
                            ),
                        ht > 0 || (ht == 0 && (vt > 0 || (vt == 0 && hs > 0)))
                            ==> spec_has_identity(targets@),
                    decreases max_stretch + 1 - hs,
                {
                    let mut vs: i32 = -max_stretch;
                    while vs <= max_stretch
                        invariant
                            self.wf(),
                            self.spec_image() == base,
                            self.spec_params() == ps,
                            self.spec_char_index() == ci,
                            ps.wf(),
                            0 <= max_translate <= 8,
                            0 <= max_stretch <= 8,
                            (max_stretch as int) < ps.target_size as int,
                            0 <= max_steps <= 32,
                            margin as int == (32 - ps.target_size as int) / 2,
                            -max_translate <= ht <= max_translate,
                            -max_translate <= vt <= max_translate,
                            -max_stretch <= hs <= max_stretch,
                            -max_stretch <= vs <= max_stretch + 1,
                            forall|j: int|
                                0 <= j < targets@.len() ==> spec_target_ok(
                                    #[trigger] targets@[j],
                                    base,
                                    ps,
                                    ci,
                                    max_translate as int,
                                    max_stretch as int,
                                    max_steps as int,
                                ),
                forall|j1: int, j2: int|
                    0 <= j1 < j2 < targets@.len() ==> spec_lex_lt(
                        (#[trigger] targets@[j1]).transform,
                        (#[trigger] targets@[j2]).transform,
                    ),
                            forall|j: int|
                                0 <= j < targets@.len() ==> spec_lex_lt(
                                    (#[trigger] targets@[j]).transform,
                                    Transformation {
                                        horizontal_translate: ht,
                                        vertical_translate: vt,
                                        horizontal_stretch: hs,
                                        vertical_stretch: vs,
                                    },
                                ),
                            ht > 0 || (ht == 0 && (vt > 0 || (vt == 0 && (hs > 0 || (hs == 0 && vs
                                > 0))))) ==> spec_has_identity(targets@),
                        decreases max_stretch + 1 - vs,
                    {
                        let steps = abs_i32(ht) + abs_i32(vt) + abs_i32(hs) + abs_i32(vs);
                        let h_fit = ceil_half(hs) + abs_i32(ht);
                        let v_fit = ceil_half(vs) + abs_i32(vt);
                        if steps <= max_steps && h_fit <= margin && v_fit <= margin {
                            let parameters = Transformation::new(ht, vt, hs, vs);
                            proof {
                                assert(hs as int <= 2 * spec_ceil_half(hs as int));
                                assert(2 * ((32 - ps.target_size as int) / 2) <= 32
                                    - ps.target_size as int);
                            }
                            let ghost pre = targets@;
                            let tm = self.transform(parameters);
                            targets.push(tm);
                            proof {
                                assert(spec_target_ok(
                                    tm,
                                    base,
                                    ps,
                                    ci,
                                    max_translate as int,
                                    max_stretch as int,
                                    max_steps as int,
                                ));
                                assert(forall|j: int|
                                    0 <= j < pre.len() ==> targets@[j] == #[trigger] pre[j]);
                                if spec_has_identity(pre) {
                                    let j0 = choose|j: int|
                                        0 <= j < pre.len() && (#[trigger] pre[j].transform)
                                            == spec_identity();
                                    assert(targets@[j0].transform == spec_identity());
                                }
                                if ht == 0 && vt == 0 && hs == 0 && vs == 0 {
                                    assert(targets@[pre.len() as int].transform
                                        == spec_identity());
                                }
                                assert(targets@[pre.len() as int].transform == parameters);
                                assert forall|j1: int, j2: int|
                                    0 <= j1 < j2 < targets@.len() implies spec_lex_lt(
                                    (#[trigger] targets@[j1]).transform,
                                    (#[trigger] targets@[j2]).transform,
                                ) by {
                                    if j2 < pre.len() {
                                        assert(targets@[j1] == pre[j1]);
                                        assert(targets@[j2] == pre[j2]);
                                    } else {
                                        assert(targets@[j1] == pre[j1]);
                                    }
                                }
                            }
                        }
                        vs = vs + 1;
                    }
                    hs = hs + 1;
                }
                vt = vt + 1;
            }
            ht = ht + 1;
        }
        targets
    }

    /// Builds the full target for one transformation: matrix, halo layers
    /// and pixel count, tagged with the task's character slot.
    fn transform(&mut self, parameters: Transformation) -> (r: TargetMatrix)
        requires
            old(self).wf(),
            1 <= old(self).params.target_size as int + parameters.horizontal_stretch as int <= 32,
            1 <= old(self).params.target_size as int + parameters.vertical_stretch as int <= 32,
        ensures
            final(self).wf(),
            final(self).spec_image() == old(self).spec_image(),
            final(self).spec_params() == old(self).spec_params(),
            final(self).spec_char_index() == old(self).spec_char_index(),
            r.char_index == old(self).char_index,
            r.transform == parameters,
            r.wf(),
            r.halo@.len() == old(self).params.spec_halo_layers(),
            forall|x: int, y: int| #[trigger]
                mx_bit(r.matrix@, x, y) == spec_target_bit(
                    old(self).image.pixels@,
                    old(self).params.target_size as int,
                    old(self).params.pixel_rgba_threshold,
                    parameters,
                    x,
                    y,
                ),
    {
        let mx = self.build_matrix(&parameters);
        let mut grown = mx;
        let halo = build_mx_halo(&mut grown, self.params.halo_layers());
        let pixels = count_bits(&mx);
        TargetMatrix::new(mx, pixels, halo, self.char_index, parameters)
    }
}

} // verus!
