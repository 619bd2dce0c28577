//! The engine's configuration: canonical glyph size, alignment search
//! bounds, halo depth, scoring weights and scheduler sizing. Passed
//! explicitly to every component instead of living in process-wide state,
//! so parallel runs may use different configurations.

use vstd::prelude::*;

verus! {

/// Upper bound used by the well-formedness conditions on every scoring
/// weight, so that a whole score always fits comfortably in an `i64`.
pub open spec fn weight_limit() -> int {
    1000000
}

#[derive(Clone, Copy, Debug, PartialEq)]
pub struct Parameters {
    /// Edge length the source glyph is normalised to before alignment.
    pub target_size: u32,
    /// Largest explored translation along either axis.
    pub max_translate: i32,
    /// Largest explored stretch along either axis.
    pub max_stretch: i32,
    /// Manhattan budget over all four transformation components.
    pub max_steps: i32,
    /// Channel threshold below which a pixel counts as ink.
    pub pixel_rgba_threshold: u8,
    /// Halo depth; a matrix carries one halo layer fewer than this.
    pub ocr_halo_size: u32,
    /// Score awarded per pixel set in both target and reference.
    pub ocr_black_pixel_score: i64,
    /// Score awarded per pixel clear in both target and reference.
    pub ocr_white_score: i64,
    /// Penalty (zero or negative) per reference pixel inside each target
    /// halo layer; entry `i` weighs layer `i`.
    pub ocr_target_halo_scores: [i64; 4],
    /// Penalty per target pixel inside each reference halo layer.
    pub ocr_reference_halo_scores: [i64; 4],
    /// Penalty per target pixel that lies outside the reference glyph and
    /// all of its halo layers.
    pub ocr_connected_halo_pixels_score: i64,
    /// Score every comparison starts from.
    pub ocr_base_score: i64,
    /// How many results a task keeps after the first scoring pass.
    pub ocr_keep_results_lvl1: u32,
    /// How many of those go through the refinement pass.
    pub ocr_keep_results_lvl2: u32,
    /// Largest number of results a task reports.
    pub ocr_max_characters: u32,
    /// Size of the scheduler's worker pool.
    pub ocr_threads: usize,
}

impl Parameters {
    /// Bounds every component relies on: a glyph that fits the 32x32
    /// canvas, search bounds small enough for the canvas margin arithmetic,
    /// at least one halo layer of weights, and weights small enough that no
    /// score can overflow.
    pub open spec fn wf(self) -> bool {
        &&& 8 <= self.target_size <= 32
        &&& 0 <= self.max_translate <= 8
        &&& 0 <= self.max_stretch <= 8
        &&& (self.max_stretch as int) < self.target_size as int
        &&& 0 <= self.max_steps <= 32
        &&& 1 <= self.ocr_halo_size <= 5
        &&& 0 <= self.ocr_black_pixel_score <= weight_limit()
        &&& 0 <= self.ocr_white_score <= weight_limit()
        &&& forall|i: int|
            0 <= i < 4 ==> -weight_limit() <= #[trigger] self.ocr_target_halo_scores[i] <= 0
        &&& forall|i: int|
            0 <= i < 4 ==> -weight_limit() <= #[trigger] self.ocr_reference_halo_scores[i] <= 0
        &&& -weight_limit() <= self.ocr_connected_halo_pixels_score <= 0
        &&& -1000000000 <= self.ocr_base_score <= 1000000000
        &&& 1 <= self.ocr_max_characters <= 1000
        &&& 1 <= self.ocr_keep_results_lvl1 <= 1000
        &&& 1 <= self.ocr_keep_results_lvl2 <= 1000
        &&& 1 <= self.ocr_threads <= 256
    }

    /// Number of halo layers carried by every matrix under this
    /// configuration.
    pub open spec fn spec_halo_layers(self) -> int {
        self.ocr_halo_size as int - 1
    }

    pub fn halo_layers(&self) -> (r: u32)
        requires
            self.wf(),
        ensures
            r as int == self.spec_halo_layers(),
    {
        self.ocr_halo_size - 1
    }
}

impl Default for Parameters {
    /// The engine's stock tuning.
    fn default() -> (r: Parameters)
        ensures
            r.wf(),
            r.target_size == 30,
            r.max_translate == 1,
            r.max_stretch == 2,
            r.max_steps == 3,
            r.pixel_rgba_threshold == 140,
            r.ocr_halo_size == 3,
            r.ocr_black_pixel_score == 4,
            r.ocr_white_score == 4,
            r.ocr_target_halo_scores@ == seq![-1i64, -5i64, -12i64, -12i64],
            r.ocr_reference_halo_scores@ == seq![-1i64, -4i64, -10i64, -10i64],
            r.ocr_connected_halo_pixels_score == -5,
            r.ocr_base_score == 1000,
            r.ocr_keep_results_lvl1 == 50,
            r.ocr_keep_results_lvl2 == 12,
            r.ocr_max_characters == 8,
            r.ocr_threads == 8,
    {
        Parameters {
            target_size: 30,
            max_translate: 1,
            max_stretch: 2,
            max_steps: 3,
            pixel_rgba_threshold: 140,
            ocr_halo_size: 3,
            ocr_black_pixel_score: 4,
            ocr_white_score: 4,
            ocr_target_halo_scores: [-1, -5, -12, -12],
            ocr_reference_halo_scores: [-1, -4, -10, -10],
            ocr_connected_halo_pixels_score: -5,
            ocr_base_score: 1000,
            ocr_keep_results_lvl1: 50,
            ocr_keep_results_lvl2: 12,
            ocr_max_characters: 8,
            ocr_threads: 8,
        }
    }
}

} // verus!
