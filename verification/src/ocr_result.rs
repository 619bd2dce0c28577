//! One scored comparison between a target matrix and a reference glyph.

use vstd::prelude::*;
use crate::transformation::TargetMatrix;
use crate::reference::ReferenceMatrix;

verus! {

/// The outcome of scoring one (target, reference) pair: the raw overlap
/// counts, the combined score, the normalised tie-break score, and whether
/// the refinement pass has already run over it.
#[derive(Debug)]
pub struct OCRResult {
    pub target: TargetMatrix,
    pub reference: ReferenceMatrix,
    pub black_pixels: u32,
    pub white_pixels: u32,
    pub target_halo_pixels: u32,
    pub reference_halo_pixels: u32,
    pub score: u32,
    pub avg_score: u32,
    pub refined_alignment: bool,
}

impl OCRResult {
    /// An unscored pairing of a target with a reference.
    pub fn new(target: TargetMatrix, reference: ReferenceMatrix) -> (r: OCRResult)
        ensures
            r.target == target,
            r.reference == reference,
            r.black_pixels == 0,
            r.white_pixels == 0,
            r.target_halo_pixels == 0,
            r.reference_halo_pixels == 0,
            r.score == 0,
            r.avg_score == 0,
            r.refined_alignment == false,
    {
        OCRResult {
            target,
            reference,
            black_pixels: 0,
            white_pixels: 0,
            target_halo_pixels: 0,
            reference_halo_pixels: 0,
            score: 0,
            avg_score: 0,
            refined_alignment: false,
        }
    }

    /// The character of the reference glyph this result scored against.
    pub fn get_character(&self) -> (c: char)
        ensures
            c == self.reference.character,
    {
        self.reference.character
    }
}

} // verus!
