//! One character-matching job: a cropped glyph image in, a ranked candidate
//! list out.

use vstd::prelude::*;
use crate::gray::GrayBuffer;
use crate::ocr_result::OCRResult;

verus! {

/// One matching job for one sub-image. The image starts as the cropped
/// source and is replaced in place by its binarised form while the task is
/// processed; the results are ordered best first once the task completes.
#[derive(Debug)]
pub struct OCRTask {
    pub image: GrayBuffer,
    pub char_index: Option<u32>,
    pub results: Vec<OCRResult>,
    pub column_changed: bool,
}

impl OCRTask {
    pub fn new(image: GrayBuffer) -> (r: OCRTask)
        ensures
            r.image == image,
            r.char_index is None,
            r.results@.len() == 0,
            r.column_changed == false,
    {
        OCRTask { image, char_index: None, results: Vec::new(), column_changed: false }
    }

    /// The best-matching character, absent when the task has no results.
    pub fn get_character(&self) -> (c: Option<char>)
        ensures
            self.results@.len() > 0 ==> c == Some(self.results@[0].reference.character),
            self.results@.len() == 0 ==> c is None,
    {
        if self.results.len() > 0 {
            Some(self.results[0].get_character())
        } else {
            None
        }
    }

    /// All candidate characters of one finished job, best first, concatenated.
    pub fn get_result_string(&self) -> (r: String)
        ensures
            r@.len() == self.results@.len(),
            forall|j: int|
                0 <= j < self.results@.len() ==> r@[j] == (
                #[trigger] self.results@[j]).reference.character,
    {
        let mut string = String::new();
        let mut i: usize = 0;
        while i < self.results.len()
            invariant
                i <= self.results@.len(),
                string@.len() == i as int,
                forall|j: int|
                    0 <= j < i as int ==> string@[j] == (
                    #[trigger] self.results@[j]).reference.character,
            decreases self.results@.len() - i,
        {
            crate::util::push_char(&mut string, self.results[i].get_character());
            i = i + 1;
        }
        string
    }
}

} // verus!
