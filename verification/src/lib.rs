//! Matching engine for CJK glyph recognition: packed 32x32 bit matrices,
//! a geometric alignment search, overlap scoring against a reference
//! dictionary, and a worker-pool scheduler for independent matching jobs.

pub mod error;
pub mod gray;
pub mod matcher;
pub mod ocr_manager;
pub mod ocr_result;
pub mod ocr_task;
pub mod matrix;
pub mod params;
pub mod reference;
pub mod transform_search;
pub mod transformation;
pub mod util;

use std::sync::Arc;
use vstd::prelude::*;
use vstd::string::StrSliceExecFns;
use crate::error::KanjitomoError;
use crate::gray::GrayBuffer;
use crate::ocr_manager::OCRManager;
use crate::ocr_task::OCRTask;
use crate::params::Parameters;
use crate::reference::ReferenceMatrixCache;
use crate::util::{is_kanji, spec_is_kanji};

verus! {

broadcast use vstd::seq_lib::group_to_multiset_ensures;

/// An axis-aligned rectangle given by its top-left corner and extent.
#[derive(Copy, Clone, Debug, PartialEq, Eq, Hash, Structural)]
pub struct Rect {
    /// The x coordinate of the top left corner.
    pub x: u32,
    /// The y coordinate of the top left corner.
    pub y: u32,
    /// The rectangle's width.
    pub width: u32,
    /// The rectangle's height.
    pub height: u32,
}

/// A point in image coordinates.
#[derive(Copy, Clone, Debug, PartialEq, Eq, Structural)]
pub struct Point {
    pub x: u32,
    pub y: u32,
}

/// Reading direction of the text being recognised.
#[derive(Debug, Eq, PartialEq, Structural)]
pub enum Orientation {
    Auto,
    Vertical,
    Horizontal,
}

/// Expected polarity of the glyphs against their background.
#[derive(Debug, Eq, PartialEq, Structural)]
pub enum CharacterColor {
    Auto,
    BlackOnWhite,
    WhiteOnBlack,
}

/// Which dictionary a lookup result came from.
#[derive(Debug, Eq, PartialEq)]
pub enum DictionaryType {
    JapaneseDefault(String),
    JapaneseNames(String),
    Chinese(String),
}

/// Aggregated output of one recognition run: the best candidate characters,
/// the per-position candidates with their scores, and the concatenated
/// best-match string.
#[derive(Debug)]
pub struct OCRResult {
    pub best_matching_characters: Vec<String>,
    pub characters: Vec<IdentifiedCharacter>,
    pub search_string: String,
}

/// Candidates identified for one character position.
#[derive(Debug)]
pub struct IdentifiedCharacter {
    /// The candidate characters, best first.
    pub reference_characters: String,
    /// One score per candidate, in the same order.
    pub scores: Vec<u32>,
    /// Where in the source image the character sits.
    pub location: Rect,
}

impl IdentifiedCharacter {
    pub fn new(matched_characters: String, location: Rect, scores: Vec<u32>) -> (r:
        IdentifiedCharacter)
        ensures
            r.reference_characters@ == matched_characters@,
            r.location == location,
            r.scores@ == scores@,
    {
        IdentifiedCharacter { reference_characters: matched_characters, location, scores }
    }
}

/// Number of kanji among the first `n` characters of `s`.
pub open spec fn spec_kanji_count(s: Seq<char>, n: int) -> int
    decreases n,
{
    if n <= 0 {
        0
    } else {
        spec_kanji_count(s, n - 1) + (if spec_is_kanji(s[n - 1]) {
            1int
        } else {
            0int
        })
    }
}

/// The common-word marker appears somewhere in `s`.
pub open spec fn spec_has_common_marker(s: Seq<char>) -> bool {
    exists|i: int|
        0 <= i && i + 2 < s.len() && s[i] == '(' && #[trigger] s[i + 1] == 'P' && s[i + 2] == ')'
}

/// A dictionary word: its kanji writing, its reading, a description, and
/// derived facts — how many kanji the writing holds and whether the
/// description carries the common-word marker.
#[derive(Debug, PartialEq, Eq)]
pub struct Word {
    pub kanji: String,
    pub kana: String,
    pub description: String,
    pub common: bool,
    pub name: bool,
    pub kanji_count: u32,
}

impl Word {
    pub fn new(kanji: String, kana: String, description: String, name: bool) -> (r: Word)
        requires
            kanji@.len() < 4294967295,
        ensures
            r.kanji@ == kanji@,
            r.kana@ == kana@,
            r.description@ == description@,
            r.name == name,
            r.kanji_count as int == spec_kanji_count(kanji@, kanji@.len() as int),
            r.common == spec_has_common_marker(description@),
    {
        let n: usize = kanji.as_str().unicode_len();
        let mut kanji_count: u32 = 0;
        let mut i: usize = 0;
        while i < n
            invariant
                n == kanji@.len(),
                kanji@.len() < 4294967295,
                i <= n,
                kanji_count <= i,
                kanji_count as int == spec_kanji_count(kanji@, i as int),
            decreases n - i,
        {
            if is_kanji(kanji.as_str().get_char(i)) {
                kanji_count = kanji_count + 1;
            }
            i = i + 1;
        }
        let dn: usize = description.as_str().unicode_len();
        let mut common = false;
        if dn >= 3 {
            let mut j: usize = 0;
            while j < dn - 2
                invariant
                    dn == description@.len(),
                    3 <= dn,
                    j <= dn - 2,
                    !common ==> forall|k: int|
                        0 <= k < j as int ==> !(description@[k] == '(' && #[trigger] description@[k
                            + 1] == 'P' && description@[k + 2] == ')'),
                    common ==> spec_has_common_marker(description@),
                decreases dn - j,
            {
                if !common {
                    let c0 = description.as_str().get_char(j);
                    let c1 = description.as_str().get_char(j + 1);
                    let c2 = description.as_str().get_char(j + 2);
                    if c0 == '(' && c1 == 'P' && c2 == ')' {
                        common = true;
                    }
                }
                j = j + 1;
            }
            proof {
                if !common {
                    assert forall|k: int|
                        !(0 <= k && k + 2 < description@.len() && description@[k] == '('
                            && #[trigger] description@[k + 1] == 'P' && description@[k + 2]
                            == ')') by {
                        if 0 <= k && k + 2 < description@.len() {
                            assert(k < dn as int - 2);
                        }
                    }
                }
            }
        }
        Word { kanji, kana, description, name, common, kanji_count }
    }
}

/// Best candidate character of one task, if the task has any result.
pub open spec fn spec_top_chars(ts: Seq<OCRTask>, k: int) -> Seq<char>
    decreases k,
{
    if k <= 0 {
        Seq::empty()
    } else {
        spec_top_chars(ts, k - 1) + (if ts[k - 1].results@.len() > 0 {
            seq![ts[k - 1].results@[0].reference.character]
        } else {
            Seq::empty()
        })
    }
}

/// The sort key a finished batch is ordered by: the task's position within
/// the source line.
pub open spec fn spec_task_key(t: OCRTask) -> int {
    match t.char_index {
        Some(i) => i as int,
        None => 0,
    }
}

fn task_key(t: &OCRTask) -> (r: u32)
    ensures
        r as int == spec_task_key(*t),
{
    match t.char_index {
        Some(i) => i,
        None => 0,
    }
}

/// Orders a finished batch by character position; the output is a
/// permutation of the input.
pub fn sort_tasks(input: Vec<OCRTask>) -> (r: Vec<OCRTask>)
    ensures
        r@.len() == input@.len(),
        r@.to_multiset() == input@.to_multiset(),
        forall|i: int, j: int|
            0 <= i < j < r@.len() ==> spec_task_key(#[trigger] r@[i]) <= spec_task_key(
                #[trigger] r@[j],
            ),
{
    let ghost orig = input@;
    let mut rest = input;
    let mut out: Vec<OCRTask> = Vec::new();
    proof {
        assert(out@.to_multiset().add(rest@.to_multiset()) =~= orig.to_multiset());
    }
    while rest.len() > 0
        invariant
            forall|i: int, j: int|
                0 <= i < j < out@.len() ==> spec_task_key(#[trigger] out@[i]) <= spec_task_key(
                    #[trigger] out@[j],
                ),
            forall|a: int, b: int|
                0 <= a < out@.len() && 0 <= b < rest@.len() ==> spec_task_key(#[trigger] out@[a])
                    <= spec_task_key(#[trigger] rest@[b]),
            out@.to_multiset().add(rest@.to_multiset()) == orig.to_multiset(),
            out@.len() + rest@.len() == orig.len(),
        decreases rest@.len(),
    {
        let mut best: usize = 0;
        let mut j: usize = 1;
        while j < rest.len()
            invariant
                rest@.len() > 0,
                best < j,
                j <= rest@.len(),
                forall|k: int|
                    0 <= k < j as int ==> spec_task_key(rest@[best as int]) <= spec_task_key(
                        #[trigger] rest@[k],
                    ),
            decreases rest@.len() - j,
        {
            if task_key(&rest[j]) < task_key(&rest[best]) {
                best = j;
            }
            j = j + 1;
        }
        let ghost rest_pre = rest@;
        let ghost out_pre = out@;
        let e = rest.remove(best);
        out.push(e);
        proof {
            rest_pre.remove_ensures(best as int);
            assert(rest_pre.contains(e));
            assert(rest_pre.to_multiset().count(e) > 0);
            assert(rest@.to_multiset() =~= rest_pre.to_multiset().remove(e));
            assert(out@.to_multiset() =~= out_pre.to_multiset().insert(e));
            assert(out@.to_multiset().add(rest@.to_multiset()) =~= out_pre.to_multiset().add(
                rest_pre.to_multiset(),
            ));
            assert forall|a: int, b: int|
                0 <= a < out@.len() && 0 <= b < rest@.len() implies spec_task_key(
                #[trigger] out@[a],
            ) <= spec_task_key(#[trigger] rest@[b]) by {
                let prev = if b < best as int {
                    b
                } else {
                    b + 1
                };
                assert(rest@[b] == rest_pre[prev]);
                if a < out_pre.len() {
                    assert(out@[a] == out_pre[a]);
                } else {
                    assert(out@[a] == e);
                }
            }
            assert forall|a: int, b: int|
                0 <= a < b < out@.len() implies spec_task_key(#[trigger] out@[a]) <= spec_task_key(
                #[trigger] out@[b],
            ) by {
                if b < out_pre.len() {
                    assert(out@[a] == out_pre[a]);
                    assert(out@[b] == out_pre[b]);
                } else {
                    assert(out@[b] == e);
                    assert(out@[a] == out_pre[a]);
                    assert(spec_task_key(out_pre[a]) <= spec_task_key(rest_pre[best as int]));
                }
            }
        }
    }
    proof {
        assert(rest@.to_multiset() =~= Seq::<OCRTask>::empty().to_multiset());
        assert(out@.to_multiset().add(Seq::<OCRTask>::empty().to_multiset())
            =~= out@.to_multiset());
    }
    out
}

/// Builds the aggregated output of a batch, in the given task order: one
/// identified-character entry and one candidate string per task, and the
/// concatenation of every task's best character as the search string.
pub fn build_ocr_output(tasks: &Vec<OCRTask>) -> (r: OCRResult)
    ensures
        r.characters@.len() == tasks@.len(),
        r.best_matching_characters@.len() == tasks@.len(),
        forall|j: int|
            0 <= j < tasks@.len() ==> {
                &&& (#[trigger] r.characters@[j]).reference_characters@.len() == tasks@[
                    j
                ].results@.len()
                &&& r.characters@[j].scores@.len() == tasks@[j].results@.len()
            },
        forall|j: int, k: int|
            0 <= j < tasks@.len() && 0 <= k < (#[trigger] tasks@[j]).results@.len() ==> {
                &&& (#[trigger] r.characters@[j].reference_characters@[k]) == tasks@[
                    j
                ].results@[k].reference.character
                &&& r.characters@[j].scores@[k] == tasks@[j].results@[k].score
            },
        r.search_string@ == spec_top_chars(tasks@, tasks@.len() as int),
{
    let mut characters: Vec<IdentifiedCharacter> = Vec::new();
    let mut best_matching_characters: Vec<String> = Vec::new();
    let mut search_string = String::new();
    let mut i: usize = 0;
    while i < tasks.len()
        invariant
            i <= tasks@.len(),
            characters@.len() == i as int,
            best_matching_characters@.len() == i as int,
            forall|j: int|
                0 <= j < i as int ==> {
                    &&& (#[trigger] characters@[j]).reference_characters@.len() == tasks@[
                        j
                    ].results@.len()
                    &&& characters@[j].scores@.len() == tasks@[j].results@.len()
                },
            forall|j: int, k: int|
                0 <= j < i as int && 0 <= k < (#[trigger] tasks@[j]).results@.len() ==> {
                    &&& (#[trigger] characters@[j].reference_characters@[k]) == tasks@[
                        j
                    ].results@[k].reference.character
                    &&& characters@[j].scores@[k] == tasks@[j].results@[k].score
                },
            search_string@ == spec_top_chars(tasks@, i as int),
        decreases tasks@.len() - i,
    {
        let task = &tasks[i];
        let matched = task.get_result_string();
        let mut scores: Vec<u32> = Vec::new();
        let mut k: usize = 0;
        while k < task.results.len()
            invariant
                i < tasks@.len(),
                *task == tasks@[i as int],
                k <= task.results@.len(),
                scores@.len() == k as int,
                forall|q: int|
                    0 <= q < k as int ==> scores@[q] == (#[trigger] task.results@[q]).score,
            decreases task.results@.len() - k,
        {
            scores.push(task.results[k].score);
            k = k + 1;
        }
        let location = Rect { x: 0, y: 0, width: 0, height: 0 };
        let ghost chars_pre = characters@;
        let ghost matched_g = matched@;
        let ghost scores_g = scores@;
        let ident = IdentifiedCharacter::new(matched, location, scores);
        let ghost ident_g = ident;
        characters.push(ident);
        best_matching_characters.push(task.get_result_string());
        proof {
            assert(ident_g.reference_characters@ == matched_g);
            assert(ident_g.scores@ == scores_g);
            assert forall|j: int| 0 <= j < i as int + 1 implies {
                &&& (#[trigger] characters@[j]).reference_characters@.len() == tasks@[
                    j
                ].results@.len()
                &&& characters@[j].scores@.len() == tasks@[j].results@.len()
            } by {
                if j < i as int {
                    assert(characters@[j] == chars_pre[j]);
                } else {
                    assert(characters@[j] == ident_g);
                    assert(*task == tasks@[j]);
                    assert(matched_g.len() == task.results@.len());
                    assert(scores_g.len() == task.results@.len());
                }
            }
            assert forall|j: int, k: int|
                0 <= j < i as int + 1 && 0 <= k < (
            #[trigger] tasks@[j]).results@.len() implies {
                &&& (#[trigger] characters@[j].reference_characters@[k]) == tasks@[
                    j
                ].results@[k].reference.character
                &&& characters@[j].scores@[k] == tasks@[j].results@[k].score
            } by {
                if j < i as int {
                    assert(characters@[j] == chars_pre[j]);
                } else {
                    assert(characters@[j] == ident_g);
                    assert(*task == tasks@[j]);
                    assert(matched_g[k] == task.results@[k].reference.character);
                    assert(scores_g[k] == task.results@[k].score);
                }
            }
        }
        match task.get_character() {
            Some(c) => {
                crate::util::push_char(&mut search_string, c);
                proof {
                    assert(search_string@ =~= spec_top_chars(tasks@, i as int + 1));
                }
            },
            None => {
                proof {
                    assert(search_string@ =~= spec_top_chars(tasks@, i as int + 1));
                }
            },
        }
        i = i + 1;
    }
    OCRResult { best_matching_characters, characters, search_string }
}

/// The engine's front door: owns the scheduler and aggregates a batch.
pub struct KanjiTomo {
    ocr: OCRManager,
}

impl KanjiTomo {
    pub closed spec fn wf(self) -> bool {
        self.ocr.wf()
    }

    pub closed spec fn spec_outstanding(self) -> u32 {
        self.ocr.spec_outstanding()
    }

    /// Starts the engine over a loaded reference store.
    pub fn new(params: Parameters, store: Arc<ReferenceMatrixCache>) -> (r: Result<
        KanjiTomo,
        KanjitomoError,
    >)
        requires
            params.wf(),
            (*store).wf(params.spec_halo_layers()),
        ensures
            r matches Ok(k) ==> k.wf() && k.spec_outstanding() == 0,
    {
        match OCRManager::new(params, store) {
            Ok(ocr) => Ok(KanjiTomo { ocr }),
            Err(e) => Err(e),
        }
    }

    /// Submits one cropped character image as a matching job.
    pub fn run_ocr(&mut self, image: GrayBuffer, char_index: u32)
        requires
            old(self).wf(),
            old(self).spec_outstanding() < 0xffff_ffffu32,
        ensures
            final(self).wf(),
            final(self).spec_outstanding() == old(self).spec_outstanding() + 1,
    {
        let mut task = OCRTask::new(image);
        task.char_index = Some(char_index);
        self.ocr.add_task(task);
    }

    /// Waits for the whole batch, orders it by character position, and
    /// aggregates the candidates. A clean drain (second component true)
    /// leaves no task outstanding.
    pub fn finish(&mut self) -> (r: (OCRResult, bool))
        requires
            old(self).wf(),
        ensures
            final(self).wf(),
            r.1 ==> final(self).spec_outstanding() == 0,
            old(self).spec_outstanding() == 0 ==> r.1,
            r.0.characters@.len() == r.0.best_matching_characters@.len(),
    {
        let (tasks, clean) = self.ocr.wait_until_done();
        let ordered = sort_tasks(tasks);
        let output = build_ocr_output(&ordered);
        (output, clean)
    }

    /// Requests a cooperative stop of the worker pool.
    pub fn stop(&mut self)
        requires
            old(self).wf(),
        ensures
            final(self).wf(),
    {
        self.ocr.stop_threads();
    }
}

} // verus!
