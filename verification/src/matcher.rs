//! The scoring model: black/white overlap and halo mismatch between a
//! target matrix and a reference glyph are combined linearly into a score;
//! all (transformation, reference) pairs of a task are ranked, the best
//! survivors re-aligned once more, and at most the configured number of
//! candidates reported.

use vstd::prelude::*;
use crate::matrix::{pop_mx, move_matrix, count_bits, build_mx_halo, lemma_pop_rows_bounds};
use crate::params::{Parameters, weight_limit};
use crate::reference::{ReferenceMatrix, ReferenceMatrixCache, rm_eq};
use crate::transformation::{Transformation, TargetMatrix};
use crate::ocr_result::OCRResult;
use crate::util::clamp_int;

verus! {

broadcast use vstd::seq_lib::group_to_multiset_ensures;

/// Per-row conjunction of two matrices.
pub open spec fn and_rows(a: Seq<u32>, b: Seq<u32>) -> Seq<u32> {
    Seq::new(32, |y: int| a[y] & b[y])
}

/// Per-row disjunction of two matrices.
pub open spec fn or_rows(a: Seq<u32>, b: Seq<u32>) -> Seq<u32> {
    Seq::new(32, |y: int| a[y] | b[y])
}

/// Per-row difference: cells of `a` that are clear in `b`.
pub open spec fn diff_rows(a: Seq<u32>, b: Seq<u32>) -> Seq<u32> {
    Seq::new(32, |y: int| a[y] & !b[y])
}

fn mx_and(a: &[u32; 32], b: &[u32; 32]) -> (r: [u32; 32])
    ensures
        r@ == and_rows(a@, b@),
{
    let mut r = [0u32; 32];
    let mut y: usize = 0;
    while y < 32
        invariant
            y <= 32,
            r@.len() == 32,
            forall|j: int| 0 <= j < y as int ==> r@[j] == (#[trigger] a@[j] & b@[j]),
        decreases 32 - y,
    {
        r[y] = a[y] & b[y];
        y = y + 1;
    }
    proof {
        assert(r@ =~= and_rows(a@, b@));
    }
    r
}

fn mx_or(a: &[u32; 32], b: &[u32; 32]) -> (r: [u32; 32])
    ensures
        r@ == or_rows(a@, b@),
{
    let mut r = [0u32; 32];
    let mut y: usize = 0;
    while y < 32
        invariant
            y <= 32,
            r@.len() == 32,
            forall|j: int| 0 <= j < y as int ==> r@[j] == (#[trigger] a@[j] | b@[j]),
        decreases 32 - y,
    {
        r[y] = a[y] | b[y];
        y = y + 1;
    }
    proof {
        assert(r@ =~= or_rows(a@, b@));
    }
    r
}

fn mx_diff(a: &[u32; 32], b: &[u32; 32]) -> (r: [u32; 32])
    ensures
        r@ == diff_rows(a@, b@),
{
    let mut r = [0u32; 32];
    let mut y: usize = 0;
    while y < 32
        invariant
            y <= 32,
            r@.len() == 32,
            forall|j: int| 0 <= j < y as int ==> r@[j] == (#[trigger] a@[j] & !b@[j]),
        decreases 32 - y,
    {
        r[y] = a[y] & !b[y];
        y = y + 1;
    }
    proof {
        assert(r@ =~= diff_rows(a@, b@));
    }
    r
}

/// Number of cells set in both matrices.
pub open spec fn spec_black(t: Seq<u32>, r: Seq<u32>) -> int {
    pop_mx(and_rows(t, r))
}

/// Number of cells clear in both matrices.
pub open spec fn spec_white(t: Seq<u32>, r: Seq<u32>) -> int {
    1024 - pop_mx(or_rows(t, r))
}

/// Overlap of halo layer `i` of `halo` with the matrix `m`.
pub open spec fn spec_halo_overlap(halo: Seq<[u32; 32]>, m: Seq<u32>, i: int) -> int {
    pop_mx(and_rows(halo[i]@, m))
}

/// Sum of the raw halo overlaps over the first `k` layers.
pub open spec fn spec_halo_raw(halo: Seq<[u32; 32]>, m: Seq<u32>, k: int) -> int
    decreases k,
{
    if k <= 0 {
        0
    } else {
        spec_halo_raw(halo, m, k - 1) + spec_halo_overlap(halo, m, k - 1)
    }
}

/// Weighted sum of the halo overlaps over the first `k` layers.
pub open spec fn spec_halo_wsum(w: [i64; 4], halo: Seq<[u32; 32]>, m: Seq<u32>, k: int) -> int
    decreases k,
{
    if k <= 0 || k > 4 {
        0
    } else {
        spec_halo_wsum(w, halo, m, k - 1) + w[k - 1] * spec_halo_overlap(halo, m, k - 1)
    }
}

/// A glyph together with its first `k` halo layers.
pub open spec fn spec_cover(m: Seq<u32>, halo: Seq<[u32; 32]>, k: int) -> Seq<u32>
    decreases k,
{
    if k <= 0 {
        m
    } else {
        or_rows(spec_cover(m, halo, k - 1), halo[k - 1]@)
    }
}

/// Target cells that touch neither the reference glyph nor any of its halo
/// layers: ink connected to nothing of the reference.
pub open spec fn spec_conn(tm: Seq<u32>, rm: Seq<u32>, rhalo: Seq<[u32; 32]>, layers: int) -> int {
    pop_mx(diff_rows(tm, spec_cover(rm, rhalo, layers)))
}

/// The linear scoring model: a base score, a reward per black and per white
/// agreement, a penalty per halo-overlap pixel at each depth, a penalty per
/// stray connected pixel, and the per-reference bias.
pub open spec fn spec_pair_score(p: Parameters, t: TargetMatrix, r: ReferenceMatrix) -> int {
    let layers = p.spec_halo_layers();
    p.ocr_base_score + p.ocr_black_pixel_score * spec_black(t.matrix@, r.matrix@)
        + p.ocr_white_score * spec_white(t.matrix@, r.matrix@) + spec_halo_wsum(
        p.ocr_target_halo_scores,
        t.halo@,
        r.matrix@,
        layers,
    ) + spec_halo_wsum(p.ocr_reference_halo_scores, r.halo@, t.matrix@, layers)
        + p.ocr_connected_halo_pixels_score * spec_conn(t.matrix@, r.matrix@, r.halo@, layers)
        + r.score_modifier
}

/// The score actually stored: the model value clamped into `u32`.
pub open spec fn spec_clamped_score(p: Parameters, t: TargetMatrix, r: ReferenceMatrix) -> int {
    clamp_int(spec_pair_score(p, t, r), 0, 0xffff_ffff)
}

/// One result faithfully carries the scoring model's verdict on the very
/// pair it stores: its counts, score and tie-break score are those of its
/// own target and reference.
pub open spec fn spec_scored(p: Parameters, res: OCRResult) -> bool {
    &&& res.black_pixels as int == spec_black(res.target.matrix@, res.reference.matrix@)
    &&& res.white_pixels as int == spec_white(res.target.matrix@, res.reference.matrix@)
    &&& res.score as int == spec_clamped_score(p, res.target, res.reference)
    &&& res.avg_score as int == spec_avg_score(res.target.matrix@, res.reference.matrix@)
}

/// Every result of a batch is faithfully scored.
pub open spec fn all_scored(s: Seq<OCRResult>, p: Parameters) -> bool {
    forall|j: int| 0 <= j < s.len() ==> spec_scored(p, #[trigger] s[j])
}

/// The normalised tie-break score: pixel agreement per mille.
pub open spec fn spec_avg_score(t: Seq<u32>, r: Seq<u32>) -> int {
    (spec_black(t, r) + spec_white(t, r)) * 1000 / 2048
}

/// One result ranks at least as high as another: higher score first, then
/// higher normalised score.
pub open spec fn better_or_eq(a: OCRResult, b: OCRResult) -> bool {
    a.score > b.score || (a.score == b.score && a.avg_score >= b.avg_score)
}

/// Results sorted best first.
pub open spec fn ranked(s: Seq<OCRResult>) -> bool {
    forall|i: int, j: int| 0 <= i < j < s.len() ==> better_or_eq(#[trigger] s[i], #[trigger] s[j])
}

/// Every result scored against a character the store knows.
pub open spec fn all_from_store(s: Seq<OCRResult>, store: ReferenceMatrixCache) -> bool {
    forall|j: int| 0 <= j < s.len() ==> store.spec_has_char((#[trigger] s[j]).reference.character)
}

/// Every result still carries a well-formed reference and a small enough
/// translation to go through the refinement pass.
pub open spec fn all_refinable(s: Seq<OCRResult>, p: Parameters) -> bool {
    forall|j: int|
        0 <= j < s.len() ==> {
            &&& (#[trigger] s[j]).reference.wf(p.spec_halo_layers())
            &&& -1000 <= s[j].target.transform.horizontal_translate <= 1000
            &&& -1000 <= s[j].target.transform.vertical_translate <= 1000
        }
}

/// Monotonicity of the full pair score: two comparisons whose halo
/// overlaps, stray-ink counts and biases agree, but where the second has at
/// least as much black and white agreement, never rank the second lower —
/// neither by the raw model value nor by the stored clamped score.
pub proof fn lemma_pair_score_monotone(
    p: Parameters,
    t1: TargetMatrix,
    r1: ReferenceMatrix,
    t2: TargetMatrix,
    r2: ReferenceMatrix,
)
    requires
        p.wf(),
        spec_black(t1.matrix@, r1.matrix@) <= spec_black(t2.matrix@, r2.matrix@),
        spec_white(t1.matrix@, r1.matrix@) <= spec_white(t2.matrix@, r2.matrix@),
        spec_halo_wsum(p.ocr_target_halo_scores, t1.halo@, r1.matrix@, p.spec_halo_layers())
            == spec_halo_wsum(
            p.ocr_target_halo_scores,
            t2.halo@,
            r2.matrix@,
            p.spec_halo_layers(),
        ),
        spec_halo_wsum(p.ocr_reference_halo_scores, r1.halo@, t1.matrix@, p.spec_halo_layers())
            == spec_halo_wsum(
            p.ocr_reference_halo_scores,
            r2.halo@,
            t2.matrix@,
            p.spec_halo_layers(),
        ),
        spec_conn(t1.matrix@, r1.matrix@, r1.halo@, p.spec_halo_layers()) == spec_conn(
            t2.matrix@,
            r2.matrix@,
            r2.halo@,
            p.spec_halo_layers(),
        ),
        r1.score_modifier == r2.score_modifier,
    ensures
        spec_pair_score(p, t1, r1) <= spec_pair_score(p, t2, r2),
        spec_clamped_score(p, t1, r1) <= spec_clamped_score(p, t2, r2),
{
    let b1 = spec_black(t1.matrix@, r1.matrix@);
    let w1 = spec_white(t1.matrix@, r1.matrix@);
    let b2 = spec_black(t2.matrix@, r2.matrix@);
    let w2 = spec_white(t2.matrix@, r2.matrix@);
    assert(p.ocr_black_pixel_score * b1 <= p.ocr_black_pixel_score * b2) by (nonlinear_arith)
        requires
            b1 <= b2,
            p.ocr_black_pixel_score >= 0,
    ;
    assert(p.ocr_white_score * w1 <= p.ocr_white_score * w2) by (nonlinear_arith)
        requires
            w1 <= w2,
            p.ocr_white_score >= 0,
    ;
}

/// One weighted term of the score, with its magnitude bounded.
fn weighted(w: i64, c: u32) -> (r: i64)
    requires
        -weight_limit() <= w <= weight_limit(),
        c <= 1024,
    ensures
        r as int == w * (c as int),
        -1024000000 <= r <= 1024000000,
{
    proof {
        assert(-1024000000 <= w * (c as int) <= 1024000000) by (nonlinear_arith)
            requires
                -1000000 <= w <= 1000000,
                0 <= c <= 1024,
        ;
    }
    w * (c as i64)
}

/// Population of a matrix, bounded by the canvas size.
fn pop_count(mx: &[u32; 32]) -> (r: u32)
    ensures
        r as int == pop_mx(mx@),
        r <= 1024,
{
    proof {
        lemma_pop_rows_bounds(mx@, 32);
    }
    count_bits(mx)
}

/// Scores one (target, reference) pair under the configured model.
pub fn score_pair(params: &Parameters, target: &TargetMatrix, reference: &ReferenceMatrix) -> (r:
    OCRResult)
    requires
        params.wf(),
        target.halo@.len() == params.spec_halo_layers(),
        reference.wf(params.spec_halo_layers()),
    ensures
        r.target.matrix == target.matrix,
        r.target.pixels == target.pixels,
        r.target.halo@ == target.halo@,
        r.target.char_index == target.char_index,
        r.target.transform == target.transform,
        rm_eq(r.reference, *reference),
        r.black_pixels as int == spec_black(target.matrix@, reference.matrix@),
        r.white_pixels as int == spec_white(target.matrix@, reference.matrix@),
        r.target_halo_pixels as int == spec_halo_raw(
            target.halo@,
            reference.matrix@,
            params.spec_halo_layers(),
        ),
        r.reference_halo_pixels as int == spec_halo_raw(
            reference.halo@,
            target.matrix@,
            params.spec_halo_layers(),
        ),
        r.score as int == spec_clamped_score(*params, *target, *reference),
        r.avg_score as int == spec_avg_score(target.matrix@, reference.matrix@),
        r.refined_alignment == false,
        spec_scored(*params, r),
{
    let layers = params.halo_layers();
    let black: u32 = pop_count(&mx_and(&target.matrix, &reference.matrix));
    let or_pop: u32 = pop_count(&mx_or(&target.matrix, &reference.matrix));
    let white: u32 = 1024 - or_pop;
    let mut th_raw: u32 = 0;
    let mut th_weighted: i64 = 0;
    let mut i: u32 = 0;
    while i < layers
        invariant
            params.wf(),
            target.halo@.len() == params.spec_halo_layers(),
            layers as int == params.spec_halo_layers(),
            i <= layers,
            layers <= 4,
            th_raw as int == spec_halo_raw(target.halo@, reference.matrix@, i as int),
            th_raw as int <= 1024 * (i as int),
            th_weighted as int == spec_halo_wsum(
                params.ocr_target_halo_scores,
                target.halo@,
                reference.matrix@,
                i as int,
            ),
            -1024000000 * (i as int) <= th_weighted as int <= 1024000000 * (i as int),
        decreases layers - i,
    {
        let overlap = pop_count(&mx_and(&target.halo[i as usize], &reference.matrix));
        th_raw = th_raw + overlap;
        th_weighted = th_weighted + weighted(params.ocr_target_halo_scores[i as usize], overlap);
        i = i + 1;
    }
    let mut rh_raw: u32 = 0;
    let mut rh_weighted: i64 = 0;
    let mut j: u32 = 0;
    while j < layers
        invariant
            params.wf(),
            reference.wf(params.spec_halo_layers()),
            layers as int == params.spec_halo_layers(),
            j <= layers,
            layers <= 4,
            rh_raw as int == spec_halo_raw(reference.halo@, target.matrix@, j as int),
            rh_raw as int <= 1024 * (j as int),
            rh_weighted as int == spec_halo_wsum(
                params.ocr_reference_halo_scores,
                reference.halo@,
                target.matrix@,
                j as int,
            ),
            -1024000000 * (j as int) <= rh_weighted as int <= 1024000000 * (j as int),
        decreases layers - j,
    {
        let overlap = pop_count(&mx_and(&reference.halo[j as usize], &target.matrix));
        rh_raw = rh_raw + overlap;
        rh_weighted = rh_weighted + weighted(params.ocr_reference_halo_scores[j as usize], overlap);
        j = j + 1;
    }
    let mut cover: [u32; 32] = reference.matrix;
    let mut k: u32 = 0;
    while k < layers
        invariant
            reference.wf(params.spec_halo_layers()),
            layers as int == params.spec_halo_layers(),
            k <= layers,
            cover@ == spec_cover(reference.matrix@, reference.halo@, k as int),
        decreases layers - k,
    {
        let layer: [u32; 32] = reference.halo[k as usize];
        crate::matrix::add_bits(&layer, &mut cover);
        proof {
            assert(cover@ =~= or_rows(
                spec_cover(reference.matrix@, reference.halo@, k as int),
                layer@,
            ));
        }
        k = k + 1;
    }
    let conn: u32 = pop_count(&mx_diff(&target.matrix, &cover));
    let score_raw: i64 = params.ocr_base_score + weighted(params.ocr_black_pixel_score, black)
        + weighted(params.ocr_white_score, white) + th_weighted + rh_weighted + weighted(
        params.ocr_connected_halo_pixels_score,
        conn,
    ) + reference.score_modifier;
    let score: u32 = if score_raw < 0 {
        0
    } else if score_raw > 0xffff_ffff {
        0xffff_ffffu32
    } else {
        score_raw as u32
    };
    let avg_score: u32 = ((black + white) * 1000) / 2048;
    OCRResult {
        target: target.duplicate(),
        reference: reference.duplicate(),
        black_pixels: black,
        white_pixels: white,
        target_halo_pixels: th_raw,
        reference_halo_pixels: rh_raw,
        score,
        avg_score,
        refined_alignment: false,
    }
}

/// Smaller of two values.
pub open spec fn min_int(a: int, b: int) -> int {
    if a <= b {
        a
    } else {
        b
    }
}

/// Number of targets among the first `k` that carry any ink.
pub open spec fn spec_inked(ts: Seq<TargetMatrix>, k: int) -> int
    decreases k,
{
    if k <= 0 {
        0
    } else {
        spec_inked(ts, k - 1) + (if ts[k - 1].pixels > 0 {
            1int
        } else {
            0int
        })
    }
}

/// Total number of references held by the first `e` entries of the store.
pub open spec fn spec_ref_total(es: Seq<(char, Vec<ReferenceMatrix>)>, e: int) -> int
    decreases e,
{
    if e <= 0 {
        0
    } else {
        spec_ref_total(es, e - 1) + es[e - 1].1@.len()
    }
}

/// Number of (inked target, stored reference) pairs the matcher scores.
pub open spec fn spec_pair_count(targets: Seq<TargetMatrix>, store: ReferenceMatrixCache) -> int {
    spec_ref_total(store.entries@, store.entries@.len() as int) * spec_inked(
        targets,
        targets.len() as int,
    )
}

proof fn lemma_inked_bounds(ts: Seq<TargetMatrix>, k: int)
    ensures
        0 <= spec_inked(ts, k) <= (if k <= 0 {
            0int
        } else {
            k
        }),
    decreases k,
{
    if k > 0 {
        lemma_inked_bounds(ts, k - 1);
    }
}

proof fn lemma_inked_zero_when_blank(ts: Seq<TargetMatrix>, k: int)
    requires
        forall|j: int| 0 <= j < ts.len() ==> (#[trigger] ts[j]).pixels == 0,
        k <= ts.len(),
    ensures
        spec_inked(ts, k) == 0,
    decreases k,
{
    if k > 0 {
        lemma_inked_zero_when_blank(ts, k - 1);
    }
}

proof fn lemma_inked_at_least_one(ts: Seq<TargetMatrix>, kk: int, k: int)
    requires
        0 <= kk < k,
        ts[kk].pixels > 0,
    ensures
        spec_inked(ts, k) >= 1,
    decreases k,
{
    lemma_inked_bounds(ts, k - 1);
    if kk < k - 1 {
        lemma_inked_at_least_one(ts, kk, k - 1);
    }
}

proof fn lemma_ref_total_nonneg(es: Seq<(char, Vec<ReferenceMatrix>)>, e: int)
    ensures
        0 <= spec_ref_total(es, e),
    decreases e,
{
    if e > 0 {
        lemma_ref_total_nonneg(es, e - 1);
    }
}

proof fn lemma_ref_total_at_least_one(es: Seq<(char, Vec<ReferenceMatrix>)>, ee: int, e: int)
    requires
        0 <= ee < e,
        es[ee].1@.len() > 0,
    ensures
        spec_ref_total(es, e) >= 1,
    decreases e,
{
    lemma_ref_total_nonneg(es, e - 1);
    if ee < e - 1 {
        lemma_ref_total_at_least_one(es, ee, e - 1);
    }
}

/// The reference value is one the store holds.
pub open spec fn ref_stored(rm: ReferenceMatrix, store: ReferenceMatrixCache) -> bool {
    exists|ee: int, ff: int|
        #![trigger store.entries@[ee].1@[ff]]
        0 <= ee < store.entries@.len() && 0 <= ff < store.entries@[ee].1@.len() && rm_eq(
            rm,
            store.entries@[ee].1@[ff],
        )
}

/// Every result's reference is value-equal to a reference the store holds.
pub open spec fn all_refs_stored(s: Seq<OCRResult>, store: ReferenceMatrixCache) -> bool {
    forall|j: int| 0 <= j < s.len() ==> ref_stored((#[trigger] s[j]).reference, store)
}

/// The leading result scores at least as high as the model rates any
/// (inked target, stored reference) pair at all.
pub open spec fn top_dominates(
    s: Seq<OCRResult>,
    p: Parameters,
    targets: Seq<TargetMatrix>,
    store: ReferenceMatrixCache,
) -> bool {
    s.len() > 0 ==> forall|ee: int, ff: int, kk: int|
        #![trigger store.entries@[ee].1@[ff], targets[kk]]
        0 <= ee < store.entries@.len() && 0 <= ff < store.entries@[ee].1@.len() && 0 <= kk
            < targets.len() && targets[kk].pixels > 0 ==> spec_clamped_score(
            p,
            targets[kk],
            store.entries@[ee].1@[ff],
        ) <= s[0].score as int
}

/// No result that skipped the refinement pass outranks a refined one.
pub open spec fn flags_dominated(s: Seq<OCRResult>) -> bool {
    forall|j1: int, j2: int|
        0 <= j1 < s.len() && 0 <= j2 < s.len() && (#[trigger] s[j1]).refined_alignment && !(
        #[trigger] s[j2]).refined_alignment ==> s[j2].score <= s[j1].score
}

/// Some result carries exactly the model score of the pair (t, rm).
pub open spec fn pair_represented(
    s: Seq<OCRResult>,
    p: Parameters,
    t: TargetMatrix,
    rm: ReferenceMatrix,
) -> bool {
    exists|j: int|
        0 <= j < s.len() && (#[trigger] s[j]).score as int == spec_clamped_score(p, t, rm)
}

/// Every pair lexicographically before scan position (e, f, t) already has
/// a result carrying exactly its model score.
pub open spec fn pairs_represented_before(
    s: Seq<OCRResult>,
    p: Parameters,
    targets: Seq<TargetMatrix>,
    store: ReferenceMatrixCache,
    e: int,
    f: int,
    t: int,
) -> bool {
    forall|ee: int, ff: int, kk: int|
        #![trigger store.entries@[ee].1@[ff], targets[kk]]
        0 <= ee < store.entries@.len() && 0 <= ff < store.entries@[ee].1@.len() && 0 <= kk
            < targets.len() && targets[kk].pixels > 0 && (ee < e || (ee == e && ff < f) || (ee == e
            && ff == f && kk < t)) ==> pair_represented(s, p, targets[kk], store.entries@[ee].1@[ff])
}

/// A permutation keeps the property that every result's reference is
/// stored.
proof fn lemma_all_refs_stored_perm(
    a: Seq<OCRResult>,
    b: Seq<OCRResult>,
    store: ReferenceMatrixCache,
)
    requires
        a.to_multiset() == b.to_multiset(),
        all_refs_stored(a, store),
    ensures
        all_refs_stored(b, store),
{
    assert forall|j: int| 0 <= j < b.len() implies ref_stored(
        (#[trigger] b[j]).reference,
        store,
    ) by {
        assert(b.to_multiset().count(b[j]) > 0);
        assert(a.to_multiset().count(b[j]) > 0);
        assert(a.contains(b[j]));
        let k = choose|k: int| 0 <= k < a.len() && a[k] == b[j];
        assert(ref_stored(a[k].reference, store));
    }
}

/// A permutation keeps the flag-dominance property.
proof fn lemma_flags_dominated_perm(a: Seq<OCRResult>, b: Seq<OCRResult>)
    requires
        a.to_multiset() == b.to_multiset(),
        flags_dominated(a),
    ensures
        flags_dominated(b),
{
    assert forall|j1: int, j2: int|
        0 <= j1 < b.len() && 0 <= j2 < b.len() && (#[trigger] b[j1]).refined_alignment && !(
        #[trigger] b[j2]).refined_alignment implies b[j2].score <= b[j1].score by {
        assert(b.to_multiset().count(b[j1]) > 0);
        assert(a.to_multiset().count(b[j1]) > 0);
        assert(a.contains(b[j1]));
        assert(b.to_multiset().count(b[j2]) > 0);
        assert(a.to_multiset().count(b[j2]) > 0);
        assert(a.contains(b[j2]));
        let k1 = choose|k: int| 0 <= k < a.len() && a[k] == b[j1];
        let k2 = choose|k: int| 0 <= k < a.len() && a[k] == b[j2];
        assert(a[k2].score <= a[k1].score);
    }
}

/// An equal-valued copy of a scored result.
fn duplicate_result(res: &OCRResult) -> (r: OCRResult)
    ensures
        r.target.matrix == res.target.matrix,
        r.target.pixels == res.target.pixels,
        r.target.halo@ == res.target.halo@,
        r.target.char_index == res.target.char_index,
        r.target.transform == res.target.transform,
        rm_eq(r.reference, res.reference),
        r.black_pixels == res.black_pixels,
        r.white_pixels == res.white_pixels,
        r.target_halo_pixels == res.target_halo_pixels,
        r.reference_halo_pixels == res.reference_halo_pixels,
        r.score == res.score,
        r.avg_score == res.avg_score,
        r.refined_alignment == res.refined_alignment,
{
    OCRResult {
        target: res.target.duplicate(),
        reference: res.reference.duplicate(),
        black_pixels: res.black_pixels,
        white_pixels: res.white_pixels,
        target_halo_pixels: res.target_halo_pixels,
        reference_halo_pixels: res.reference_halo_pixels,
        score: res.score,
        avg_score: res.avg_score,
        refined_alignment: res.refined_alignment,
    }
}

/// Sorts results best first: by descending score, then by descending
/// normalised score; the output is a permutation of the input.
pub fn sort_results(input: Vec<OCRResult>) -> (r: Vec<OCRResult>)
    ensures
        ranked(r@),
        r@.to_multiset() == input@.to_multiset(),
        r@.len() == input@.len(),
{
    let ghost orig = input@;
    let mut rest = input;
    let mut out: Vec<OCRResult> = Vec::new();
    proof {
        assert(out@.to_multiset().add(rest@.to_multiset()) =~= orig.to_multiset());
    }
    while rest.len() > 0
        invariant
            ranked(out@),
            forall|a: int, b: int|
                0 <= a < out@.len() && 0 <= b < rest@.len() ==> better_or_eq(
                    #[trigger] out@[a],
                    #[trigger] rest@[b],
                ),
            out@.to_multiset().add(rest@.to_multiset()) == orig.to_multiset(),
            out@.len() + rest@.len() == orig.len(),
        decreases rest@.len(),
    {
        let mut best: usize = 0;
        let mut j: usize = 1;
        while j < rest.len()
            invariant
                rest@.len() > 0,
                best < j,
                j <= rest@.len(),
                forall|k: int| 0 <= k < j as int ==> better_or_eq(rest@[best as int], #[trigger] rest@[k]),
            decreases rest@.len() - j,
        {
            let take = rest[j].score > rest[best].score || (rest[j].score == rest[best].score
                && rest[j].avg_score > rest[best].avg_score);
            if take {
                best = j;
            }
            j = j + 1;
        }
        let ghost rest_pre = rest@;
        let ghost out_pre = out@;
        let e = rest.remove(best);
        out.push(e);
        proof {
            rest_pre.remove_ensures(best as int);
            assert(rest@ == rest_pre.remove(best as int));
            assert(rest_pre.contains(e));
            assert(rest_pre.to_multiset().count(e) > 0);
            assert(rest@.to_multiset() =~= rest_pre.to_multiset().remove(e));
            assert(out@.to_multiset() =~= out_pre.to_multiset().insert(e));
            assert(out@.to_multiset().add(rest@.to_multiset()) =~= out_pre.to_multiset().add(
                rest_pre.to_multiset(),
            ));
            assert forall|a: int, b: int|
                0 <= a < out@.len() && 0 <= b < rest@.len() implies better_or_eq(
                #[trigger] out@[a],
                #[trigger] rest@[b],
            ) by {
                let prev = if b < best as int {
                    b
                } else {
                    b + 1
                };
                assert(rest@[b] == rest_pre[prev]);
                if a < out_pre.len() {
                    assert(out@[a] == out_pre[a]);
                } else {
                    assert(out@[a] == e);
                }
            }
            assert forall|a: int, b: int|
                0 <= a < b < out@.len() implies better_or_eq(
                #[trigger] out@[a],
                #[trigger] out@[b],
            ) by {
                if b < out_pre.len() {
                    assert(out@[a] == out_pre[a]);
                    assert(out@[b] == out_pre[b]);
                } else {
                    assert(out@[b] == e);
                    assert(out@[a] == out_pre[a]);
                    assert(better_or_eq(out_pre[a], rest_pre[best as int]));
                }
            }
        }
    }
    proof {
        assert(rest@.to_multiset() =~= Seq::<OCRResult>::empty().to_multiset());
        assert(out@.to_multiset().add(Seq::<OCRResult>::empty().to_multiset()) =~= out@.to_multiset());
    }
    out
}

/// A second, finer alignment pass around one surviving result: the target
/// is shifted by at most one cell each way, re-scored against the same
/// reference, and the best variant kept; the result is marked refined and
/// never scores below the survivor.
pub fn refine_alignment(params: &Parameters, res: &OCRResult) -> (r: OCRResult)
    requires
        params.wf(),
        res.reference.wf(params.spec_halo_layers()),
        spec_scored(*params, *res),
        -1000 <= res.target.transform.horizontal_translate <= 1000,
        -1000 <= res.target.transform.vertical_translate <= 1000,
    ensures
        r.refined_alignment == true,
        r.score >= res.score,
        rm_eq(r.reference, res.reference),
        r.target.char_index == res.target.char_index,
        spec_scored(*params, r),
        r.target.pixels > 0 || res.target.pixels == 0 || r.score > res.score,
{
    let mut best = duplicate_result(res);
    best.refined_alignment = true;
    let mut dh: i32 = -1;
    while dh <= 1
        invariant
            params.wf(),
            res.reference.wf(params.spec_halo_layers()),
            -1000 <= res.target.transform.horizontal_translate <= 1000,
            -1000 <= res.target.transform.vertical_translate <= 1000,
            -1 <= dh <= 2,
            spec_scored(*params, best),
            best.refined_alignment == true,
            best.score >= res.score,
            rm_eq(best.reference, res.reference),
            best.target.char_index == res.target.char_index,
            best.target.pixels > 0 || res.target.pixels == 0 || best.score > res.score,
        decreases 2 - dh,
    {
        let mut dv: i32 = -1;
        while dv <= 1
            invariant
                params.wf(),
                res.reference.wf(params.spec_halo_layers()),
                -1000 <= res.target.transform.horizontal_translate <= 1000,
                -1000 <= res.target.transform.vertical_translate <= 1000,
                -1 <= dh <= 1,
                -1 <= dv <= 2,
                spec_scored(*params, best),
                best.refined_alignment == true,
                best.score >= res.score,
                rm_eq(best.reference, res.reference),
                best.target.char_index == res.target.char_index,
                best.target.pixels > 0 || res.target.pixels == 0 || best.score > res.score,
            decreases 2 - dv,
        {
            let mut shifted: [u32; 32] = res.target.matrix;
            move_matrix(&mut shifted, dh, dv);
            let pixels = pop_count(&shifted);
            let mut grown = shifted;
            let halo = build_mx_halo(&mut grown, params.halo_layers());
            let t = res.target.transform;
            let cand_transform = Transformation::new(
                t.horizontal_translate + dh,
                t.vertical_translate + dv,
                t.horizontal_stretch,
                t.vertical_stretch,
            );
            let cand_target = TargetMatrix::new(
                shifted,
                pixels,
                halo,
                res.target.char_index,
                cand_transform,
            );
            let mut cand = score_pair(params, &cand_target, &res.reference);
            if pixels > 0 && (cand.score > best.score || (cand.score == best.score
                && cand.avg_score > best.avg_score && cand.score > res.score)) {
                cand.refined_alignment = true;
                proof {
                    assert(rm_eq(cand.reference, res.reference));
                }
                best = cand;
            }
            dv = dv + 1;
        }
        dh = dh + 1;
    }
    best
}

/// First scoring pass: one faithfully scored result per (inked target,
/// stored reference) pair, in scan order. Targets without any ink are
/// skipped.
fn score_all_pairs(
    params: &Parameters,
    targets: &Vec<TargetMatrix>,
    store: &ReferenceMatrixCache,
) -> (r: Vec<OCRResult>)
    requires
        params.wf(),
        store.wf(params.spec_halo_layers()),
        forall|k: int|
            0 <= k < targets@.len() ==> {
                &&& (#[trigger] targets@[k]).halo@.len() == params.spec_halo_layers()
                &&& -1000 <= targets@[k].transform.horizontal_translate <= 1000
                &&& -1000 <= targets@[k].transform.vertical_translate <= 1000
            },
    ensures
        all_from_store(r@, *store),
        all_refs_stored(r@, *store),
        all_refinable(r@, *params),
        all_scored(r@, *params),
        r@.len() as int == spec_pair_count(targets@, *store),
        pairs_represented_before(
            r@,
            *params,
            targets@,
            *store,
            store.entries@.len() as int,
            0,
            0,
        ),
        (forall|k: int| 0 <= k < targets@.len() ==> (#[trigger] targets@[k]).pixels == 0) ==> r@.len()
            == 0,
{
    let ghost all_blank = forall|k: int|
        0 <= k < targets@.len() ==> (#[trigger] targets@[k]).pixels == 0;
    let ghost inked_total = spec_inked(targets@, targets@.len() as int);
    let mut results: Vec<OCRResult> = Vec::new();
    let n_entries = store.entries.len();
    let mut e: usize = 0;
    while e < n_entries
        invariant
            params.wf(),
            store.wf(params.spec_halo_layers()),
            forall|k: int|
                0 <= k < targets@.len() ==> {
                    &&& (#[trigger] targets@[k]).halo@.len() == params.spec_halo_layers()
                    &&& -1000 <= targets@[k].transform.horizontal_translate <= 1000
                    &&& -1000 <= targets@[k].transform.vertical_translate <= 1000
                },
            all_blank == (forall|k: int|
                0 <= k < targets@.len() ==> (#[trigger] targets@[k]).pixels == 0),
            inked_total == spec_inked(targets@, targets@.len() as int),
            n_entries == store.entries@.len(),
            e <= n_entries,
            all_from_store(results@, *store),
            all_refs_stored(results@, *store),
            all_refinable(results@, *params),
            all_scored(results@, *params),
            results@.len() as int == spec_ref_total(store.entries@, e as int) * inked_total,
            pairs_represented_before(results@, *params, targets@, *store, e as int, 0, 0),
            all_blank ==> results@.len() == 0,
        decreases n_entries - e,
    {
        let n_refs = store.entries[e].1.len();
        let mut f: usize = 0;
        while f < n_refs
            invariant
                params.wf(),
                store.wf(params.spec_halo_layers()),
                forall|k: int|
                    0 <= k < targets@.len() ==> {
                        &&& (#[trigger] targets@[k]).halo@.len() == params.spec_halo_layers()
                        &&& -1000 <= targets@[k].transform.horizontal_translate <= 1000
                        &&& -1000 <= targets@[k].transform.vertical_translate <= 1000
                    },
                all_blank == (forall|k: int|
                    0 <= k < targets@.len() ==> (#[trigger] targets@[k]).pixels == 0),
                inked_total == spec_inked(targets@, targets@.len() as int),
                e < store.entries@.len(),
                n_refs == store.entries@[e as int].1@.len(),
                f <= n_refs,
                all_from_store(results@, *store),
                all_refs_stored(results@, *store),
                all_refinable(results@, *params),
                all_scored(results@, *params),
                results@.len() as int == (spec_ref_total(store.entries@, e as int) + f as int)
                    * inked_total,
                pairs_represented_before(results@, *params, targets@, *store, e as int, f as int, 0),
                all_blank ==> results@.len() == 0,
            decreases n_refs - f,
        {
            let n_targets = targets.len();
            let mut t: usize = 0;
            while t < n_targets
                invariant
                    params.wf(),
                    store.wf(params.spec_halo_layers()),
                    forall|k: int|
                        0 <= k < targets@.len() ==> {
                            &&& (#[trigger] targets@[k]).halo@.len() == params.spec_halo_layers()
                            &&& -1000 <= targets@[k].transform.horizontal_translate <= 1000
                            &&& -1000 <= targets@[k].transform.vertical_translate <= 1000
                        },
                    all_blank == (forall|k: int|
                        0 <= k < targets@.len() ==> (#[trigger] targets@[k]).pixels == 0),
                    inked_total == spec_inked(targets@, targets@.len() as int),
                    e < store.entries@.len(),
                    f < store.entries@[e as int].1@.len(),
                    n_targets == targets@.len(),
                    t <= n_targets,
                    all_from_store(results@, *store),
                    all_refs_stored(results@, *store),
                    all_refinable(results@, *params),
                    all_scored(results@, *params),
                    results@.len() as int == (spec_ref_total(store.entries@, e as int) + f as int)
                        * inked_total + spec_inked(targets@, t as int),
                    pairs_represented_before(
                        results@,
                        *params,
                        targets@,
                        *store,
                        e as int,
                        f as int,
                        t as int,
                    ),
                    all_blank ==> results@.len() == 0,
                decreases n_targets - t,
            {
                let ghost results_pre = results@;
                if targets[t].pixels > 0 {
                    let scored = score_pair(params, &targets[t], &store.entries[e].1[f]);
                    results.push(scored);
                    proof {
                        assert(rm_eq(scored.reference, store.entries@[e as int].1@[f as int]));
                        assert(scored.reference.character == store.entries@[e as int].0);
                        assert(store.spec_has_char(scored.reference.character));
                        assert(scored.score as int == spec_clamped_score(
                            *params,
                            targets@[t as int],
                            store.entries@[e as int].1@[f as int],
                        ));
                        assert forall|jj: int|
                            0 <= jj < results@.len() implies store.spec_has_char(
                            (#[trigger] results@[jj]).reference.character,
                        ) by {
                            if jj < results_pre.len() {
                                assert(results@[jj] == results_pre[jj]);
                            }
                        }
                        assert(scored.reference.wf(params.spec_halo_layers())) by {
                            assert(store.entries@[e as int].1@[f as int].wf(
                                params.spec_halo_layers(),
                            ));
                        }
                        assert forall|jj: int|
                            0 <= jj < results@.len() implies {
                            &&& (#[trigger] results@[jj]).reference.wf(params.spec_halo_layers())
                            &&& -1000 <= results@[jj].target.transform.horizontal_translate <= 1000
                            &&& -1000 <= results@[jj].target.transform.vertical_translate <= 1000
                        } by {
                            if jj < results_pre.len() {
                                assert(results@[jj] == results_pre[jj]);
                            } else {
                                assert(results@[jj] == scored);
                            }
                        }
                        assert forall|jj: int|
                            0 <= jj < results@.len() implies spec_scored(
                            *params,
                            #[trigger] results@[jj],
                        ) by {
                            if jj < results_pre.len() {
                                assert(results@[jj] == results_pre[jj]);
                            } else {
                                assert(results@[jj] == scored);
                            }
                        }
                        assert forall|jj: int| 0 <= jj < results@.len() implies ref_stored(
                            (#[trigger] results@[jj]).reference,
                            *store,
                        ) by {
                            if jj < results_pre.len() {
                                assert(results@[jj] == results_pre[jj]);
                                assert(ref_stored(results_pre[jj].reference, *store));
                            } else {
                                assert(results@[jj] == scored);
                                assert(0 <= (e as int) < store.entries@.len() && 0 <= (
                                f as int) < store.entries@[e as int].1@.len() && rm_eq(
                                    results@[jj].reference,
                                    store.entries@[e as int].1@[f as int],
                                ));
                                assert(ref_stored(results@[jj].reference, *store));
                            }
                        }
                        assert(!all_blank);
                    }
                }
                proof {
                    assert forall|ee: int, ff: int, kk: int|
                        #![trigger store.entries@[ee].1@[ff], targets@[kk]]
                        0 <= ee < store.entries@.len() && 0 <= ff < store.entries@[ee].1@.len() && 0
                            <= kk < targets@.len() && targets@[kk].pixels > 0 && (ee < e as int || (
                        ee == e as int && ff < f as int) || (ee == e as int && ff == f as int && kk
                            < t as int + 1)) implies pair_represented(
                        results@,
                        *params,
                        targets@[kk],
                        store.entries@[ee].1@[ff],
                    ) by {
                        if ee == e as int && ff == f as int && kk == t as int {
                            assert(results@[results@.len() - 1].score as int == spec_clamped_score(
                                *params,
                                targets@[kk],
                                store.entries@[ee].1@[ff],
                            ));
                        } else {
                            assert(ee < e as int || (ee == e as int && ff < f as int) || (ee
                                == e as int && ff == f as int && kk < t as int));
                            assert(pair_represented(
                                results_pre,
                                *params,
                                targets@[kk],
                                store.entries@[ee].1@[ff],
                            ));
                            let j0 = choose|j: int|
                                0 <= j < results_pre.len() && (#[trigger] results_pre[j]).score as int
                                    == spec_clamped_score(
                                    *params,
                                    targets@[kk],
                                    store.entries@[ee].1@[ff],
                                );
                            assert(results@[j0] == results_pre[j0]);
                            assert(0 <= j0 < results@.len() && results@[j0].score as int
                                == spec_clamped_score(
                                *params,
                                targets@[kk],
                                store.entries@[ee].1@[ff],
                            ));
                        }
                    }
                }
                t = t + 1;
            }
            proof {
                assert(spec_inked(targets@, n_targets as int) == inked_total);
                assert((spec_ref_total(store.entries@, e as int) + f as int + 1) * inked_total == (
                spec_ref_total(store.entries@, e as int) + f as int) * inked_total + inked_total)
                    by (nonlinear_arith);
                assert forall|ee: int, ff: int, kk: int|
                    #![trigger store.entries@[ee].1@[ff], targets@[kk]]
                    0 <= ee < store.entries@.len() && 0 <= ff < store.entries@[ee].1@.len() && 0
                        <= kk < targets@.len() && targets@[kk].pixels > 0 && (ee < e as int || (ee
                        == e as int && ff < f as int + 1)) implies pair_represented(
                    results@,
                    *params,
                    targets@[kk],
                    store.entries@[ee].1@[ff],
                ) by {
                    assert(ee < e as int || (ee == e as int && ff < f as int) || (ee == e as int
                        && ff == f as int && kk < n_targets as int));
                }
            }
            f = f + 1;
        }
        proof {
            assert(spec_ref_total(store.entries@, e as int + 1) == spec_ref_total(
                store.entries@,
                e as int,
            ) + n_refs as int);
            assert forall|ee: int, ff: int, kk: int|
                #![trigger store.entries@[ee].1@[ff], targets@[kk]]
                0 <= ee < store.entries@.len() && 0 <= ff < store.entries@[ee].1@.len() && 0 <= kk
                    < targets@.len() && targets@[kk].pixels > 0 && ee
                    < e as int + 1 implies pair_represented(
                results@,
                *params,
                targets@[kk],
                store.entries@[ee].1@[ff],
            ) by {
                assert(ee < e as int || (ee == e as int && ff < n_refs as int));
            }
        }
        e = e + 1;
    }
    results
}

/// Second pass over the ranked survivors: the best `keep_lvl2` are
/// re-aligned and flagged as refined, the rest are kept unrefined; scores
/// never drop, so no unrefined result outranks a refined one and the
/// leading result keeps dominating every pair score.
fn refine_survivors(
    params: &Parameters,
    store: &ReferenceMatrixCache,
    results: Vec<OCRResult>,
    Ghost(targets): Ghost<Seq<TargetMatrix>>,
) -> (r: Vec<OCRResult>)
    requires
        params.wf(),
        store.wf(params.spec_halo_layers()),
        ranked(results@),
        all_from_store(results@, *store),
        all_refs_stored(results@, *store),
        all_refinable(results@, *params),
        all_scored(results@, *params),
        top_dominates(results@, *params, targets, *store),
    ensures
        r@.len() == results@.len(),
        all_from_store(r@, *store),
        all_refs_stored(r@, *store),
        all_scored(r@, *params),
        flags_dominated(r@),
        top_dominates(r@, *params, targets, *store),
{
    let keep2 = params.ocr_keep_results_lvl2 as usize;
    let mut refined: Vec<OCRResult> = Vec::new();
    let mut i: usize = 0;
    while i < results.len()
        invariant
            params.wf(),
            store.wf(params.spec_halo_layers()),
            keep2 == params.ocr_keep_results_lvl2,
            i <= results@.len(),
            refined@.len() == i as int,
            ranked(results@),
            all_from_store(results@, *store),
            all_from_store(refined@, *store),
            all_refs_stored(results@, *store),
            all_refs_stored(refined@, *store),
            all_refinable(results@, *params),
            all_scored(results@, *params),
            all_scored(refined@, *params),
            top_dominates(results@, *params, targets, *store),
            forall|j: int|
                0 <= j < i as int ==> (#[trigger] refined@[j]).refined_alignment == (j
                    < keep2 as int),
            forall|j: int| 0 <= j < i as int ==> (#[trigger] refined@[j]).score >= results@[j].score,
            forall|j: int|
                keep2 as int <= j < i as int ==> (#[trigger] refined@[j]).score
                    == results@[j].score,
        decreases results@.len() - i,
    {
        let ghost refined_pre = refined@;
        if i < keep2 {
            let better = refine_alignment(params, &results[i]);
            refined.push(better);
            proof {
                assert(rm_eq(refined@[i as int].reference, results@[i as int].reference));
            }
        } else {
            let mut kept = duplicate_result(&results[i]);
            kept.refined_alignment = false;
            refined.push(kept);
            proof {
                assert(rm_eq(refined@[i as int].reference, results@[i as int].reference));
            }
        }
        proof {
            assert(forall|j: int|
                0 <= j < refined_pre.len() ==> refined@[j] == #[trigger] refined_pre[j]);
            assert(store.spec_has_char(refined@[i as int].reference.character));
            assert(spec_scored(*params, refined@[i as int]));
            assert forall|jj: int| 0 <= jj < refined@.len() implies ref_stored(
                (#[trigger] refined@[jj]).reference,
                *store,
            ) by {
                if jj < refined_pre.len() {
                    assert(refined@[jj] == refined_pre[jj]);
                    assert(ref_stored(refined_pre[jj].reference, *store));
                } else {
                    assert(ref_stored(results@[i as int].reference, *store));
                    let (ee0, ff0) = choose|ee: int, ff: int|
                        #![trigger store.entries@[ee].1@[ff]]
                        0 <= ee < store.entries@.len() && 0 <= ff < store.entries@[ee].1@.len()
                            && rm_eq(results@[i as int].reference, store.entries@[ee].1@[ff]);
                    assert(rm_eq(refined@[jj].reference, store.entries@[ee0].1@[ff0]));
                    assert(ref_stored(refined@[jj].reference, *store));
                }
            }
        }
        i = i + 1;
    }
    proof {
        assert forall|j1: int, j2: int|
            0 <= j1 < refined@.len() && 0 <= j2 < refined@.len() && (
            #[trigger] refined@[j1]).refined_alignment && !(
            #[trigger] refined@[j2]).refined_alignment implies refined@[j2].score
            <= refined@[j1].score by {
            assert(j1 < keep2 as int);
            assert(j2 >= keep2 as int);
            if j1 < j2 {
                assert(better_or_eq(results@[j1], results@[j2]));
            }
            assert(refined@[j2].score == results@[j2].score);
            assert(results@[j2].score <= results@[j1].score);
            assert(refined@[j1].score >= results@[j1].score);
        }
        if refined@.len() > 0 {
            assert(refined@[0].score >= results@[0].score);
            assert forall|ee: int, ff: int, kk: int|
                #![trigger store.entries@[ee].1@[ff], targets[kk]]
                0 <= ee < store.entries@.len() && 0 <= ff < store.entries@[ee].1@.len() && 0 <= kk
                    < targets.len() && targets[kk].pixels > 0 implies spec_clamped_score(
                *params,
                targets[kk],
                store.entries@[ee].1@[ff],
            ) <= refined@[0].score as int by {
                assert(spec_clamped_score(*params, targets[kk], store.entries@[ee].1@[ff])
                    <= results@[0].score as int);
            }
        }
        assert(top_dominates(refined@, *params, targets, *store));
    }
    refined
}

/// Scores every (inked target, stored reference) pair of one task, keeps
/// the best `keep_lvl1` results, re-aligns the best `keep_lvl2` of those,
/// and reports at most `max_characters` candidates, ranked best first: the
/// output length is exactly the pair count under both caps, every result is
/// faithfully scored against a stored reference, the leading result
/// dominates the model score of every pair, and no unrefined result
/// outranks a refined one. Targets without any ink are skipped, so a blank
/// image yields no candidates; an empty store likewise.
#[verifier::rlimit(100)]
pub fn run_matcher(
    params: &Parameters,
    targets: &Vec<TargetMatrix>,
    store: &ReferenceMatrixCache,
) -> (r: Vec<OCRResult>)
    requires
        params.wf(),
        store.wf(params.spec_halo_layers()),
        forall|k: int|
            0 <= k < targets@.len() ==> {
                &&& (#[trigger] targets@[k]).halo@.len() == params.spec_halo_layers()
                &&& -1000 <= targets@[k].transform.horizontal_translate <= 1000
                &&& -1000 <= targets@[k].transform.vertical_translate <= 1000
            },
    ensures
        ranked(r@),
        r@.len() as int == min_int(
            params.ocr_max_characters as int,
            min_int(params.ocr_keep_results_lvl1 as int, spec_pair_count(targets@, *store)),
        ),
        r@.len() <= params.ocr_max_characters,
        all_from_store(r@, *store),
        all_refs_stored(r@, *store),
        all_scored(r@, *params),
        top_dominates(r@, *params, targets@, *store),
        flags_dominated(r@),
        (forall|k: int| 0 <= k < targets@.len() ==> (#[trigger] targets@[k]).pixels == 0) ==> r@.len()
            == 0,
{
    let ghost pair_total = spec_pair_count(targets@, *store);
    let results = select_candidates(params, targets, store);
    let ghost len1 = results@.len() as int;
    let refined = refine_survivors(params, store, results, Ghost(targets@));
    let ghost phase2 = refined@;
    let mut out = sort_results(refined);
    proof {
        lemma_all_from_store_perm(phase2, out@, *store);
        lemma_all_scored_perm(phase2, out@, *params);
        lemma_all_refs_stored_perm(phase2, out@, *store);
        lemma_flags_dominated_perm(phase2, out@);
        lemma_top_preserved_by_sort(phase2, out@, *params, targets@, *store);
    }
    let maxc = params.ocr_max_characters as usize;
    if out.len() > maxc {
        let ghost sorted2 = out@;
        out.truncate(maxc);
        proof {
            assert(forall|jj: int|
                0 <= jj < out@.len() ==> #[trigger] out@[jj] == sorted2[jj]);
            lemma_top_preserved_by_prefix(sorted2, out@, *params, targets@, *store);
            assert forall|j1: int, j2: int|
                0 <= j1 < out@.len() && 0 <= j2 < out@.len() && (
                #[trigger] out@[j1]).refined_alignment && !(
                #[trigger] out@[j2]).refined_alignment implies out@[j2].score <= out@[j1].score by {
                assert(out@[j1] == sorted2[j1]);
                assert(out@[j2] == sorted2[j2]);
            }
        }
    }
    proof {
        lemma_pair_count_bounds(targets@, *store);
    }
    out
}

/// First selection tier: every pair scored, ranked best first, and cut to
/// the best `keep_lvl1`.
fn select_candidates(
    params: &Parameters,
    targets: &Vec<TargetMatrix>,
    store: &ReferenceMatrixCache,
) -> (r: Vec<OCRResult>)
    requires
        params.wf(),
        store.wf(params.spec_halo_layers()),
        forall|k: int|
            0 <= k < targets@.len() ==> {
                &&& (#[trigger] targets@[k]).halo@.len() == params.spec_halo_layers()
                &&& -1000 <= targets@[k].transform.horizontal_translate <= 1000
                &&& -1000 <= targets@[k].transform.vertical_translate <= 1000
            },
    ensures
        ranked(r@),
        r@.len() as int == min_int(
            params.ocr_keep_results_lvl1 as int,
            spec_pair_count(targets@, *store),
        ),
        all_from_store(r@, *store),
        all_refs_stored(r@, *store),
        all_refinable(r@, *params),
        all_scored(r@, *params),
        top_dominates(r@, *params, targets@, *store),
{
    let results = score_all_pairs(params, targets, store);
    let ghost phase1 = results@;
    let mut results = sort_results(results);
    proof {
        lemma_all_from_store_perm(phase1, results@, *store);
        lemma_all_refinable_perm(phase1, results@, *params);
        lemma_all_scored_perm(phase1, results@, *params);
        lemma_all_refs_stored_perm(phase1, results@, *store);
        lemma_top_from_represented(phase1, results@, *params, targets@, *store);
    }
    let keep1 = params.ocr_keep_results_lvl1 as usize;
    if results.len() > keep1 {
        let ghost sorted1 = results@;
        results.truncate(keep1);
        proof {
            assert(forall|jj: int|
                0 <= jj < results@.len() ==> #[trigger] results@[jj] == sorted1[jj]);
            lemma_top_preserved_by_prefix(sorted1, results@, *params, targets@, *store);
        }
    }
    results
}

/// After any permutation that ends up ranked, the leading element
/// dominates every pair score that some element of the original carried.
proof fn lemma_top_from_represented(
    a: Seq<OCRResult>,
    b: Seq<OCRResult>,
    p: Parameters,
    targets: Seq<TargetMatrix>,
    store: ReferenceMatrixCache,
)
    requires
        a.to_multiset() == b.to_multiset(),
        b.len() == a.len(),
        ranked(b),
        forall|ee: int, ff: int, kk: int|
            #![trigger store.entries@[ee].1@[ff], targets[kk]]
            0 <= ee < store.entries@.len() && 0 <= ff < store.entries@[ee].1@.len() && 0 <= kk
                < targets.len() && targets[kk].pixels > 0 ==> pair_represented(
                a,
                p,
                targets[kk],
                store.entries@[ee].1@[ff],
            ),
    ensures
        top_dominates(b, p, targets, store),
{
    if b.len() > 0 {
        assert forall|ee: int, ff: int, kk: int|
            #![trigger store.entries@[ee].1@[ff], targets[kk]]
            0 <= ee < store.entries@.len() && 0 <= ff < store.entries@[ee].1@.len() && 0 <= kk
                < targets.len() && targets[kk].pixels > 0 implies spec_clamped_score(
            p,
            targets[kk],
            store.entries@[ee].1@[ff],
        ) <= b[0].score as int by {
            assert(pair_represented(a, p, targets[kk], store.entries@[ee].1@[ff]));
            let j0 = choose|j: int|
                0 <= j < a.len() && (#[trigger] a[j]).score as int == spec_clamped_score(
                    p,
                    targets[kk],
                    store.entries@[ee].1@[ff],
                );
            assert(a.to_multiset().count(a[j0]) > 0);
            assert(b.to_multiset().count(a[j0]) > 0);
            assert(b.contains(a[j0]));
            let j1 = choose|j: int| 0 <= j < b.len() && b[j] == a[j0];
            assert(better_or_eq(b[0], b[j1]));
        }
    }
}

/// A ranked permutation keeps the leading element\'s dominance: the new
/// leader scores at least the old one.
proof fn lemma_top_preserved_by_sort(
    a: Seq<OCRResult>,
    b: Seq<OCRResult>,
    p: Parameters,
    targets: Seq<TargetMatrix>,
    store: ReferenceMatrixCache,
)
    requires
        a.to_multiset() == b.to_multiset(),
        b.len() == a.len(),
        ranked(b),
        top_dominates(a, p, targets, store),
    ensures
        top_dominates(b, p, targets, store),
{
    if b.len() > 0 {
        assert(a.to_multiset().count(a[0]) > 0);
        assert(b.to_multiset().count(a[0]) > 0);
        assert(b.contains(a[0]));
        let j1 = choose|j: int| 0 <= j < b.len() && b[j] == a[0];
        assert(better_or_eq(b[0], b[j1]));
        assert forall|ee: int, ff: int, kk: int|
            #![trigger store.entries@[ee].1@[ff], targets[kk]]
            0 <= ee < store.entries@.len() && 0 <= ff < store.entries@[ee].1@.len() && 0 <= kk
                < targets.len() && targets[kk].pixels > 0 implies spec_clamped_score(
            p,
            targets[kk],
            store.entries@[ee].1@[ff],
        ) <= b[0].score as int by {
            assert(spec_clamped_score(p, targets[kk], store.entries@[ee].1@[ff])
                <= a[0].score as int);
        }
    }
}

/// A prefix of a dominating, ranked list keeps every listed property.
proof fn lemma_top_preserved_by_prefix(
    a: Seq<OCRResult>,
    b: Seq<OCRResult>,
    p: Parameters,
    targets: Seq<TargetMatrix>,
    store: ReferenceMatrixCache,
)
    requires
        b.len() <= a.len(),
        forall|j: int| 0 <= j < b.len() ==> #[trigger] b[j] == a[j],
        top_dominates(a, p, targets, store),
    ensures
        top_dominates(b, p, targets, store),
{
    if b.len() > 0 {
        assert(b[0] == a[0]);
        assert(a.len() > 0);
        assert forall|ee: int, ff: int, kk: int|
            #![trigger store.entries@[ee].1@[ff], targets[kk]]
            0 <= ee < store.entries@.len() && 0 <= ff < store.entries@[ee].1@.len() && 0 <= kk
                < targets.len() && targets[kk].pixels > 0 implies spec_clamped_score(
            p,
            targets[kk],
            store.entries@[ee].1@[ff],
        ) <= b[0].score as int by {
            assert(spec_clamped_score(p, targets[kk], store.entries@[ee].1@[ff])
                <= a[0].score as int);
        }
    }
}

/// Bounds on the pair count: never negative, zero when every target is
/// blank, and at least one when the store holds a reference and some
/// target carries ink.
pub proof fn lemma_pair_count_bounds(targets: Seq<TargetMatrix>, store: ReferenceMatrixCache)
    ensures
        spec_pair_count(targets, store) >= 0,
        (forall|k: int| 0 <= k < targets.len() ==> (#[trigger] targets[k]).pixels == 0)
            ==> spec_pair_count(targets, store) == 0,
{
    let r = spec_ref_total(store.entries@, store.entries@.len() as int);
    let i = spec_inked(targets, targets.len() as int);
    lemma_ref_total_nonneg(store.entries@, store.entries@.len() as int);
    lemma_inked_bounds(targets, targets.len() as int);
    assert(r * i >= 0) by (nonlinear_arith)
        requires
            r >= 0,
            i >= 0,
    ;
    if forall|k: int| 0 <= k < targets.len() ==> (#[trigger] targets[k]).pixels == 0 {
        lemma_inked_zero_when_blank(targets, targets.len() as int);
        assert(r * i == 0) by (nonlinear_arith)
            requires
                i == 0,
        ;
    }
}

/// With at least one stored reference and one inked target, at least one
/// pair is scored.
pub proof fn lemma_pair_count_pos(
    targets: Seq<TargetMatrix>,
    store: ReferenceMatrixCache,
    ee: int,
    ff: int,
    kk: int,
)
    requires
        0 <= ee < store.entries@.len(),
        0 <= ff < store.entries@[ee].1@.len(),
        0 <= kk < targets.len(),
        targets[kk].pixels > 0,
    ensures
        spec_pair_count(targets, store) >= 1,
{
    let r = spec_ref_total(store.entries@, store.entries@.len() as int);
    let i = spec_inked(targets, targets.len() as int);
    lemma_ref_total_at_least_one(store.entries@, ee, store.entries@.len() as int);
    lemma_inked_at_least_one(targets, kk, targets.len() as int);
    assert(r * i >= 1) by (nonlinear_arith)
        requires
            r >= 1,
            i >= 1,
    ;
}

/// A permutation keeps the property that every result can go through the
/// refinement pass.
proof fn lemma_all_refinable_perm(a: Seq<OCRResult>, b: Seq<OCRResult>, p: Parameters)
    requires
        a.to_multiset() == b.to_multiset(),
        all_refinable(a, p),
    ensures
        all_refinable(b, p),
{
    assert forall|j: int| 0 <= j < b.len() implies {
        &&& (#[trigger] b[j]).reference.wf(p.spec_halo_layers())
        &&& -1000 <= b[j].target.transform.horizontal_translate <= 1000
        &&& -1000 <= b[j].target.transform.vertical_translate <= 1000
    } by {
        assert(b.to_multiset().count(b[j]) > 0);
        assert(a.to_multiset().count(b[j]) > 0);
        assert(a.contains(b[j]));
        let k = choose|k: int| 0 <= k < a.len() && a[k] == b[j];
        assert(a[k].reference.wf(p.spec_halo_layers()));
    }
}

/// A permutation keeps the property that every result is faithfully scored.
proof fn lemma_all_scored_perm(a: Seq<OCRResult>, b: Seq<OCRResult>, p: Parameters)
    requires
        a.to_multiset() == b.to_multiset(),
        all_scored(a, p),
    ensures
        all_scored(b, p),
{
    assert forall|j: int| 0 <= j < b.len() implies spec_scored(p, #[trigger] b[j]) by {
        assert(b.to_multiset().count(b[j]) > 0);
        assert(a.to_multiset().count(b[j]) > 0);
        assert(a.contains(b[j]));
        let k = choose|k: int| 0 <= k < a.len() && a[k] == b[j];
        assert(spec_scored(p, a[k]));
    }
}

/// A permutation keeps the property that every result's character is known
/// to the store.
proof fn lemma_all_from_store_perm(a: Seq<OCRResult>, b: Seq<OCRResult>, store: ReferenceMatrixCache)
    requires
        a.to_multiset() == b.to_multiset(),
        all_from_store(a, store),
    ensures
        all_from_store(b, store),
{
    assert forall|j: int| 0 <= j < b.len() implies store.spec_has_char(
        (#[trigger] b[j]).reference.character,
    ) by {
        assert(b.to_multiset().count(b[j]) > 0);
        assert(a.to_multiset().count(b[j]) > 0);
        assert(a.contains(b[j]));
        let k = choose|k: int| 0 <= k < a.len() && a[k] == b[j];
        assert(store.spec_has_char(a[k].reference.character));
    }
}

} // verus!
