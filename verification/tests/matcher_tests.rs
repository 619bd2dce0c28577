use kanjitomo::matcher::{run_matcher, score_pair, sort_results};
use kanjitomo::matrix::{build_mx_halo, count_bits};
use kanjitomo::params::Parameters;
use kanjitomo::reference::{ReferenceMatrixCache, ReferenceMatrixCacheBuilder};
use kanjitomo::transformation::{TargetMatrix, Transformation};

fn matrix_of(cells: &[(u32, u32)]) -> [u32; 32] {
    let mut mx = [0u32; 32];
    for &(x, y) in cells {
        mx[y as usize] |= 1u32 << (31 - x);
    }
    mx
}

fn target_of(mx: [u32; 32], params: &Parameters, transform: Transformation) -> TargetMatrix {
    let mut grown = mx;
    let halo = build_mx_halo(&mut grown, params.ocr_halo_size - 1);
    let pixels = count_bits(&mx);
    TargetMatrix::new(mx, pixels, halo, 0, transform)
}

fn glyph() -> [u32; 32] {
    // A small cross.
    matrix_of(&[(10, 10), (9, 10), (11, 10), (10, 9), (10, 11)])
}

fn store_with_glyph(params: &Parameters) -> ReferenceMatrixCache {
    let mut builder = ReferenceMatrixCacheBuilder::new(*params);
    builder.add_reference('字', glyph(), 0, "test-font".to_owned(), );
    builder.build()
}

#[test]
fn exact_match_scores_full_agreement() {
    let params = Parameters::default();
    let store = store_with_glyph(&params);
    let refs = store.lookup('字');
    assert_eq!(refs.len(), 1);
    let identity = Transformation::new(0, 0, 0, 0);
    let target = target_of(glyph(), &params, identity);
    let result = score_pair(&params, &target, &refs[0]);
    let p = count_bits(&glyph());
    assert_eq!(result.black_pixels, p);
    assert_eq!(result.white_pixels, 1024 - p);
    // Halo rings never overlap the glyph itself on an exact match.
    assert_eq!(result.target_halo_pixels, 0);
    assert_eq!(result.reference_halo_pixels, 0);
    // base 1000 + 4 per black + 4 per white = 1000 + 4 * 1024.
    assert_eq!(result.score, 5096);
    assert_eq!(result.avg_score, 500);
    assert!(!result.refined_alignment);
}

#[test]
fn exact_match_tops_the_candidates() {
    let params = Parameters::default();
    let store = store_with_glyph(&params);
    let identity = Transformation::new(0, 0, 0, 0);
    let targets = vec![
        target_of(glyph(), &params, identity),
        target_of(matrix_of(&[(20, 20)]), &params, Transformation::new(1, 0, 0, 0)),
    ];
    let results = run_matcher(&params, &targets, &store);
    assert!(results.len() >= 1);
    assert_eq!(results[0].reference.character, '字');
    assert_eq!(results[0].score, 5096);
    for w in results.windows(2) {
        assert!(
            w[0].score > w[1].score
                || (w[0].score == w[1].score && w[0].avg_score >= w[1].avg_score)
        );
    }
}

#[test]
fn blank_target_yields_no_candidates() {
    let params = Parameters::default();
    let store = store_with_glyph(&params);
    let blank = target_of([0u32; 32], &params, Transformation::new(0, 0, 0, 0));
    assert_eq!(blank.pixels, 0);
    let results = run_matcher(&params, &vec![blank], &store);
    assert_eq!(results.len(), 0);
}

#[test]
fn empty_store_yields_no_candidates() {
    let params = Parameters::default();
    let store = ReferenceMatrixCache::new();
    let target = target_of(glyph(), &params, Transformation::new(0, 0, 0, 0));
    let results = run_matcher(&params, &vec![target], &store);
    assert_eq!(results.len(), 0);
}

#[test]
fn lookup_of_unknown_character_is_empty() {
    let params = Parameters::default();
    let store = store_with_glyph(&params);
    let missing = store.lookup('名');
    assert_eq!(missing.len(), 0);
    let found = store.lookup('字');
    assert_eq!(found.len(), 1);
    assert_eq!(found[0].character, '字');
}

#[test]
fn more_agreement_never_scores_lower() {
    let params = Parameters::default();
    let store = store_with_glyph(&params);
    let refs = store.lookup('字');
    let identity = Transformation::new(0, 0, 0, 0);
    // The exact glyph against itself, versus a glyph with one cell missing:
    // strictly less black and equal-or-less white agreement.
    let exact = score_pair(&params, &target_of(glyph(), &params, identity), &refs[0]);
    let partial = matrix_of(&[(10, 10), (9, 10), (11, 10), (10, 9)]);
    let worse = score_pair(&params, &target_of(partial, &params, identity), &refs[0]);
    assert!(worse.black_pixels < exact.black_pixels);
    assert!(exact.score >= worse.score);
}

#[test]
fn sorting_ranks_by_score_then_avg() {
    let params = Parameters::default();
    let store = store_with_glyph(&params);
    let refs = store.lookup('字');
    let identity = Transformation::new(0, 0, 0, 0);
    let a = score_pair(&params, &target_of(glyph(), &params, identity), &refs[0]);
    let b = score_pair(
        &params,
        &target_of(matrix_of(&[(10, 10)]), &params, identity),
        &refs[0],
    );
    let a_score = a.score;
    let b_score = b.score;
    let sorted = sort_results(vec![b, a]);
    assert_eq!(sorted.len(), 2);
    assert_eq!(sorted[0].score, a_score.max(b_score));
    assert_eq!(sorted[1].score, a_score.min(b_score));
}

#[test]
fn results_never_exceed_max_characters() {
    let mut params = Parameters::default();
    params.ocr_max_characters = 2;
    let mut builder = ReferenceMatrixCacheBuilder::new(params);
    builder.add_reference('一', matrix_of(&[(5, 5)]), 0, "test-font".to_owned());
    builder.add_reference('二', matrix_of(&[(6, 6)]), 0, "test-font".to_owned());
    builder.add_reference('三', matrix_of(&[(7, 7)]), 0, "test-font".to_owned());
    let store = builder.build();
    let target = target_of(glyph(), &params, Transformation::new(0, 0, 0, 0));
    let results = run_matcher(&params, &vec![target], &store);
    assert!(results.len() <= 2);
}
