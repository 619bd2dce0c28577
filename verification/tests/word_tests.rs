use kanjitomo::gray::GrayBuffer;
use kanjitomo::ocr_task::OCRTask;
use kanjitomo::params::Parameters;
use kanjitomo::reference::{Component, ComponentFindUnconnected, Pixel};
use kanjitomo::transformation::Transformation;
use kanjitomo::{build_ocr_output, Rect, Word};

#[test]
fn test_static_parameters() {
    // The stock configuration carries the documented defaults.
    let p = Parameters::default();
    assert_eq!(p.target_size, 30);
    assert_eq!(p.max_translate, 1);
    assert_eq!(p.max_stretch, 2);
    assert_eq!(p.max_steps, 3);
    assert_eq!(p.pixel_rgba_threshold, 140);
    assert_eq!(p.ocr_halo_size, 3);
    assert_eq!(p.ocr_black_pixel_score, 4);
    assert_eq!(p.ocr_white_score, 4);
    assert_eq!(p.ocr_target_halo_scores, [-1, -5, -12, -12]);
    assert_eq!(p.ocr_reference_halo_scores, [-1, -4, -10, -10]);
    assert_eq!(p.ocr_connected_halo_pixels_score, -5);
    assert_eq!(p.ocr_base_score, 1000);
    assert_eq!(p.ocr_keep_results_lvl1, 50);
    assert_eq!(p.ocr_keep_results_lvl2, 12);
    assert_eq!(p.ocr_max_characters, 8);
    assert_eq!(p.ocr_threads, 8);
    assert_eq!(p, Parameters::default())
}

#[test]
fn test_kanji_count() {
    let word = Word::new("腹切り".to_owned(), "".to_owned(), "".to_owned(), false);

    assert_eq!(2, word.kanji_count)
}

#[test]
fn common_marker_in_description() {
    let common = Word::new(
        "字".to_owned(),
        "じ".to_owned(),
        "character (P)".to_owned(),
        false,
    );
    assert!(common.common);
    let rare = Word::new("字".to_owned(), "じ".to_owned(), "character".to_owned(), false);
    assert!(!rare.common);
}

#[test]
fn transformation_equality_and_contains() {
    let t = Transformation::new(1, -2, 3, -4);
    assert!(t.contains(1, -2, 3, -4));
    assert!(!t.contains(1, -2, 3, 4));
    assert_eq!(t, Transformation::new(1, -2, 3, -4));
    assert_eq!(Pixel::new(3, 4), Pixel::new(3, 4));
}

#[test]
fn flood_fill_separates_disconnected_regions() {
    let mut mx = [0u32; 32];
    // Two regions: a 2x2 block and one far-away cell.
    for &(x, y) in &[(2u32, 2u32), (3, 2), (2, 3), (3, 3), (20, 20)] {
        mx[y as usize] |= 1u32 << (31 - x);
    }
    let seed = Component {
        bounds: Rect { x: 0, y: 0, width: 32, height: 32 },
        matrix: mx,
        pixels: 5,
    };
    let mut finder = ComponentFindUnconnected::new(seed);
    let components = finder.run();
    assert_eq!(components.len(), 2);
    let mut sizes: Vec<u32> = components.iter().map(|c| c.pixels).collect();
    sizes.sort();
    assert_eq!(sizes, vec![1, 4]);
    for c in &components {
        if c.pixels == 4 {
            assert_eq!(c.bounds, Rect { x: 2, y: 2, width: 2, height: 2 });
        } else {
            assert_eq!(c.bounds, Rect { x: 20, y: 20, width: 1, height: 1 });
        }
    }
}

#[test]
fn empty_tasks_build_empty_output() {
    let tasks: Vec<OCRTask> = vec![
        OCRTask::new(GrayBuffer::new(1, 1, vec![255])),
        OCRTask::new(GrayBuffer::new(1, 1, vec![255])),
    ];
    let out = build_ocr_output(&tasks);
    assert_eq!(out.characters.len(), 2);
    assert_eq!(out.best_matching_characters.len(), 2);
    assert_eq!(out.search_string, "");
    assert_eq!(out.characters[0].reference_characters, "");
    let task = &tasks[0];
    assert_eq!(task.get_result_string(), "");
    assert!(task.get_character().is_none());
}
