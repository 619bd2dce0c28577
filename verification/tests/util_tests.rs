use kanjitomo::error::KanjitomoError;
use kanjitomo::matrix::count_bits_num;
use kanjitomo::util::{contains_pixel, is_hiragana, is_kana, is_kanji, is_katakana, scale};

#[test]
fn test_is_kanji() {
    assert_eq!(true, is_kanji('漢'));
    assert_eq!(true, is_kanji('字'));
    assert_eq!(true, is_kanji('名'))
}

#[test]
fn util_test_is_kanji() {
    assert_eq!(true, is_kanji('漢'));
    assert_eq!(true, is_kanji('字'));
    assert_eq!(true, is_kanji('名'))
}

#[test]
fn test_is_hiragana() {
    assert_eq!(true, is_hiragana('ぬ'));
    assert_eq!(true, is_hiragana('へ'));
    assert_eq!(true, is_hiragana('よ'));
}

#[test]
fn util_test_is_hiragana() {
    assert_eq!(true, is_hiragana('ぬ'));
    assert_eq!(true, is_hiragana('へ'));
    assert_eq!(true, is_hiragana('よ'));
}

#[test]
fn test_is_katakana() {
    assert_eq!(true, is_katakana('ウ'));
    assert_eq!(true, is_katakana('チ'));
    assert_eq!(true, is_katakana('ハ'));
}

#[test]
fn util_test_is_katakana() {
    assert_eq!(true, is_katakana('ウ'));
    assert_eq!(true, is_katakana('チ'));
    assert_eq!(true, is_katakana('ハ'));
}

#[test]
fn test_is_kana() {
    assert_eq!(true, is_kana('チ'));
    assert_eq!(true, is_kana('へ'));
}

#[test]
fn util_test_is_kana() {
    assert_eq!(true, is_kana('チ'));
    assert_eq!(true, is_kana('へ'));
}

#[test]
fn kanji_rejects_kana() {
    assert_eq!(false, is_kanji('ぬ'));
    assert_eq!(false, is_hiragana('字'));
    assert_eq!(false, is_katakana('ぬ'));
}

#[test]
fn test_count_bits() {
    assert_eq!(6, count_bits_num(0b111110001))
}

#[test]
fn contains_pixel_needs_two_dark_channels() {
    // red and blue dark, green bright: two channels below the threshold.
    assert!(contains_pixel(0x0010FF10, 140));
    // only red dark.
    assert!(!contains_pixel(0x0010FFFF, 140));
    // all bright.
    assert!(!contains_pixel(0x00FFFFFF, 140));
}

#[test]
fn scale_maps_range_linearly() {
    // midpoint of [0, 100] onto [10, 20].
    assert_eq!(scale(50, 0, 100, 10, 20).unwrap(), 15);
    // an odd target span rounds to the nearest integer.
    assert_eq!(scale(50, 0, 100, 10, 21).unwrap(), 16);
    // clamped below and above the source range.
    assert_eq!(scale(-5, 0, 100, 10, 20).unwrap(), 10);
    assert_eq!(scale(500, 0, 100, 10, 20).unwrap(), 20);
}

#[test]
fn scale_rejects_inverted_range() {
    match scale(50, 100, 0, 10, 20) {
        Err(KanjitomoError::ScaleError { min_source_value, max_source_value }) => {
            assert_eq!(min_source_value, 100);
            assert_eq!(max_source_value, 0);
        }
        _ => panic!("an inverted range must be reported"),
    }
}
