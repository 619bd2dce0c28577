//! Small value helpers: pixel classification, character class tests and the
//! linear value-scaling helper used when picking resize dimensions.

use vstd::prelude::*;
use crate::error::KanjitomoError;

verus! {

/// True when at least two of the three colour channels of the packed
/// 0x00RRGGBB value lie below the threshold.
pub open spec fn spec_contains_pixel(rgb: u32, black_threshold: u8) -> bool {
    let red = ((rgb & 0x00ff0000) >> 16) < black_threshold as u32;
    let green = ((rgb & 0x0000ff00) >> 8) < black_threshold as u32;
    let blue = (rgb & 0x000000ff) < black_threshold as u32;
    (red && green) || (green && blue) || (red && blue)
}

/// Classifies a packed 0x00RRGGBB pixel as ink when at least two of its
/// channels fall below the threshold.
pub fn contains_pixel(rgb: u32, black_threshold: u8) -> (r: bool)
    ensures
        r == spec_contains_pixel(rgb, black_threshold),
{
    let red = ((rgb & 0x00ff0000) >> 16) < black_threshold as u32;
    let green = ((rgb & 0x0000ff00) >> 8) < black_threshold as u32;
    let blue = (rgb & 0x000000ff) < black_threshold as u32;

    (red && green) || (green && blue) || (red && blue)
}

pub open spec fn spec_is_hiragana(c: char) -> bool {
    c == '|' || (0x3040 <= c as u32 && c as u32 <= 0x309F)
}

pub open spec fn spec_is_katakana(c: char) -> bool {
    c == '|' || (0x30A0 <= c as u32 && c as u32 <= 0x30FF)
}

pub open spec fn spec_is_kanji(c: char) -> bool {
    c as u32 == 0x3005 || (0x4E00 <= c as u32 && c as u32 <= 0x9FAF)
}

/// True for characters of the hiragana block, and for the prolonged sound
/// mark written as a vertical bar.
pub fn is_hiragana(c: char) -> (r: bool)
    ensures
        r == spec_is_hiragana(c),
{
    if c == '|' {
        true
    } else {
        let c = c as u32;
        c >= 0x3040 && c <= 0x309F
    }
}

/// True for characters of the katakana block, and for the prolonged sound
/// mark written as a vertical bar.
pub fn is_katakana(c: char) -> (r: bool)
    ensures
        r == spec_is_katakana(c),
{
    if c == '|' {
        true
    } else {
        let c = c as u32;
        c >= 0x30A0 && c <= 0x30FF
    }
}

/// True for any kana character.
pub fn is_kana(c: char) -> (r: bool)
    ensures
        r == (spec_is_hiragana(c) || spec_is_katakana(c)),
{
    is_hiragana(c) || is_katakana(c)
}

/// True for the unified CJK ideograph block and the iteration mark.
pub fn is_kanji(c: char) -> (r: bool)
    ensures
        r == spec_is_kanji(c),
{
    let c = c as u32;
    if c == 0x3005 {
        true
    } else {
        c >= 0x4E00 && c <= 0x9FAF
    }
}

/// Relies on String::push: appends one character to the string.
#[verifier::external_body]
pub(crate) fn push_char(s: &mut String, c: char)
    ensures
        final(s)@ == old(s)@.push(c),
{
    s.push(c);
}

/// An equal-valued copy of a vector of plain copyable values.
pub fn copy_vec<T: Copy>(v: &Vec<T>) -> (r: Vec<T>)
    ensures
        r@ == v@,
{
    let mut r: Vec<T> = Vec::new();
    let mut i: usize = 0;
    while i < v.len()
        invariant
            i <= v@.len(),
            r@ == v@.take(i as int),
        decreases v@.len() - i,
    {
        r.push(v[i]);
        proof {
            assert(r@ =~= v@.take(i as int + 1));
        }
        i = i + 1;
    }
    proof {
        assert(v@.take(v@.len() as int) =~= v@);
    }
    r
}

pub open spec fn clamp_int(v: int, lo: int, hi: int) -> int {
    if v < lo {
        lo
    } else if v > hi {
        hi
    } else {
        v
    }
}

/// Value of the scaling helper on a well-formed range: the source value is
/// clamped into [min, max], mapped linearly so that `min` lands on
/// `target_1` and `max` on `target_2` (rounding to the nearest integer,
/// halves up), and the result is kept between the two targets.
pub open spec fn spec_scale(s: int, min_s: int, max_s: int, t1: int, t2: int) -> int {
    let lo = if t1 <= t2 {
        t1
    } else {
        t2
    };
    let hi = if t1 <= t2 {
        t2
    } else {
        t1
    };
    if max_s <= min_s {
        t1
    } else {
        let sc = clamp_int(s, min_s, max_s);
        let den = max_s - min_s;
        let span = sc - min_s;
        clamp_int((t1 * (den - span) + t2 * span + den / 2) / den, lo, hi)
    }
}

/// Linear scaling helper: maps `source_value` from the source range onto
/// the target range. An inverted source range (min above max) is a
/// configuration error and is reported, never clamped away.
pub fn scale(
    source_value: i64,
    min_source_value: i64,
    max_source_value: i64,
    target_1: i64,
    target_2: i64,
) -> (r: Result<u32, KanjitomoError>)
    requires
        -10000000 <= source_value <= 10000000,
        -10000000 <= min_source_value <= 10000000,
        -10000000 <= max_source_value <= 10000000,
        0 <= target_1 <= u32::MAX,
        0 <= target_2 <= u32::MAX,
    ensures
        r is Err <==> min_source_value > max_source_value,
        r matches Err(e) ==> e matches KanjitomoError::ScaleError {
            min_source_value: emin,
            max_source_value: emax,
        } && emin == min_source_value && emax == max_source_value,
        r matches Ok(v) ==> v as int == spec_scale(
            source_value as int,
            min_source_value as int,
            max_source_value as int,
            target_1 as int,
            target_2 as int,
        ),
{
    if min_source_value > max_source_value {
        return Err(
            KanjitomoError::ScaleError {
                min_source_value,
                max_source_value,
            },
        );
    }
    let lo: i64 = if target_1 <= target_2 {
        target_1
    } else {
        target_2
    };
    let hi: i64 = if target_1 <= target_2 {
        target_2
    } else {
        target_1
    };
    if max_source_value <= min_source_value {
        return Ok(target_1 as u32);
    }
    let sc: i64 = if source_value < min_source_value {
        min_source_value
    } else if source_value > max_source_value {
        max_source_value
    } else {
        source_value
    };
    let den: i64 = max_source_value - min_source_value;
    let span: i64 = sc - min_source_value;
    proof {
        assert(0 <= target_1 * (den - span) <= 86000000000000000 && 0 <= target_2 * span
            <= 86000000000000000) by (nonlinear_arith)
            requires
                0 <= target_1 <= 4294967295,
                0 <= target_2 <= 4294967295,
                0 <= span <= den <= 20000000,
        ;
        assert((target_1 as int * (den - span) as int + target_2 as int * span as int + (den
            / 2) as int) / den as int >= 0);
    }
    let raw: i64 = (target_1 * (den - span) + target_2 * span + den / 2) / den;
    let clamped: i64 = if raw < lo {
        lo
    } else if raw > hi {
        hi
    } else {
        raw
    };
    Ok(clamped as u32)
}

} // verus!
