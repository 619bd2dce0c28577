use kanjitomo::gray::{
    build_bit_mx_from_32_image, build_image_from_32bit_mx, build_scaled_image,
    create_square_image, create_white_image, make_bw, sharpen_image, stretch,
    stretch_check_ratio, GrayBuffer,
};
use kanjitomo::matrix::{count_bits, is_bit_set, move_matrix};
use kanjitomo::params::Parameters;
use kanjitomo::transform_search::Transform;

fn gray(width: u32, height: u32, value: u8) -> GrayBuffer {
    GrayBuffer::new(width, height, vec![value; (width * height) as usize])
}

#[test]
fn stretch_resamples_to_the_new_dimensions() {
    // Left half ink, right half paper.
    let mut pixels = Vec::new();
    for _y in 0..32 {
        for x in 0..32 {
            pixels.push(if x < 16 { 0u8 } else { 255u8 });
        }
    }
    let img = GrayBuffer::new(32, 32, pixels);
    let out = stretch(&img, 16, 16);
    assert_eq!(out.width, 16);
    assert_eq!(out.height, 16);
    assert_eq!(out.pixels.len(), 256);
    // The resampled image still holds both dark and light pixels.
    assert!(out.pixels.iter().any(|&v| v < 64));
    assert!(out.pixels.iter().any(|&v| v > 192));
}

#[test]
fn sharpen_amplifies_an_isolated_dot() {
    let mut img = gray(3, 3, 0);
    img.pixels[4] = 100;
    let out = sharpen_image(&img);
    assert_eq!(out.width, 3);
    assert_eq!(out.height, 3);
    // 5 * 100 minus four zero neighbours, clamped to the pixel range.
    assert_eq!(out.pixels[4], 255);
}

#[test]
fn make_bw_thresholds_pixels() {
    let img = GrayBuffer::new(2, 2, vec![0, 139, 140, 255]);
    let bw = make_bw(&img, None);
    assert_eq!(bw.pixels, vec![0, 0, 255, 255]);
    let strict = make_bw(&img, Some(1));
    assert_eq!(strict.pixels, vec![0, 255, 255, 255]);
}

#[test]
fn square_image_centres_on_paper() {
    let img = gray(2, 2, 7);
    let sq = create_square_image(&img, 6);
    assert_eq!(sq.width, 6);
    assert_eq!(sq.height, 6);
    assert_eq!(sq.get(2, 2), 7);
    assert_eq!(sq.get(3, 3), 7);
    assert_eq!(sq.get(0, 0), 255);
    assert_eq!(sq.get(5, 5), 255);
}

#[test]
fn white_image_is_all_paper() {
    let img = create_white_image(4, 3);
    assert_eq!(img.pixels, vec![255u8; 12]);
}

#[test]
fn matrix_and_image_round_trip() {
    let mut mx = [0u32; 32];
    mx[5] |= 1u32 << (31 - 7);
    mx[31] |= 1u32 << (31 - 31);
    let img = build_image_from_32bit_mx(&mx);
    assert_eq!(img.get(7, 5), 0);
    assert_eq!(img.get(8, 5), 255);
    let back = build_bit_mx_from_32_image(&img);
    assert_eq!(back, mx);
}

#[test]
fn scaled_image_replicates_pixels() {
    let img = GrayBuffer::new(2, 1, vec![9, 200]);
    let out = build_scaled_image(&img, 3);
    assert_eq!(out.width, 6);
    assert_eq!(out.height, 3);
    assert_eq!(out.get(0, 0), 9);
    assert_eq!(out.get(2, 2), 9);
    assert_eq!(out.get(3, 0), 200);
    assert_eq!(out.get(5, 2), 200);
}

#[test]
fn check_ratio_produces_the_requested_canvas() {
    let img = gray(64, 16, 10);
    let out = stretch_check_ratio(&img, 30, 30);
    assert_eq!(out.width, 30);
    assert_eq!(out.height, 30);
}

#[test]
fn search_respects_both_pruning_rules() {
    let params = Parameters::default();
    let img = {
        // A dark blob on paper.
        let mut pixels = vec![255u8; 1024];
        for y in 8..24 {
            for x in 8..24 {
                pixels[y * 32 + x] = 0;
            }
        }
        GrayBuffer::new(32, 32, pixels)
    };
    let mut search = Transform::new(&img, 0, params);
    let targets = search.run(params.max_translate, params.max_stretch, params.max_steps);
    assert!(!targets.is_empty());
    let margin = ((32 - params.target_size) / 2) as i32;
    let ceil_half = |v: i32| if v >= 0 { (v + 1) / 2 } else { -((-v) / 2) };
    let mut saw_identity = false;
    for t in &targets {
        let tr = t.transform;
        let steps = tr.horizontal_translate.abs() + tr.vertical_translate.abs()
            + tr.horizontal_stretch.abs() + tr.vertical_stretch.abs();
        assert!(steps <= params.max_steps);
        assert!(ceil_half(tr.horizontal_stretch) + tr.horizontal_translate.abs() <= margin);
        assert!(ceil_half(tr.vertical_stretch) + tr.vertical_translate.abs() <= margin);
        assert_eq!(t.pixels, count_bits(&t.matrix));
        if tr.contains(0, 0, 0, 0) {
            saw_identity = true;
        }
    }
    assert!(saw_identity);
}

#[test]
fn targets_sharing_a_stretch_are_translations_of_one_intermediate() {
    let params = Parameters::default();
    let img = {
        let mut pixels = vec![255u8; 1024];
        for y in 10..22 {
            for x in 10..22 {
                pixels[y * 32 + x] = 0;
            }
        }
        GrayBuffer::new(32, 32, pixels)
    };
    let mut search = Transform::new(&img, 0, params);
    let targets = search.run(params.max_translate, params.max_stretch, params.max_steps);
    let base = targets
        .iter()
        .find(|t| t.transform.contains(0, 0, 0, 0))
        .expect("the identity is always explored");
    for t in &targets {
        if t.transform.horizontal_stretch == 0 && t.transform.vertical_stretch == 0 {
            // Undo the translation and compare with the shared intermediate
            // on the cells whose round trip stayed on the canvas.
            let mut back = t.matrix;
            move_matrix(
                &mut back,
                -t.transform.horizontal_translate,
                -t.transform.vertical_translate,
            );
            for x in 0..32i32 {
                for y in 0..32i32 {
                    let xs = x + t.transform.horizontal_translate;
                    let ys = y + t.transform.vertical_translate;
                    if (0..32).contains(&xs) && (0..32).contains(&ys) {
                        assert_eq!(
                            is_bit_set(x as u32, y as u32, &back),
                            is_bit_set(x as u32, y as u32, &base.matrix)
                        );
                    }
                }
            }
        }
    }
}
