use kanjitomo::matrix::{add_bits, build_mx_halo, count_bits, is_bit_set, is_halo_bit, move_matrix};

fn matrix_of(cells: &[(u32, u32)]) -> [u32; 32] {
    let mut mx = [0u32; 32];
    for &(x, y) in cells {
        mx[y as usize] |= 1u32 << (31 - x);
    }
    mx
}

#[test]
fn out_of_range_cells_read_unset() {
    let mx = matrix_of(&[(0, 0), (31, 31), (5, 5)]);
    assert!(!is_bit_set(32, 0, &mx));
    assert!(!is_bit_set(0, 32, &mx));
    assert!(!is_bit_set(1000, 1000, &mx));
    assert!(is_bit_set(0, 0, &mx));
    assert!(is_bit_set(31, 31, &mx));
    assert!(is_bit_set(5, 5, &mx));
}

#[test]
fn zero_layer_halo_is_identity() {
    let mut mx = matrix_of(&[(3, 4), (10, 10)]);
    let before = mx;
    let halo = build_mx_halo(&mut mx, 0);
    assert_eq!(halo.len(), 0);
    assert_eq!(mx, before);
}

#[test]
fn first_halo_layer_is_the_ring_of_one_cell() {
    let mut mx = matrix_of(&[(5, 5)]);
    let halo = build_mx_halo(&mut mx, 2);
    assert_eq!(halo.len(), 2);
    // The first layer holds exactly the eight neighbours of (5, 5).
    let mut count1 = 0;
    for x in 0..32 {
        for y in 0..32 {
            let expected = (4..=6).contains(&x) && (4..=6).contains(&y) && !(x == 5 && y == 5);
            assert_eq!(is_bit_set(x, y, &halo[0]), expected);
            if is_bit_set(x, y, &halo[0]) {
                count1 += 1;
            }
        }
    }
    assert_eq!(count1, 8);
    // The second layer is the 16-cell ring around that.
    assert_eq!(count_bits(&halo[1]), 16);
}

#[test]
fn halo_stops_at_the_canvas_edge() {
    let mut mx = matrix_of(&[(0, 0)]);
    let halo = build_mx_halo(&mut mx, 1);
    // A corner cell has only three in-grid neighbours.
    assert_eq!(count_bits(&halo[0]), 3);
}

#[test]
fn is_halo_bit_covers_neighbourhood() {
    let mx = matrix_of(&[(5, 5)]);
    assert!(is_halo_bit(5, 5, &mx));
    assert!(is_halo_bit(4, 4, &mx));
    assert!(is_halo_bit(6, 6, &mx));
    assert!(!is_halo_bit(7, 5, &mx));
}

#[test]
fn translate_moves_and_clips() {
    let mut mx = matrix_of(&[(0, 0), (30, 30)]);
    move_matrix(&mut mx, 2, 3);
    assert!(is_bit_set(2, 3, &mx));
    // (30, 30) moved past the canvas and is gone.
    assert_eq!(count_bits(&mx), 1);
}

#[test]
fn translate_round_trip_restores_unclipped_cells() {
    let original = matrix_of(&[(5, 5), (31, 31)]);
    let mut mx = original;
    move_matrix(&mut mx, 3, 2);
    move_matrix(&mut mx, -3, -2);
    // (5, 5) survived both moves; (31, 31) was clipped by the first one.
    assert!(is_bit_set(5, 5, &mx));
    assert!(!is_bit_set(31, 31, &mx));
    assert_eq!(count_bits(&mx), 1);
}

#[test]
fn add_bits_is_a_union() {
    let a = matrix_of(&[(1, 1)]);
    let mut b = matrix_of(&[(2, 2)]);
    add_bits(&a, &mut b);
    assert!(is_bit_set(1, 1, &b));
    assert!(is_bit_set(2, 2, &b));
    assert_eq!(count_bits(&b), 2);
}
