//! Packed 32x32 bit matrices: one `u32` per row, column 0 held in the most
//! significant bit. A set bit marks a foreground (ink) cell. Every coordinate
//! outside [0, 32) reads as unset; translation clips, it never wraps.

use vstd::prelude::*;

verus! {

broadcast use vstd::array::group_array_axioms;

/// True when column `x` of the packed row `w` is set.
/// Column 0 sits in the most significant bit.
pub open spec fn row_bit(w: u32, x: u32) -> bool {
    x < 32 && (w & (1u32 << ((31 - x) as u32))) != 0
}

/// True when cell (x, y) of the 32x32 matrix `m` is set.
/// Coordinates outside [0, 32) are always unset.
pub open spec fn mx_bit(m: Seq<u32>, x: int, y: int) -> bool {
    &&& m.len() == 32
    &&& 0 <= x < 32
    &&& 0 <= y < 32
    &&& row_bit(m[y], x as u32)
}

/// Number of set columns of `w` among the first `n`.
pub open spec fn pop_partial(w: u32, n: int) -> int
    decreases n,
{
    if n <= 0 {
        0
    } else {
        pop_partial(w, n - 1) + (if row_bit(w, (n - 1) as u32) {
            1int
        } else {
            0int
        })
    }
}

/// Number of set columns of the packed row `w`.
pub open spec fn pop_row(w: u32) -> int {
    pop_partial(w, 32)
}

/// Number of set cells in the first `k` rows of `m`.
pub open spec fn pop_rows_to(m: Seq<u32>, k: int) -> int
    decreases k,
{
    if k <= 0 {
        0
    } else {
        pop_rows_to(m, k - 1) + pop_row(m[k - 1])
    }
}

/// Number of set cells of a 32-row matrix.
pub open spec fn pop_mx(m: Seq<u32>) -> int {
    pop_rows_to(m, 32)
}

pub proof fn lemma_pop_partial_bounds(w: u32, n: int)
    ensures
        0 <= pop_partial(w, n) <= (if n <= 0 {
            0int
        } else {
            n
        }),
    decreases n,
{
    if n > 0 {
        lemma_pop_partial_bounds(w, n - 1);
    }
}

pub proof fn lemma_pop_rows_bounds(m: Seq<u32>, k: int)
    ensures
        0 <= pop_rows_to(m, k) <= (if k <= 0 {
            0int
        } else {
            32 * k
        }),
    decreases k,
{
    if k > 0 {
        lemma_pop_rows_bounds(m, k - 1);
        lemma_pop_partial_bounds(m[k - 1], 32);
    }
}

/// Setting one clear column raises the row population by one.
pub proof fn lemma_pop_set_bit(w: u32, c: u32, n: int)
    requires
        c < 32,
        !row_bit(w, c),
        n <= 32,
    ensures
        pop_partial(w | (1u32 << ((31 - c) as u32)), n) == pop_partial(w, n) + (if c < n {
            1int
        } else {
            0int
        }),
    decreases n,
{
    lemma_set_bit(w, c);
    if n > 0 {
        lemma_pop_set_bit(w, c, n - 1);
    }
}

/// An all-clear row has population zero.
pub proof fn lemma_pop_zero(n: int)
    ensures
        pop_partial(0u32, n) == 0,
    decreases n,
{
    lemma_zero_row();
    if n > 0 {
        lemma_pop_zero(n - 1);
    }
}

/// A matrix whose first `k` rows are clear has partial population zero.
pub proof fn lemma_pop_rows_zero(m: Seq<u32>, k: int)
    requires
        0 <= k <= m.len(),
        forall|j: int| 0 <= j < k ==> m[j] == 0u32,
    ensures
        pop_rows_to(m, k) == 0,
    decreases k,
{
    if k > 0 {
        lemma_pop_rows_zero(m, k - 1);
        lemma_pop_zero(32);
    }
}

/// Rows equal up to `k` have equal partial populations.
pub proof fn lemma_pop_rows_congruence(m1: Seq<u32>, m2: Seq<u32>, k: int)
    requires
        0 <= k <= m1.len(),
        k <= m2.len(),
        forall|j: int| 0 <= j < k ==> m1[j] == m2[j],
    ensures
        pop_rows_to(m1, k) == pop_rows_to(m2, k),
    decreases k,
{
    if k > 0 {
        lemma_pop_rows_congruence(m1, m2, k - 1);
    }
}

/// Replacing one row shifts the matrix population by the rows' difference.
pub proof fn lemma_pop_rows_update(m: Seq<u32>, k: int, y: int, w: u32)
    requires
        0 <= y < k <= m.len(),
    ensures
        pop_rows_to(m.update(y, w), k) == pop_rows_to(m, k) - pop_row(m[y]) + pop_row(w),
    decreases k,
{
    if y == k - 1 {
        lemma_pop_rows_congruence(m.update(y, w), m, k - 1);
    } else {
        lemma_pop_rows_update(m, k - 1, y, w);
    }
}

pub(crate) proof fn lemma_zero_row()
    by (bit_vector)
    ensures
        forall|x: u32| !(#[trigger] row_bit(0u32, x)),
{
}

proof fn lemma_shr_row(w: u32, h: u32)
    by (bit_vector)
    requires
        h < 32,
    ensures
        forall|x: u32| #[trigger]
            row_bit(w >> h, x) == (x < 32 && x >= h && row_bit(w, (x - h) as u32)),
{
}

proof fn lemma_shl_row(w: u32, s: u32)
    by (bit_vector)
    requires
        1 <= s < 32,
    ensures
        forall|x: u32| #[trigger]
            row_bit(w << s, x) == (x < 32 && x + s < 32 && row_bit(w, (x + s) as u32)),
{
}

pub proof fn lemma_or_row(a: u32, b: u32)
    by (bit_vector)
    ensures
        forall|x: u32| #[trigger] row_bit(a | b, x) == (row_bit(a, x) || row_bit(b, x)),
{
}

pub(crate) proof fn lemma_set_bit(w: u32, c: u32)
    by (bit_vector)
    requires
        c < 32,
    ensures
        forall|x: u32| #[trigger]
            row_bit(w | (1u32 << ((31 - c) as u32)), x) == (row_bit(w, x) || x == c),
{
}

/// Tests one cell of a packed matrix; coordinates outside [0, 32) answer
/// `false` rather than failing.
pub fn is_bit_set(x: u32, y: u32, mx: &[u32]) -> (r: bool)
    requires
        mx@.len() == 32,
    ensures
        r == mx_bit(mx@, x as int, y as int),
        x >= 32 || y >= 32 ==> r == false,
{
    if x >= 32 || y >= 32 {
        false
    } else {
        let row = mx[y as usize];
        (row & (1u32 << (31 - x))) != 0
    }
}

/// One row of the matrix shifted along the row axis by `h` columns
/// (positive `h` moves content toward higher column numbers); bits moved
/// past either edge are dropped.
fn shift_row(w: u32, h: i32) -> (r: u32)
    ensures
        forall|x: u32|
            x < 32 ==> (#[trigger] row_bit(r, x) == (0 <= x as int - h < 32 && row_bit(
                w,
                (x as int - h) as u32,
            ))),
{
    if h >= 32 || h <= -32 {
        proof {
            lemma_zero_row();
        }
        0u32
    } else if h == 0 {
        w
    } else if h > 0 {
        let r = w >> (h as u32);
        proof {
            lemma_shr_row(w, h as u32);
        }
        r
    } else {
        let s = (-h) as u32;
        let r = w << s;
        proof {
            lemma_shl_row(w, s);
        }
        r
    }
}

/// Translates the matrix by (`h`, `v`): cell (x, y) of the result is cell
/// (x - h, y - v) of the original; content moved off the canvas is dropped,
/// never wrapped.
pub fn move_matrix(mx: &mut [u32; 32], h: i32, v: i32)
    ensures
        forall|x: int, y: int| #[trigger]
            mx_bit(final(mx)@, x, y) == (0 <= x < 32 && 0 <= y < 32 && mx_bit(
                old(mx)@,
                x - h as int,
                y - v as int,
            )),
{
    let src: [u32; 32] = *mx;
    let mut y: usize = 0;
    while y < 32
        invariant
            y <= 32,
            src@ == old(mx)@,
            forall|xx: int, yy: int|
                0 <= yy < y as int ==> (#[trigger] mx_bit(mx@, xx, yy) == (0 <= xx < 32 && mx_bit(
                    src@,
                    xx - h as int,
                    yy - v as int,
                ))),
        decreases 32 - y,
    {
        let sy: i64 = y as i64 - v as i64;
        let ghost in_range: bool = 0 <= sy && sy < 32;
        let row: u32 = if 0 <= sy && sy < 32 {
            shift_row(src[sy as usize], h)
        } else {
            proof {
                lemma_zero_row();
            }
            0u32
        };
        let ghost mx_before = mx@;
        mx[y] = row;
        proof {
            assert(mx@ == mx_before.update(y as int, row));
            assert forall|xx: int, yy: int| 0 <= yy < y as int implies (#[trigger] mx_bit(
                mx@,
                xx,
                yy,
            ) == (0 <= xx < 32 && mx_bit(src@, xx - h as int, yy - v as int))) by {
                assert(mx@[yy] == mx_before[yy]);
                assert(mx_bit(mx@, xx, yy) == mx_bit(mx_before, xx, yy));
            }
            assert forall|xx: int| true implies #[trigger] mx_bit(mx@, xx, y as int) == (0 <= xx
                < 32 && mx_bit(src@, xx - h as int, y as int - v as int)) by {
                assert(mx@[y as int] == row);
                if 0 <= xx < 32 {
                    if in_range {
                        assert(row_bit(row, xx as u32) == (0 <= xx - (h as int) < 32 && row_bit(
                            src@[y as int - v as int],
                            (xx - (h as int)) as u32,
                        )));
                    } else {
                        assert(!row_bit(row, xx as u32));
                        assert(!mx_bit(src@, xx - h as int, y as int - v as int));
                    }
                }
            }
        }
        y = y + 1;
    }
}

/// Number of set columns in one packed row.
pub fn count_bits_num(num: u32) -> (r: u32)
    ensures
        r as int == pop_row(num),
{
    let mut c: u32 = 0;
    let mut x: u32 = 0;
    while x < 32
        invariant
            x <= 32,
            c <= x,
            c as int == pop_partial(num, x as int),
        decreases 32 - x,
    {
        if (num & (1u32 << (31 - x))) != 0 {
            c = c + 1;
        }
        x = x + 1;
    }
    c
}

/// Number of set cells in the whole matrix.
pub fn count_bits(mx: &[u32; 32]) -> (r: u32)
    ensures
        r as int == pop_mx(mx@),
{
    let mut bits: u32 = 0;
    let mut y: usize = 0;
    while y < 32
        invariant
            y <= 32,
            bits as int == pop_rows_to(mx@, y as int),
            bits <= 32 * y,
        decreases 32 - y,
    {
        proof {
            lemma_pop_partial_bounds(mx@[y as int], 32);
        }
        bits = bits + count_bits_num(mx[y]);
        y = y + 1;
    }
    bits
}

/// Merges every set cell of `source_mx` into `target_mx` (a per-row union).
pub fn add_bits(source_mx: &[u32; 32], target_mx: &mut [u32; 32])
    ensures
        forall|y: int|
            0 <= y < 32 ==> final(target_mx)@[y] == (#[trigger] old(target_mx)@[y]
                | source_mx@[y]),
        forall|x: int, y: int| #[trigger]
            mx_bit(final(target_mx)@, x, y) == (mx_bit(old(target_mx)@, x, y) || mx_bit(
                source_mx@,
                x,
                y,
            )),
{
    let mut y: usize = 0;
    while y < 32
        invariant
            y <= 32,
            forall|j: int| y as int <= j < 32 ==> target_mx@[j] == #[trigger] old(target_mx)@[j],
            forall|j: int|
                0 <= j < y as int ==> target_mx@[j] == (#[trigger] old(target_mx)@[j]
                    | source_mx@[j]),
        decreases 32 - y,
    {
        target_mx[y] = target_mx[y] | source_mx[y];
        y = y + 1;
    }
    proof {
        assert forall|x: int, yy: int| true implies #[trigger]
            mx_bit(target_mx@, x, yy) == (mx_bit(old(target_mx)@, x, yy) || mx_bit(
            source_mx@,
            x,
            yy,
        )) by {
            if 0 <= x < 32 && 0 <= yy < 32 {
                lemma_or_row(old(target_mx)@[yy], source_mx@[yy]);
            }
        }
    }
}

/// True when cell (x, y) or any of its eight neighbours is set.
pub open spec fn halo_bit(m: Seq<u32>, x: int, y: int) -> bool {
    ||| mx_bit(m, x, y)
    ||| mx_bit(m, x - 1, y - 1)
    ||| mx_bit(m, x, y - 1)
    ||| mx_bit(m, x + 1, y - 1)
    ||| mx_bit(m, x - 1, y)
    ||| mx_bit(m, x + 1, y)
    ||| mx_bit(m, x - 1, y + 1)
    ||| mx_bit(m, x, y + 1)
    ||| mx_bit(m, x + 1, y + 1)
}

/// Cell (x, y) of the matrix dilated `n` times: set after `n` rounds of
/// growing the foreground into every cell with a set neighbour.
pub open spec fn dil_bit(m: Seq<u32>, n: nat, x: int, y: int) -> bool
    decreases n,
{
    if n == 0 {
        mx_bit(m, x, y)
    } else {
        &&& 0 <= x < 32
        &&& 0 <= y < 32
        &&& {
            ||| dil_bit(m, (n - 1) as nat, x, y)
            ||| dil_bit(m, (n - 1) as nat, x - 1, y - 1)
            ||| dil_bit(m, (n - 1) as nat, x, y - 1)
            ||| dil_bit(m, (n - 1) as nat, x + 1, y - 1)
            ||| dil_bit(m, (n - 1) as nat, x - 1, y)
            ||| dil_bit(m, (n - 1) as nat, x + 1, y)
            ||| dil_bit(m, (n - 1) as nat, x - 1, y + 1)
            ||| dil_bit(m, (n - 1) as nat, x, y + 1)
            ||| dil_bit(m, (n - 1) as nat, x + 1, y + 1)
        }
    }
}

/// Cell (x, y) of halo layer `n` (`n >= 1`): newly reached by the `n`-th
/// dilation round, not covered by the previous rounds.
pub open spec fn ring_bit(m: Seq<u32>, n: nat, x: int, y: int) -> bool {
    dil_bit(m, n, x, y) && !dil_bit(m, (n - 1) as nat, x, y)
}

/// True when (x, y) is within the 3x3 neighbourhood of some set cell of
/// `mx` (the cell itself counts). Out-of-grid neighbours are never assumed
/// set.
pub fn is_halo_bit(x: u32, y: u32, mx: &[u32; 32]) -> (r: bool)
    ensures
        r == halo_bit(mx@, x as int, y as int),
{
    if x > 32 || y > 32 {
        return false;
    }
    let mut r = is_bit_set(x, y, mx.as_slice());
    if x > 0 {
        r = r || is_bit_set(x - 1, y, mx.as_slice());
        if y > 0 {
            r = r || is_bit_set(x - 1, y - 1, mx.as_slice());
        }
        r = r || is_bit_set(x - 1, y + 1, mx.as_slice());
    }
    if y > 0 {
        r = r || is_bit_set(x, y - 1, mx.as_slice());
        r = r || is_bit_set(x + 1, y - 1, mx.as_slice());
    }
    r = r || is_bit_set(x, y + 1, mx.as_slice());
    r = r || is_bit_set(x + 1, y, mx.as_slice());
    r = r || is_bit_set(x + 1, y + 1, mx.as_slice());
    r
}

/// Builds `layers` halo layers around the matrix. Layer `i` (0-based) holds
/// exactly the cells newly reached by the `i + 1`-th dilation round. As in
/// a running union, each round grows from all previous ones; the matrix
/// itself is left merged with all but the last layer, so that with zero or
/// one layer it is unchanged.
pub fn build_mx_halo(mx: &mut [u32; 32], layers: u32) -> (halo: Vec<[u32; 32]>)
    ensures
        halo@.len() == layers as int,
        forall|i: int, x: int, y: int|
            0 <= i < layers as int ==> (#[trigger] mx_bit(halo@[i]@, x, y) == ring_bit(
                old(mx)@,
                (i + 1) as nat,
                x,
                y,
            )),
        forall|x: int, y: int| #[trigger]
            mx_bit(final(mx)@, x, y) == dil_bit(
                old(mx)@,
                (if layers as int <= 1 {
                    0int
                } else {
                    layers as int - 1
                }) as nat,
                x,
                y,
            ),
        layers <= 1 ==> *final(mx) == *old(mx),
{
    let ghost m0 = mx@;
    let mut halo: Vec<[u32; 32]> = Vec::new();
    let mut i: u32 = 0;
    while i < layers
        invariant
            i <= layers,
            halo@.len() == i as int,
            mx@.len() == 32,
            forall|x: int, y: int| #[trigger]
                mx_bit(mx@, x, y) == dil_bit(
                    m0,
                    (if i == 0 {
                        0int
                    } else {
                        i as int - 1
                    }) as nat,
                    x,
                    y,
                ),
            forall|j: int, x: int, y: int|
                0 <= j < i as int ==> (#[trigger] mx_bit(halo@[j]@, x, y) == ring_bit(
                    m0,
                    (j + 1) as nat,
                    x,
                    y,
                )),
            i == 0 || layers <= 1 ==> *mx == *old(mx),
        decreases layers - i,
    {
        if i > 0 {
            let prev: [u32; 32] = halo[i as usize - 1];
            add_bits(&prev, mx);
            proof {
                assert forall|x: int, y: int| true implies #[trigger] mx_bit(mx@, x, y) == dil_bit(
                    m0,
                    i as nat,
                    x,
                    y,
                ) by {
                    assert(mx_bit(mx@, x, y) == (dil_bit(m0, (i - 1) as nat, x, y) || ring_bit(
                        m0,
                        i as nat,
                        x,
                        y,
                    )));
                    if dil_bit(m0, (i - 1) as nat, x, y) {
                        assert(0 <= x < 32 && 0 <= y < 32);
                        assert(dil_bit(m0, i as nat, x, y));
                    }
                }
            }
        }
        assert(forall|x: int, y: int| #[trigger]
            mx_bit(mx@, x, y) == dil_bit(m0, i as nat, x, y));
        let mut layer = [0u32; 32];
        let mut y: u32 = 0;
        while y < 32
            invariant
                y <= 32,
                mx@.len() == 32,
                layer@.len() == 32,
                forall|x: int, yy: int|
                    0 <= x < 32 && 0 <= yy < y as int ==> (#[trigger] mx_bit(layer@, x, yy) == (
                    halo_bit(mx@, x, yy) && !mx_bit(mx@, x, yy))),
                forall|yy: int| y as int <= yy < 32 ==> layer@[yy] == 0u32,
            decreases 32 - y,
        {
            let mut row: u32 = 0;
            let mut x: u32 = 0;
            proof {
                lemma_zero_row();
            }
            while x < 32
                invariant
                    x <= 32,
                    mx@.len() == 32,
                    forall|c: u32|
                        c < x ==> (#[trigger] row_bit(row, c) == (halo_bit(mx@, c as int, y as int)
                            && !mx_bit(mx@, c as int, y as int))),
                    forall|c: u32| x <= c ==> !(#[trigger] row_bit(row, c)),
                decreases 32 - x,
            {
                if is_halo_bit(x, y, mx) && !is_bit_set(x, y, mx.as_slice()) {
                    proof {
                        lemma_set_bit(row, x);
                    }
                    row = row | (1u32 << (31 - x));
                }
                x = x + 1;
            }
            let ghost layer_before = layer@;
            layer[y as usize] = row;
            proof {
                assert(layer@ == layer_before.update(y as int, row));
                assert forall|x: int, yy: int|
                    0 <= x < 32 && 0 <= yy < y as int + 1 implies (#[trigger] mx_bit(layer@, x, yy)
                    == (halo_bit(mx@, x, yy) && !mx_bit(mx@, x, yy))) by {
                    if yy < y as int {
                        assert(layer@[yy] == layer_before[yy]);
                        assert(mx_bit(layer@, x, yy) == mx_bit(layer_before, x, yy));
                        assert(mx_bit(layer_before, x, yy) == (halo_bit(mx@, x, yy) && !mx_bit(
                            mx@,
                            x,
                            yy,
                        )));
                    } else {
                        assert(layer@[yy] == row);
                        assert(row_bit(row, x as u32) == (halo_bit(mx@, x, yy) && !mx_bit(
                            mx@,
                            x,
                            yy,
                        )));
                    }
                }
            }
            y = y + 1;
        }
        proof {
            assert forall|x: int, yy: int| true implies #[trigger] mx_bit(layer@, x, yy)
                == ring_bit(m0, (i + 1) as nat, x, yy) by {
                if 0 <= x < 32 && 0 <= yy < 32 {
                    assert(mx_bit(layer@, x, yy) == (halo_bit(mx@, x, yy) && !mx_bit(mx@, x, yy)));
                    assert(halo_bit(mx@, x, yy) == dil_bit(m0, (i + 1) as nat, x, yy));
                } else {
                    assert(!mx_bit(layer@, x, yy));
                    assert(!dil_bit(m0, (i + 1) as nat, x, yy));
                }
            }
        }
        halo.push(layer);
        i = i + 1;
    }
    halo
}

/// Translating a matrix and then translating back restores exactly the
/// cells whose image stayed on the canvas after the first translation.
pub proof fn lemma_translate_inverse(m: Seq<u32>, m1: Seq<u32>, m2: Seq<u32>, dx: int, dy: int)
    requires
        forall|x: int, y: int| #[trigger]
            mx_bit(m1, x, y) == (0 <= x < 32 && 0 <= y < 32 && mx_bit(m, x - dx, y - dy)),
        forall|x: int, y: int| #[trigger]
            mx_bit(m2, x, y) == (0 <= x < 32 && 0 <= y < 32 && mx_bit(m1, x + dx, y + dy)),
    ensures
        forall|x: int, y: int| #[trigger]
            mx_bit(m2, x, y) == (mx_bit(m, x, y) && 0 <= x + dx < 32 && 0 <= y + dy < 32),
{
    assert forall|x: int, y: int| true implies #[trigger] mx_bit(m2, x, y) == (mx_bit(m, x, y) && 0
        <= x + dx < 32 && 0 <= y + dy < 32) by {
        assert(mx_bit(m2, x, y) == (0 <= x < 32 && 0 <= y < 32 && mx_bit(m1, x + dx, y + dy)));
        assert(mx_bit(m1, x + dx, y + dy) == (0 <= x + dx < 32 && 0 <= y + dy < 32 && mx_bit(
            m,
            x,
            y,
        )));
    }
}

} // verus!
