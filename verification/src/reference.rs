//! Reference glyphs: the per-character bitmaps matched against, their
//! connected-component decomposition used for partial-match scoring, and
//! the store that holds them, keyed by character.

use vstd::prelude::*;
use crate::Rect;
use crate::matrix::{
    mx_bit, row_bit, pop_mx, ring_bit, is_bit_set, count_bits, build_mx_halo, lemma_zero_row,
    lemma_set_bit, lemma_pop_set_bit, lemma_pop_rows_update, lemma_pop_rows_zero,
    lemma_pop_rows_bounds,
};
use crate::params::{Parameters, weight_limit};
use crate::transformation::Transformation;

verus! {

/// One cell coordinate.
#[derive(Clone, Copy, Debug, PartialEq, Eq, Hash, Structural)]
pub struct Pixel {
    pub x: u32,
    pub y: u32,
}

impl Pixel {
    pub fn new(x: u32, y: u32) -> (r: Pixel)
        ensures
            r.x == x,
            r.y == y,
    {
        Pixel { x, y }
    }
}

/// A maximal set of foreground cells collected by one flood fill, with its
/// pixel-tight bounding box and population.
#[derive(Clone, Copy, Debug)]
pub struct Component {
    pub bounds: Rect,
    pub matrix: [u32; 32],
    pub pixels: u32,
}

impl Component {
    /// The population matches the matrix, and the bounding box contains
    /// every set cell.
    pub open spec fn wf(self) -> bool {
        &&& self.pixels as int == pop_mx(self.matrix@)
        &&& forall|x: int, y: int|
            #[trigger] mx_bit(self.matrix@, x, y) ==> self.bounds.x as int <= x
                < self.bounds.x as int + self.bounds.width as int && self.bounds.y as int <= y
                < self.bounds.y as int + self.bounds.height as int
    }
}

/// The coordinate (x, y) occurs in the pixel list.
pub open spec fn in_px_list(ps: Seq<Pixel>, x: int, y: int) -> bool {
    exists|k: int| 0 <= k < ps.len() && (#[trigger] ps[k]).x as int == x && ps[k].y as int == y
}

/// The coordinate (x, y) is set in some component of the list.
pub open spec fn in_comps(cs: Seq<Component>, x: int, y: int) -> bool {
    exists|k: int| 0 <= k < cs.len() && mx_bit((#[trigger] cs[k]).matrix@, x, y)
}

/// The cell (x, y) has been visited, in a row-major 32x32 visit map.
pub open spec fn vis(v: Seq<bool>, x: int, y: int) -> bool {
    &&& v.len() == 1024
    &&& 0 <= x < 32
    &&& 0 <= y < 32
    &&& v[y * 32 + x]
}

/// Number of `true` entries of a visit map.
pub open spec fn count_true(v: Seq<bool>) -> int
    decreases v.len(),
{
    if v.len() == 0 {
        0
    } else {
        count_true(v.drop_last()) + (if v.last() {
            1int
        } else {
            0int
        })
    }
}

proof fn lemma_count_true_bound(v: Seq<bool>)
    ensures
        0 <= count_true(v) <= v.len(),
    decreases v.len(),
{
    if v.len() > 0 {
        lemma_count_true_bound(v.drop_last());
    }
}

proof fn lemma_count_true_set(v: Seq<bool>, i: int)
    requires
        0 <= i < v.len(),
        !v[i],
    ensures
        count_true(v.update(i, true)) == count_true(v) + 1,
    decreases v.len(),
{
    let w = v.update(i, true);
    if i == v.len() - 1 {
        assert(w.drop_last() =~= v.drop_last());
    } else {
        assert(w.drop_last() =~= v.drop_last().update(i, true));
        lemma_count_true_set(v.drop_last(), i);
    }
}

/// Iterative flood fill over one glyph: scans the bounding box in raster
/// order and grows a 4-connected region from every unvisited foreground
/// cell, visiting each of the 1024 cells at most once.
pub struct ComponentFindUnconnected {
    pixels: Vec<Pixel>,
    todo: Vec<Pixel>,
    visited: Vec<bool>,
    bounds: Rect,
    matrix: [u32; 32],
}

impl ComponentFindUnconnected {
    pub closed spec fn spec_matrix(self) -> Seq<u32> {
        self.matrix@
    }

    pub closed spec fn spec_bounds(self) -> Rect {
        self.bounds
    }

    /// Ready to scan: nothing visited, nothing collected, nothing pending.
    pub closed spec fn fresh(self) -> bool {
        &&& self.visited@.len() == 1024
        &&& forall|j: int| 0 <= j < 1024 ==> !(#[trigger] self.visited@[j])
        &&& self.pixels@.len() == 0
        &&& self.todo@.len() == 0
    }

    pub fn new(component: Component) -> (r: ComponentFindUnconnected)
        ensures
            r.fresh(),
            r.spec_matrix() == component.matrix@,
            r.spec_bounds() == component.bounds,
    {
        let mut visited: Vec<bool> = Vec::new();
        let mut j: usize = 0;
        while j < 1024
            invariant
                j <= 1024,
                visited@.len() == j as int,
                forall|k: int| 0 <= k < j as int ==> !(#[trigger] visited@[k]),
            decreases 1024 - j,
        {
            visited.push(false);
            j = j + 1;
        }
        ComponentFindUnconnected {
            matrix: component.matrix,
            bounds: component.bounds,
            visited,
            todo: Vec::new(),
            pixels: Vec::new(),
        }
    }

    /// Processes one pending cell: an unvisited foreground cell is
    /// collected and its four edge-neighbours become pending; every
    /// processed cell is marked visited so no cell is examined twice.
    fn check_pixel(&mut self, px: Pixel)
        requires
            old(self).visited@.len() == 1024,
            px.x < 32,
            px.y < 32,
        ensures
            final(self).matrix == old(self).matrix,
            final(self).bounds == old(self).bounds,
            final(self).visited@.len() == 1024,
            forall|x: int, y: int|
                vis(old(self).visited@, x, y) ==> vis(final(self).visited@, x, y),
            forall|x: int, y: int|
                vis(final(self).visited@, x, y) ==> vis(old(self).visited@, x, y) || (x
                    == px.x as int && y == px.y as int),
            vis(final(self).visited@, px.x as int, px.y as int),
            count_true(final(self).visited@) == count_true(old(self).visited@) + (if vis(
                old(self).visited@,
                px.x as int,
                px.y as int,
            ) {
                0int
            } else {
                1int
            }),
            (if !vis(old(self).visited@, px.x as int, px.y as int) && mx_bit(
                old(self).matrix@,
                px.x as int,
                px.y as int,
            ) {
                final(self).pixels@ == old(self).pixels@.push(px)
            } else {
                final(self).pixels@ == old(self).pixels@
            }),
            final(self).todo@.len() >= old(self).todo@.len(),
            forall|j: int|
                0 <= j < old(self).todo@.len() ==> final(self).todo@[j] == #[trigger] (
                old(self).todo@[j]),
            forall|j: int|
                old(self).todo@.len() <= j < final(self).todo@.len() ==> ((#[trigger] (
                final(self).todo@[j])).x < 32 && final(self).todo@[j].y < 32),
            forall|j: int|
                old(self).todo@.len() <= j < final(self).todo@.len() ==> {
                    let q = #[trigger] (final(self).todo@[j]);
                    ||| (q.x as int == px.x as int - 1 && q.y == px.y)
                    ||| (q.x as int == px.x as int + 1 && q.y == px.y)
                    ||| (q.x == px.x && q.y as int == px.y as int - 1)
                    ||| (q.x == px.x && q.y as int == px.y as int + 1)
                },
            vis(old(self).visited@, px.x as int, px.y as int) ==> final(self).todo@ == old(
                self).todo@ && final(self).visited@ == old(self).visited@,
            !mx_bit(old(self).matrix@, px.x as int, px.y as int) ==> final(self).todo@ == old(
                self).todo@,
    {
        let idx: usize = (px.y as usize) * 32 + (px.x as usize);
        if self.visited[idx] {
            return ;
        }
        if is_bit_set(px.x, px.y, self.matrix.as_slice()) {
            self.pixels.push(px);
            if px.x > 0 {
                self.todo.push(Pixel { x: px.x - 1, y: px.y });
            }
            if px.x + 1 < 32 {
                self.todo.push(Pixel { x: px.x + 1, y: px.y });
            }
            if px.y > 0 {
                self.todo.push(Pixel { x: px.x, y: px.y - 1 });
            }
            if px.y + 1 < 32 {
                self.todo.push(Pixel { x: px.x, y: px.y + 1 });
            }
        }
        let ghost vbefore = self.visited@;
        self.visited[idx] = true;
        proof {
            assert(self.visited@ =~= vbefore.update(idx as int, true));
            lemma_count_true_set(vbefore, idx as int);
            assert forall|x: int, y: int| vis(self.visited@, x, y) implies vis(vbefore, x, y) || (x
                == px.x as int && y == px.y as int) by {
                if y * 32 + x != idx as int {
                    assert(self.visited@[y * 32 + x] == vbefore[y * 32 + x]);
                }
            }
        }
    }

    /// Scans the bounding box in raster order and flood-fills a 4-connected
    /// region from every unvisited foreground cell. The emitted components
    /// hold only foreground cells, are pairwise disjoint, are each
    /// well-formed, and together cover every foreground cell of the
    /// scanned box.
    pub fn run(&mut self) -> (components: Vec<Component>)
        requires
            old(self).fresh(),
            old(self).spec_bounds().x as int + old(self).spec_bounds().width as int <= 32,
            old(self).spec_bounds().y as int + old(self).spec_bounds().height as int <= 32,
        ensures
            final(self).spec_matrix() == old(self).spec_matrix(),
            forall|k: int, x: int, y: int|
                0 <= k < components@.len() && #[trigger] mx_bit(components@[k].matrix@, x, y)
                    ==> mx_bit(old(self).spec_matrix(), x, y),
            forall|k1: int, k2: int, x: int, y: int|
                0 <= k1 < components@.len() && 0 <= k2 < components@.len() && k1 != k2 ==> !(
                #[trigger] mx_bit(components@[k1].matrix@, x, y) && #[trigger] mx_bit(
                    components@[k2].matrix@,
                    x,
                    y,
                )),
            forall|k: int| 0 <= k < components@.len() ==> (#[trigger] components@[k]).wf(),
            forall|x: int, y: int|
                old(self).spec_bounds().x as int <= x < old(self).spec_bounds().x as int + old(
                    self,
                ).spec_bounds().width as int && old(self).spec_bounds().y as int <= y < old(
                    self,
                ).spec_bounds().y as int + old(self).spec_bounds().height as int && #[trigger]
                mx_bit(old(self).spec_matrix(), x, y) ==> in_comps(components@, x, y),
    {
        let ghost m = self.matrix@;
        let ghost b = self.bounds;
        let mut components: Vec<Component> = Vec::new();
        let bx = self.bounds.x;
        let bw = self.bounds.width;
        let by = self.bounds.y;
        let bh = self.bounds.height;
        let mut x: u32 = bx;
        while x < bx + bw
            invariant
                self.matrix@ == m,
                self.bounds == b,
                bx == b.x && bw == b.width && by == b.y && bh == b.height,
                bx + bw <= 32,
                by + bh <= 32,
                self.visited@.len() == 1024,
                bx <= x <= bx + bw,
                self.todo@.len() == 0,
                self.pixels@.len() == 0,
                forall|xx: int, yy: int|
                    vis(self.visited@, xx, yy) && mx_bit(m, xx, yy) ==> in_comps(
                        components@,
                        xx,
                        yy,
                    ),
                forall|k: int, xx: int, yy: int|
                    0 <= k < components@.len() && #[trigger] mx_bit(components@[k].matrix@, xx, yy)
                        ==> mx_bit(m, xx, yy) && vis(self.visited@, xx, yy),
                forall|k1: int, k2: int, xx: int, yy: int|
                    0 <= k1 < components@.len() && 0 <= k2 < components@.len() && k1 != k2 ==> !(
                    #[trigger] mx_bit(components@[k1].matrix@, xx, yy) && #[trigger] mx_bit(
                        components@[k2].matrix@,
                        xx,
                        yy,
                    )),
                forall|k: int| 0 <= k < components@.len() ==> (#[trigger] components@[k]).wf(),
                forall|xx: int, yy: int|
                    bx as int <= xx < x as int && by as int <= yy < by as int + bh as int ==> vis(
                        self.visited@,
                        xx,
                        yy,
                    ),
            decreases bx + bw - x,
        {
            let mut y: u32 = by;
            while y < by + bh
                invariant
                    self.matrix@ == m,
                    self.bounds == b,
                    bx == b.x && bw == b.width && by == b.y && bh == b.height,
                    bx + bw <= 32,
                    by + bh <= 32,
                    self.visited@.len() == 1024,
                    bx <= x < bx + bw,
                    by <= y <= by + bh,
                    self.todo@.len() == 0,
                    self.pixels@.len() == 0,
                    forall|xx: int, yy: int|
                        vis(self.visited@, xx, yy) && mx_bit(m, xx, yy) ==> in_comps(
                            components@,
                            xx,
                            yy,
                        ),
                    forall|k: int, xx: int, yy: int|
                        0 <= k < components@.len() && #[trigger] mx_bit(
                            components@[k].matrix@,
                            xx,
                            yy,
                        ) ==> mx_bit(m, xx, yy) && vis(self.visited@, xx, yy),
                    forall|k1: int, k2: int, xx: int, yy: int|
                        0 <= k1 < components@.len() && 0 <= k2 < components@.len() && k1 != k2
                            ==> !(#[trigger] mx_bit(components@[k1].matrix@, xx, yy)
                            && #[trigger] mx_bit(components@[k2].matrix@, xx, yy)),
                    forall|k: int| 0 <= k < components@.len() ==> (#[trigger] components@[k]).wf(),
                    forall|xx: int, yy: int|
                        bx as int <= xx < x as int && by as int <= yy < by as int + bh as int
                            ==> vis(self.visited@, xx, yy),
                    forall|yy: int|
                        by as int <= yy < y as int ==> vis(self.visited@, x as int, yy),
                decreases by + bh - y,
            {
                self.todo.push(Pixel { x, y });
                proof {
                    assert(self.todo@[0] == (Pixel { x, y }));
                    assert(in_px_list(self.todo@, x as int, y as int));
                }
                while self.todo.len() > 0
                    invariant
                        self.matrix@ == m,
                        self.bounds == b,
                        self.visited@.len() == 1024,
                        x < 32,
                        y < 32,
                        forall|j: int|
                            0 <= j < self.todo@.len() ==> ((#[trigger] self.todo@[j]).x < 32
                                && self.todo@[j].y < 32),
                        forall|k: int|
                            0 <= k < self.pixels@.len() ==> ((#[trigger] self.pixels@[k]).x < 32
                                && self.pixels@[k].y < 32 && mx_bit(
                                m,
                                self.pixels@[k].x as int,
                                self.pixels@[k].y as int,
                            ) && vis(
                                self.visited@,
                                self.pixels@[k].x as int,
                                self.pixels@[k].y as int,
                            )),
                        forall|k1: int, k2: int|
                            0 <= k1 < k2 < self.pixels@.len() ==> #[trigger] self.pixels@[k1]
                                != #[trigger] self.pixels@[k2],
                        forall|xx: int, yy: int|
                            vis(self.visited@, xx, yy) && mx_bit(m, xx, yy) ==> in_comps(
                                components@,
                                xx,
                                yy,
                            ) || in_px_list(self.pixels@, xx, yy),
                        forall|k: int, xx: int, yy: int|
                            0 <= k < components@.len() && #[trigger] mx_bit(
                                components@[k].matrix@,
                                xx,
                                yy,
                            ) ==> mx_bit(m, xx, yy) && vis(self.visited@, xx, yy),
                        forall|k: int, j: int|
                            #![trigger components@[k], self.pixels@[j]]
                            0 <= k < components@.len() && 0 <= j < self.pixels@.len() ==> !mx_bit(
                                components@[k].matrix@,
                                self.pixels@[j].x as int,
                                self.pixels@[j].y as int,
                            ),
                        forall|k1: int, k2: int, xx: int, yy: int|
                            0 <= k1 < components@.len() && 0 <= k2 < components@.len() && k1 != k2
                                ==> !(#[trigger] mx_bit(components@[k1].matrix@, xx, yy)
                                && #[trigger] mx_bit(components@[k2].matrix@, xx, yy)),
                        forall|k: int|
                            0 <= k < components@.len() ==> (#[trigger] components@[k]).wf(),
                        forall|xx: int, yy: int|
                            bx as int <= xx < x as int && by as int <= yy < by as int + bh as int
                                ==> vis(self.visited@, xx, yy),
                        forall|yy: int|
                            by as int <= yy < y as int ==> vis(self.visited@, x as int, yy),
                        vis(self.visited@, x as int, y as int) || in_px_list(
                            self.todo@,
                            x as int,
                            y as int,
                        ),
                    decreases 1024 - count_true(self.visited@), self.todo@.len(),
                {
                    proof {
                        lemma_count_true_bound(self.visited@);
                    }
                    let ghost todo_pre = self.todo@;
                    let px = match self.todo.pop() {
                        Option::Some(p) => p,
                        Option::None => vstd::pervasive::unreached(),
                    };
                    let ghost vis_pre = self.visited@;
                    let ghost px_pre = self.pixels@;
                    let ghost popped = self.todo@;
                    self.check_pixel(px);
                    proof {
                        lemma_count_true_bound(self.visited@);
                        assert(popped =~= todo_pre.subrange(0, todo_pre.len() - 1));
                        assert forall|j: int|
                            0 <= j < self.todo@.len() implies ((#[trigger] self.todo@[j]).x < 32
                            && self.todo@[j].y < 32) by {
                            if j < popped.len() {
                                assert(self.todo@[j] == popped[j]);
                                assert(popped[j] == todo_pre[j]);
                            }
                        }
                        if !vis(vis_pre, px.x as int, px.y as int) && mx_bit(
                            m,
                            px.x as int,
                            px.y as int,
                        ) {
                            assert(self.pixels@ == px_pre.push(px));
                            assert forall|k1: int, k2: int|
                                0 <= k1 < k2 < self.pixels@.len() implies #[trigger] self.pixels@[k1]
                                != #[trigger] self.pixels@[k2] by {
                                if k2 == self.pixels@.len() - 1 {
                                    assert(self.pixels@[k1] == px_pre[k1]);
                                    assert(vis(vis_pre, px_pre[k1].x as int, px_pre[k1].y as int));
                                }
                            }
                        }
                        assert forall|xx: int, yy: int|
                            vis(self.visited@, xx, yy) && mx_bit(m, xx, yy) implies in_comps(
                            components@,
                            xx,
                            yy,
                        ) || in_px_list(self.pixels@, xx, yy) by {
                            if vis(vis_pre, xx, yy) {
                                if in_px_list(px_pre, xx, yy) {
                                    let k = choose|k: int|
                                        0 <= k < px_pre.len() && (#[trigger] px_pre[k]).x as int
                                            == xx && px_pre[k].y as int == yy;
                                    assert(self.pixels@[k] == px_pre[k]);
                                }
                            } else {
                                assert(xx == px.x as int && yy == px.y as int);
                                if mx_bit(m, xx, yy) {
                                    assert(self.pixels@ == px_pre.push(px));
                                    assert(self.pixels@[self.pixels@.len() - 1] == px);
                                }
                            }
                        }
                        assert forall|k: int, j: int|
                            #![trigger components@[k], self.pixels@[j]]
                            0 <= k < components@.len() && 0 <= j
                                < self.pixels@.len() implies !mx_bit(
                            components@[k].matrix@,
                            self.pixels@[j].x as int,
                            self.pixels@[j].y as int,
                        ) by {
                            if j < px_pre.len() {
                                assert(self.pixels@[j] == px_pre[j]);
                            } else {
                                assert(self.pixels@[j] == px);
                                assert(!vis(vis_pre, px.x as int, px.y as int));
                            }
                        }
                        if vis(vis_pre, x as int, y as int) {
                            assert(vis(self.visited@, x as int, y as int));
                        } else if in_px_list(
                            todo_pre.subrange(0, todo_pre.len() - 1),
                            x as int,
                            y as int,
                        ) {
                        } else {
                            assert(in_px_list(todo_pre, x as int, y as int));
                            let j = choose|j: int|
                                0 <= j < todo_pre.len() && (#[trigger] todo_pre[j]).x as int
                                    == x as int && todo_pre[j].y as int == y as int;
                            if j < todo_pre.len() - 1 {
                                assert(todo_pre.subrange(0, todo_pre.len() - 1)[j] == todo_pre[j]);
                                assert(in_px_list(
                                    todo_pre.subrange(0, todo_pre.len() - 1),
                                    x as int,
                                    y as int,
                                ));
                            }
                            assert(j == todo_pre.len() - 1);
                            assert(px.x as int == x as int && px.y as int == y as int);
                            assert(vis(self.visited@, x as int, y as int));
                        }
                        assert forall|xx: int, yy: int|
                            in_px_list(
                                todo_pre.subrange(0, todo_pre.len() - 1),
                                xx,
                                yy,
                            ) implies in_px_list(self.todo@, xx, yy) by {
                            let j = choose|j: int|
                                0 <= j < todo_pre.len() - 1 && (#[trigger] todo_pre.subrange(
                                    0,
                                    todo_pre.len() - 1,
                                )[j]).x as int == xx && todo_pre.subrange(
                                    0,
                                    todo_pre.len() - 1,
                                )[j].y as int == yy;
                            assert(self.todo@[j] == todo_pre[j]);
                        }
                    }
                }
                if self.pixels.len() > 0 {
                    let ghost comps_pre = components@;
                    let ghost px_list = self.pixels@;
                    let c = self.build_new_component();
                    components.push(c);
                    proof {
                        assert(components@[comps_pre.len() as int] == c);
                        assert(forall|k: int|
                            0 <= k < comps_pre.len() ==> components@[k] == #[trigger] comps_pre[k]);
                        assert forall|xx: int, yy: int|
                            vis(self.visited@, xx, yy) && mx_bit(m, xx, yy) implies in_comps(
                            components@,
                            xx,
                            yy,
                        ) by {
                            if in_comps(comps_pre, xx, yy) {
                                let k = choose|k: int|
                                    0 <= k < comps_pre.len() && mx_bit(
                                        (#[trigger] comps_pre[k]).matrix@,
                                        xx,
                                        yy,
                                    );
                                assert(mx_bit((components@[k]).matrix@, xx, yy));
                            } else {
                                assert(in_px_list(px_list, xx, yy));
                                assert(mx_bit(c.matrix@, xx, yy));
                                assert(mx_bit((components@[comps_pre.len() as int]).matrix@, xx, yy));
                            }
                        }
                        assert forall|k: int, xx: int, yy: int|
                            0 <= k < components@.len() && #[trigger] mx_bit(
                                components@[k].matrix@,
                                xx,
                                yy,
                            ) implies mx_bit(m, xx, yy) && vis(self.visited@, xx, yy) by {
                            if k == comps_pre.len() as int {
                                assert(in_px_list(px_list, xx, yy));
                                let j = choose|j: int|
                                    0 <= j < px_list.len() && (#[trigger] px_list[j]).x as int == xx
                                        && px_list[j].y as int == yy;
                            }
                        }
                        assert forall|k1: int, k2: int, xx: int, yy: int|
                            0 <= k1 < components@.len() && 0 <= k2 < components@.len() && k1
                                != k2 implies !(#[trigger] mx_bit(components@[k1].matrix@, xx, yy)
                            && #[trigger] mx_bit(components@[k2].matrix@, xx, yy)) by {
                            if k1 < comps_pre.len() && k2 < comps_pre.len() {
                            } else if k1 == comps_pre.len() as int && k2 < comps_pre.len() {
                                if mx_bit(c.matrix@, xx, yy) {
                                    assert(in_px_list(px_list, xx, yy));
                                    let j = choose|j: int|
                                        0 <= j < px_list.len() && (#[trigger] px_list[j]).x as int
                                            == xx && px_list[j].y as int == yy;
                                    assert(!mx_bit((comps_pre[k2]).matrix@, xx, yy));
                                }
                            } else if k2 == comps_pre.len() as int && k1 < comps_pre.len() {
                                if mx_bit(c.matrix@, xx, yy) {
                                    assert(in_px_list(px_list, xx, yy));
                                    let j = choose|j: int|
                                        0 <= j < px_list.len() && (#[trigger] px_list[j]).x as int
                                            == xx && px_list[j].y as int == yy;
                                    assert(!mx_bit((comps_pre[k1]).matrix@, xx, yy));
                                }
                            }
                        }
                    }
                    self.pixels.clear();
                }
                y = y + 1;
            }
            x = x + 1;
        }
        components
    }

    /// Builds one component from the collected cells: the matrix holding
    /// exactly those cells, the population, and the pixel-tight bounds.
    fn build_new_component(&self) -> (c: Component)
        requires
            self.pixels@.len() > 0,
            forall|k: int|
                0 <= k < self.pixels@.len() ==> ((#[trigger] self.pixels@[k]).x < 32
                    && self.pixels@[k].y < 32),
            forall|k1: int, k2: int|
                0 <= k1 < k2 < self.pixels@.len() ==> #[trigger] self.pixels@[k1]
                    != #[trigger] self.pixels@[k2],
        ensures
            c.wf(),
            forall|x: int, y: int| #[trigger] mx_bit(c.matrix@, x, y) == in_px_list(self.pixels@, x, y),
            c.pixels as int == self.pixels@.len(),
            exists|k: int|
                0 <= k < self.pixels@.len() && (#[trigger] self.pixels@[k]).x == c.bounds.x,
            exists|k: int|
                0 <= k < self.pixels@.len() && (#[trigger] self.pixels@[k]).y == c.bounds.y,
            exists|k: int|
                0 <= k < self.pixels@.len() && (#[trigger] self.pixels@[k]).x as int == c.bounds.x
                    as int + c.bounds.width as int - 1,
            exists|k: int|
                0 <= k < self.pixels@.len() && (#[trigger] self.pixels@[k]).y as int == c.bounds.y
                    as int + c.bounds.height as int - 1,
    {
        let ghost ps = self.pixels@;
        let mut mx = [0u32; 32];
        let mut min_x: u32 = 31;
        let mut min_y: u32 = 31;
        let mut max_x: u32 = 0;
        let mut max_y: u32 = 0;
        let n = self.pixels.len();
        let mut i: usize = 0;
        proof {
            lemma_pop_rows_zero(mx@, 32);
            lemma_zero_row();
        }
        while i < n
            invariant
                n == ps.len(),
                ps == self.pixels@,
                i <= n,
                n > 0,
                mx@.len() == 32,
                forall|k: int| 0 <= k < n ==> ((#[trigger] ps[k]).x < 32 && ps[k].y < 32),
                forall|k1: int, k2: int| 0 <= k1 < k2 < n ==> #[trigger] ps[k1] != #[trigger] ps[k2],
                forall|x: int, y: int| #[trigger]
                    mx_bit(mx@, x, y) == in_px_list(ps.take(i as int), x, y),
                pop_mx(mx@) == i as int,
                i > 0 ==> (min_x < 32 && min_y < 32 && max_x < 32 && max_y < 32),
                i > 0 ==> (forall|k: int|
                    0 <= k < i as int ==> min_x <= (#[trigger] ps[k]).x && ps[k].x <= max_x && min_y
                        <= ps[k].y && ps[k].y <= max_y),
                i > 0 ==> (exists|k: int| 0 <= k < i as int && (#[trigger] ps[k]).x == min_x),
                i > 0 ==> (exists|k: int| 0 <= k < i as int && (#[trigger] ps[k]).x == max_x),
                i > 0 ==> (exists|k: int| 0 <= k < i as int && (#[trigger] ps[k]).y == min_y),
                i > 0 ==> (exists|k: int| 0 <= k < i as int && (#[trigger] ps[k]).y == max_y),
                i == 0 ==> (min_x == 31 && min_y == 31 && max_x == 0 && max_y == 0),
            decreases n - i,
        {
            let px = self.pixels[i];
            proof {
                assert(!in_px_list(ps.take(i as int), px.x as int, px.y as int)) by {
                    assert forall|k: int| 0 <= k < i as int implies !((#[trigger] ps.take(
                        i as int,
                    )[k]).x as int == px.x as int && ps.take(i as int)[k].y as int
                        == px.y as int) by {
                        assert(ps.take(i as int)[k] == ps[k]);
                        assert(ps[k] != ps[i as int]);
                    }
                }
                assert(!mx_bit(mx@, px.x as int, px.y as int));
                assert(!row_bit(mx@[px.y as int], px.x));
                lemma_set_bit(mx@[px.y as int], px.x);
                lemma_pop_set_bit(mx@[px.y as int], px.x, 32);
                lemma_pop_rows_update(
                    mx@,
                    32,
                    px.y as int,
                    mx@[px.y as int] | (1u32 << ((31 - px.x) as u32)),
                );
            }
            let ghost mx_before = mx@;
            mx[px.y as usize] = mx[px.y as usize] | (1u32 << (31 - px.x));
            proof {
                assert(forall|x: int, y: int| #[trigger]
                    mx_bit(mx_before, x, y) == in_px_list(ps.take(i as int), x, y));
                assert(mx@ =~= mx_before.update(px.y as int, mx_before[px.y as int] | (1u32 << ((31
                    - px.x) as u32))));
                assert(mx@[px.y as int] == mx_before[px.y as int] | (1u32 << ((31
                    - px.x) as u32)));
                assert(forall|c: u32| #[trigger]
                    row_bit(mx@[px.y as int], c) == (row_bit(mx_before[px.y as int], c) || c
                        == px.x));
                assert forall|x: int, y: int| true implies #[trigger] mx_bit(mx@, x, y)
                    == in_px_list(ps.take(i as int + 1), x, y) by {
                    if 0 <= x < 32 && 0 <= y < 32 {
                        assert(mx_bit(mx_before, x, y) == in_px_list(ps.take(i as int), x, y));
                        if y != px.y as int {
                            assert(mx@[y] == mx_before[y]);
                            assert(mx_bit(mx@, x, y) == mx_bit(mx_before, x, y));
                        }
                        if mx_bit(mx@, x, y) {
                            if y == px.y as int && x == px.x as int {
                                assert(ps.take(i as int + 1)[i as int] == ps[i as int]);
                                assert(in_px_list(ps.take(i as int + 1), x, y));
                            } else if mx_bit(mx_before, x, y) {
                                let k = choose|k: int|
                                    0 <= k < ps.take(i as int).len() && (#[trigger] ps.take(
                                        i as int,
                                    )[k]).x as int == x && ps.take(i as int)[k].y as int == y;
                                assert(ps.take(i as int + 1)[k] == ps[k]);
                                assert(in_px_list(ps.take(i as int + 1), x, y));
                            }
                        }
                        if in_px_list(ps.take(i as int + 1), x, y) && !(y == px.y as int && x
                            == px.x as int) {
                            let k = choose|k: int|
                                0 <= k < ps.take(i as int + 1).len() && (#[trigger] ps.take(
                                    i as int + 1,
                                )[k]).x as int == x && ps.take(i as int + 1)[k].y as int == y;
                            assert(k < i as int);
                            assert(ps.take(i as int)[k] == ps[k]);
                            assert(in_px_list(ps.take(i as int), x, y));
                        }
                    } else {
                        assert forall|k: int| 0 <= k < ps.take(i as int + 1).len() implies !((
                        #[trigger] ps.take(i as int + 1)[k]).x as int == x && ps.take(
                            i as int + 1,
                        )[k].y as int == y) by {
                            assert(ps.take(i as int + 1)[k] == ps[k]);
                        }
                    }
                }
            }
            if i == 0 {
                min_x = px.x;
                max_x = px.x;
                min_y = px.y;
                max_y = px.y;
            } else {
                if px.x < min_x {
                    min_x = px.x;
                }
                if px.x > max_x {
                    max_x = px.x;
                }
                if px.y < min_y {
                    min_y = px.y;
                }
                if px.y > max_y {
                    max_y = px.y;
                }
            }
            i = i + 1;
        }
        proof {
            assert(ps.take(n as int) =~= ps);
            lemma_pop_rows_bounds(mx@, 32);
        }
        let c = Component {
            bounds: Rect {
                x: min_x,
                y: min_y,
                width: max_x - min_x + 1,
                height: max_y - min_y + 1,
            },
            matrix: mx,
            pixels: n as u32,
        };
        c
    }
}

/// One canonical glyph bitmap for a character, with its pre-computed pixel
/// count, halo layers, structural components and per-entry score bias.
#[derive(Debug)]
pub struct ReferenceMatrix {
    pub character: char,
    pub matrix: [u32; 32],
    pub pixels: u32,
    pub halo: Vec<[u32; 32]>,
    pub score_modifier: i64,
    pub font_name: String,
    pub components: Vec<Component>,
    pub transformations: Vec<Transformation>,
}

/// Two reference entries hold the same values.
pub open spec fn rm_eq(a: ReferenceMatrix, b: ReferenceMatrix) -> bool {
    &&& a.character == b.character
    &&& a.matrix == b.matrix
    &&& a.pixels == b.pixels
    &&& a.halo@ == b.halo@
    &&& a.score_modifier == b.score_modifier
    &&& a.font_name@ == b.font_name@
    &&& a.components@ == b.components@
    &&& a.transformations@ == b.transformations@
}

impl ReferenceMatrix {
    /// The pixel count is the matrix population, the halo holds the
    /// configured number of dilation rings, and the bias is bounded.
    pub open spec fn wf(self, halo_layers: int) -> bool {
        &&& self.pixels as int == pop_mx(self.matrix@)
        &&& self.halo@.len() == halo_layers
        &&& forall|i: int, x: int, y: int|
            0 <= i < self.halo@.len() ==> (#[trigger] mx_bit(self.halo@[i]@, x, y) == ring_bit(
                self.matrix@,
                (i + 1) as nat,
                x,
                y,
            ))
        &&& -weight_limit() <= self.score_modifier <= weight_limit()
    }

    /// Builds one reference entry from its bitmap: pixel count, halo rings
    /// and the connected-component decomposition of the whole canvas.
    pub fn new(
        character: char,
        matrix: [u32; 32],
        score_modifier: i64,
        font_name: String,
        params: &Parameters,
    ) -> (r: ReferenceMatrix)
        requires
            params.wf(),
            -weight_limit() <= score_modifier <= weight_limit(),
        ensures
            r.wf(params.spec_halo_layers()),
            r.character == character,
            r.matrix == matrix,
            r.score_modifier == score_modifier,
            r.font_name@ == font_name@,
            r.transformations@.len() == 0,
            forall|k: int, x: int, y: int|
                0 <= k < r.components@.len() && #[trigger] mx_bit(r.components@[k].matrix@, x, y)
                    ==> mx_bit(matrix@, x, y),
            forall|k: int| 0 <= k < r.components@.len() ==> (#[trigger] r.components@[k]).wf(),
            forall|k1: int, k2: int, x: int, y: int|
                0 <= k1 < r.components@.len() && 0 <= k2 < r.components@.len() && k1 != k2 ==> !(
                #[trigger] mx_bit(r.components@[k1].matrix@, x, y) && #[trigger] mx_bit(
                    r.components@[k2].matrix@,
                    x,
                    y,
                )),
            forall|x: int, y: int|
                #[trigger] mx_bit(matrix@, x, y) ==> in_comps(r.components@, x, y),
    {
        let pixels = count_bits(&matrix);
        let mut grown = matrix;
        let halo = build_mx_halo(&mut grown, params.halo_layers());
        let seed = Component {
            bounds: Rect { x: 0, y: 0, width: 32, height: 32 },
            matrix,
            pixels,
        };
        let mut finder = ComponentFindUnconnected::new(seed);
        let components = finder.run();
        ReferenceMatrix {
            character,
            matrix,
            pixels,
            halo,
            score_modifier,
            font_name,
            components,
            transformations: Vec::new(),
        }
    }

    /// An equal-valued copy.
    pub fn duplicate(&self) -> (r: ReferenceMatrix)
        ensures
            rm_eq(r, *self),
    {
        ReferenceMatrix {
            character: self.character,
            matrix: self.matrix,
            pixels: self.pixels,
            halo: crate::util::copy_vec(&self.halo),
            score_modifier: self.score_modifier,
            font_name: self.font_name.clone(),
            components: crate::util::copy_vec(&self.components),
            transformations: crate::util::copy_vec(&self.transformations),
        }
    }
}

/// The reference store: per character, the canonical glyph bitmaps matched
/// against. Entries keep their insertion order and keys stay unique.
#[derive(Debug)]
pub struct ReferenceMatrixCache {
    pub entries: Vec<(char, Vec<ReferenceMatrix>)>,
}

impl ReferenceMatrixCache {
    pub open spec fn keys_unique(self) -> bool {
        forall|i: int, j: int|
            0 <= i < j < self.entries@.len() ==> (#[trigger] self.entries@[i]).0
                != (#[trigger] self.entries@[j]).0
    }

    /// Keys unique, every entry filed under its own character, every entry
    /// well-formed for the configured halo depth.
    pub open spec fn wf(self, halo_layers: int) -> bool {
        &&& self.keys_unique()
        &&& forall|i: int, j: int|
            0 <= i < self.entries@.len() && 0 <= j < (#[trigger] self.entries@[i]).1@.len() ==> {
                &&& (#[trigger] self.entries@[i].1@[j]).wf(halo_layers)
                &&& self.entries@[i].1@[j].character == self.entries@[i].0
            }
    }

    /// The store has an entry list for this character.
    pub open spec fn spec_has_char(self, c: char) -> bool {
        exists|i: int| 0 <= i < self.entries@.len() && (#[trigger] self.entries@[i]).0 == c
    }

    pub fn new() -> (r: ReferenceMatrixCache)
        ensures
            r.entries@.len() == 0,
            forall|hl: int| r.wf(hl),
    {
        ReferenceMatrixCache { entries: Vec::new() }
    }

    /// Files one reference under its character, appending to that
    /// character's list or opening a new one; order and key uniqueness are
    /// kept.
    pub fn insert(&mut self, rm: ReferenceMatrix, Ghost(halo_layers): Ghost<int>)
        requires
            old(self).wf(halo_layers),
            rm.wf(halo_layers),
        ensures
            final(self).wf(halo_layers),
            final(self).spec_has_char(rm.character),
            final(self).entries@.len() >= old(self).entries@.len(),
            forall|k: int|
                0 <= k < old(self).entries@.len() ==> (#[trigger] final(self).entries@[k]).0
                    == old(self).entries@[k].0,
    {
        let ghost pre = self.entries@;
        proof {
            assert forall|a: int, b: int|
                0 <= a < pre.len() && 0 <= b < (#[trigger] pre[a]).1@.len() implies ((
            #[trigger] pre[a].1@[b]).wf(halo_layers) && pre[a].1@[b].character == pre[a].0) by {
                assert(old(self).entries@[a] == pre[a]);
                assert(old(self).entries@[a].1@[b] == pre[a].1@[b]);
            }
        }
        let n = self.entries.len();
        let mut i: usize = 0;
        while i < n
            invariant
                n == self.entries@.len(),
                self.entries@ == pre,
                pre == old(self).entries@,
                rm.wf(halo_layers),
                i <= n,
                forall|k: int| 0 <= k < i as int ==> (#[trigger] pre[k]).0 != rm.character,
                forall|a: int, b: int|
                    0 <= a < pre.len() && 0 <= b < (#[trigger] pre[a]).1@.len() ==> ((
                    #[trigger] pre[a].1@[b]).wf(halo_layers) && pre[a].1@[b].character
                        == pre[a].0),
                forall|a: int, c: int|
                    0 <= a < c < pre.len() ==> (#[trigger] pre[a]).0 != (#[trigger] pre[c]).0,
            decreases n - i,
        {
            if self.entries[i].0 == rm.character {
                let ghost rm_snap = rm;
                let ii = i;
                let entry = self.entries.remove(ii);
                let (key, mut row) = entry;
                proof {
                    assert(key == pre[ii as int].0 && row == pre[ii as int].1);
                    pre.remove_ensures(ii as int);
                }
                let ghost mid = self.entries@;
                let ghost row_pre = row@;
                row.push(rm);
                let ghost nv = row@;
                self.entries.insert(ii, (key, row));
                proof {
                    mid.insert_ensures(ii as int, (key, row));
                    assert(nv == row_pre.push(rm_snap));
                    assert(row_pre == pre[ii as int].1@);
                    assert(self.entries@.len() == pre.len());
                    assert(self.entries@[ii as int].0 == rm_snap.character);
                    assert(self.entries@[ii as int].1@ == nv);
                    assert forall|k: int|
                        0 <= k < pre.len() && k != ii as int implies #[trigger] self.entries@[k]
                        == pre[k] by {
                        if k < ii as int {
                            assert(self.entries@[k] == mid[k]);
                            assert(mid[k] == pre[k]);
                        } else {
                            assert(self.entries@[k] == mid[k - 1]);
                            assert(mid[k - 1] == pre[k]);
                        }
                    }
                    assert forall|a: int, b: int|
                        0 <= a < self.entries@.len() && 0 <= b < (
                        #[trigger] self.entries@[a]).1@.len() implies {
                        &&& (#[trigger] self.entries@[a].1@[b]).wf(halo_layers)
                        &&& self.entries@[a].1@[b].character == self.entries@[a].0
                    } by {
                        if a == ii as int {
                            assert(self.entries@[a].1@ == nv);
                            if b < row_pre.len() {
                                assert(self.entries@[a].1@[b] == pre[a].1@[b]);
                                assert(pre[a].1@[b].wf(halo_layers));
                            } else {
                                assert(self.entries@[a].1@[b] == rm_snap);
                            }
                        } else {
                            assert(self.entries@[a] == pre[a]);
                            assert(self.entries@[a].1@[b] == pre[a].1@[b]);
                            assert(pre[a].1@[b].wf(halo_layers));
                        }
                    }
                    assert forall|k: int| 0 <= k < pre.len() implies (
                    #[trigger] self.entries@[k]).0 == pre[k].0 by {
                        if k != ii as int {
                            assert(self.entries@[k] == pre[k]);
                        }
                    }
                }
                return ;
            }
            i = i + 1;
        }
        let character = rm.character;
        let ghost rm_snap2 = rm;
        let mut fresh: Vec<ReferenceMatrix> = Vec::new();
        fresh.push(rm);
        self.entries.push((character, fresh));
        proof {
            assert(self.entries@[pre.len() as int].0 == character);
            assert forall|k: int| 0 <= k < pre.len() implies (#[trigger] self.entries@[k]).0
                == pre[k].0 by {
                assert(self.entries@[k] == pre[k]);
            }
            assert forall|a: int, b: int|
                0 <= a < self.entries@.len() && 0 <= b < (
                #[trigger] self.entries@[a]).1@.len() implies {
                &&& (#[trigger] self.entries@[a].1@[b]).wf(halo_layers)
                &&& self.entries@[a].1@[b].character == self.entries@[a].0
            } by {
                if a < pre.len() {
                    assert(self.entries@[a] == pre[a]);
                    assert(self.entries@[a].1@[b] == pre[a].1@[b]);
                    assert(pre[a].1@[b].wf(halo_layers));
                } else {
                    assert(self.entries@[a].1@[b] == rm_snap2);
                }
            }
            assert forall|a: int, b: int|
                0 <= a < b < self.entries@.len() implies (#[trigger] self.entries@[a]).0 != (
                #[trigger] self.entries@[b]).0 by {
                if b < pre.len() {
                    assert(self.entries@[a] == pre[a]);
                    assert(self.entries@[b] == pre[b]);
                } else {
                    assert(self.entries@[a] == pre[a]);
                }
            }
        }
    }

    /// The references filed under one character, in their stored order; a
    /// character the store does not know yields an empty list, not a
    /// failure.
    pub fn lookup(&self, character: char) -> (r: Vec<ReferenceMatrix>)
        ensures
            !self.spec_has_char(character) ==> r@.len() == 0,
            forall|i: int|
                0 <= i < self.entries@.len() && (#[trigger] self.entries@[i]).0 == character
                    && self.keys_unique() ==> (r@.len() == self.entries@[i].1@.len() && (forall|
                j: int,
            |
                0 <= j < r@.len() ==> rm_eq(#[trigger] r@[j], self.entries@[i].1@[j]))),
    {
        let n = self.entries.len();
        let mut i: usize = 0;
        while i < n
            invariant
                n == self.entries@.len(),
                i <= n,
                forall|k: int| 0 <= k < i as int ==> (#[trigger] self.entries@[k]).0 != character,
            decreases n - i,
        {
            if self.entries[i].0 == character {
                let found = &self.entries[i].1;
                let mut out: Vec<ReferenceMatrix> = Vec::new();
                let m = found.len();
                let mut j: usize = 0;
                while j < m
                    invariant
                        m == found@.len(),
                        j <= m,
                        out@.len() == j as int,
                        forall|k: int| 0 <= k < j as int ==> rm_eq(#[trigger] out@[k], found@[k]),
                    decreases m - j,
                {
                    out.push(found[j].duplicate());
                    j = j + 1;
                }
                return out;
            }
            i = i + 1;
        }
        Vec::new()
    }
}

/// Accumulates reference bitmaps at load time and builds the store: each
/// added glyph gets its pixel count, halo rings and component decomposition
/// computed once, then is filed under its character.
pub struct ReferenceMatrixCacheBuilder {
    cache: ReferenceMatrixCache,
    params: Parameters,
}

impl ReferenceMatrixCacheBuilder {
    pub closed spec fn spec_params(self) -> Parameters {
        self.params
    }

    pub closed spec fn spec_cache(self) -> ReferenceMatrixCache {
        self.cache
    }

    pub fn new(params: Parameters) -> (r: ReferenceMatrixCacheBuilder)
        requires
            params.wf(),
        ensures
            r.spec_params() == params,
            r.spec_cache().wf(params.spec_halo_layers()),
    {
        ReferenceMatrixCacheBuilder { cache: ReferenceMatrixCache::new(), params }
    }

    /// Adds one glyph bitmap for a character, computing its derived data.
    pub fn add_reference(
        &mut self,
        character: char,
        matrix: [u32; 32],
        score_modifier: i64,
        font_name: String,
    )
        requires
            old(self).spec_params().wf(),
            old(self).spec_cache().wf(old(self).spec_params().spec_halo_layers()),
            -weight_limit() <= score_modifier <= weight_limit(),
        ensures
            final(self).spec_params() == old(self).spec_params(),
            final(self).spec_cache().wf(final(self).spec_params().spec_halo_layers()),
            final(self).spec_cache().spec_has_char(character),
    {
        let rm = ReferenceMatrix::new(character, matrix, score_modifier, font_name, &self.params);
        let ghost hl = self.params.spec_halo_layers();
        self.cache.insert(rm, Ghost(hl));
    }

    /// Hands the finished store over.
    pub fn build(self) -> (r: ReferenceMatrixCache)
        requires
            self.spec_cache().wf(self.spec_params().spec_halo_layers()),
        ensures
            r == self.spec_cache(),
    {
        self.cache
    }
}

} // verus!
