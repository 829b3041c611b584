//! Field of view: which cells are seen from an origin within a radius.

use crate::map::{cell_index, in_map, lemma_cell_index, lemma_cell_index_injective, TileMap, MAP_HEIGHT, MAP_WIDTH};
use vstd::prelude::*;

verus! {

#[derive(Clone, Copy, Debug)]
struct FovTile {
    visible: bool,
    blocks: bool,
}

/// Number of steps of the ray from the origin to a cell `(dx, dy)` away.
pub open spec fn ray_len(dx: int, dy: int) -> int {
    let ax = if dx < 0 { -dx } else { dx };
    let ay = if dy < 0 { -dy } else { dy };
    if ax >= ay { ax } else { ay }
}

/// Offset along one axis after `k` of `n` steps toward a total offset of `d`,
/// rounded half away from zero.
pub open spec fn ray_step(k: int, d: int, n: int) -> int {
    if d >= 0 {
        (2 * k * d + n) / (2 * n)
    } else {
        -((2 * k * (-d) + n) / (2 * n))
    }
}

/// Whether a cell `(dx, dy)` away lies within `radius` (Euclidean).
pub open spec fn within_radius(dx: int, dy: int, radius: int) -> bool {
    radius >= 0 && dx * dx + dy * dy <= radius * radius
}

pub proof fn lemma_ray_step_bounds(k: int, d: int, n: int)
    requires
        0 <= k <= n,
        0 < n,
        -n <= d <= n,
    ensures
        d >= 0 ==> 0 <= ray_step(k, d, n) <= d,
        d < 0 ==> d <= ray_step(k, d, n) <= 0,
        k == 0 ==> ray_step(k, d, n) == 0,
{
    let a = if d >= 0 { d } else { -d };
    let num = 2 * k * a + n;
    let q = num / (2 * n);
    vstd::arithmetic::div_mod::lemma_fundamental_div_mod(num, 2 * n);
    assert(0 <= k * a <= n * a) by (nonlinear_arith)
        requires
            0 <= k <= n,
            0 <= a,
    ;
    assert(0 <= num <= 2 * n * a + n) by (nonlinear_arith)
        requires
            0 <= k * a <= n * a,
            num == 2 * k * a + n,
            n > 0,
    ;
    assert(0 <= q <= a) by (nonlinear_arith)
        requires
            0 <= num <= 2 * n * a + n,
            (2 * n) * q <= num,
            num < (2 * n) * q + 2 * n,
            n > 0,
    ;
    if k == 0 {
        assert(q == 0) by (nonlinear_arith)
            requires
                num == n,
                (2 * n) * q <= num,
                num < (2 * n) * q + 2 * n,
                n > 0,
        ;
    }
}

/// Every point of the ray between two cells of the grid lies on the grid.
pub proof fn lemma_ray_in_map(ox: int, oy: int, x: int, y: int, k: int)
    requires
        in_map(ox, oy),
        in_map(x, y),
        0 <= k < ray_len(x - ox, y - oy),
    ensures
        in_map(
            ox + ray_step(k, x - ox, ray_len(x - ox, y - oy)),
            oy + ray_step(k, y - oy, ray_len(x - ox, y - oy)),
        ),
{
    let n = ray_len(x - ox, y - oy);
    lemma_ray_step_bounds(k, x - ox, n);
    lemma_ray_step_bounds(k, y - oy, n);
}

/// The field-of-view map: a see-through layer copied from the grid and the visibility
/// computed from the last origin.
pub struct Fov {
    fovmap: Vec<FovTile>,
}

impl Fov {
    pub closed spec fn wf(&self) -> bool {
        self.fovmap@.len() == MAP_WIDTH * MAP_HEIGHT
    }

    /// Whether cell `(x, y)` blocks sight.
    pub closed spec fn blocks_at(&self, x: int, y: int) -> bool {
        self.fovmap@[cell_index(x, y)].blocks
    }

    /// Whether cell `(x, y)` is currently visible.
    pub closed spec fn visible_at(&self, x: int, y: int) -> bool {
        self.fovmap@[cell_index(x, y)].visible
    }

    /// Whether no cell of the ray from `(ox, oy)` to `(x, y)` blocks sight before `(x, y)`.
    pub open spec fn ray_clear(&self, ox: int, oy: int, x: int, y: int) -> bool {
        let n = ray_len(x - ox, y - oy);
        forall|k: int|
            0 <= k < n ==> !#[trigger] self.blocks_at(
                ox + ray_step(k, x - ox, n),
                oy + ray_step(k, y - oy, n),
            )
    }

    /// Whether `(x, y)` is seen from `(ox, oy)` with sight radius `radius`.
    pub open spec fn sees(&self, ox: int, oy: int, radius: int, x: int, y: int) -> bool {
        in_map(x, y) && within_radius(x - ox, y - oy, radius) && self.ray_clear(ox, oy, x, y)
    }

    /// Two maps with the same see-through layer clear the same rays.
    pub proof fn lemma_same_layer(a: Fov, b: Fov, ox: int, oy: int, x: int, y: int)
        requires
            in_map(ox, oy),
            in_map(x, y),
            forall|p: int, q: int| in_map(p, q) ==> #[trigger] a.blocks_at(p, q) == b.blocks_at(p, q),
        ensures
            a.ray_clear(ox, oy, x, y) == b.ray_clear(ox, oy, x, y),
    {
        let n = ray_len(x - ox, y - oy);
        if a.ray_clear(ox, oy, x, y) {
            assert forall|k: int| 0 <= k < n implies !#[trigger] b.blocks_at(
                ox + ray_step(k, x - ox, n),
                oy + ray_step(k, y - oy, n),
            ) by {
                lemma_ray_in_map(ox, oy, x, y, k);
                assert(!a.blocks_at(ox + ray_step(k, x - ox, n), oy + ray_step(k, y - oy, n)));
            }
        }
        if b.ray_clear(ox, oy, x, y) {
            assert forall|k: int| 0 <= k < n implies !#[trigger] a.blocks_at(
                ox + ray_step(k, x - ox, n),
                oy + ray_step(k, y - oy, n),
            ) by {
                lemma_ray_in_map(ox, oy, x, y, k);
                assert(!b.blocks_at(ox + ray_step(k, x - ox, n), oy + ray_step(k, y - oy, n)));
            }
        }
    }

    /// A map where nothing blocks sight and nothing is visible.
    pub fn new() -> (r: Fov)
        ensures
            r.wf(),
            forall|x: int, y: int|
                in_map(x, y) ==> !#[trigger] r.blocks_at(x, y) && !r.visible_at(x, y),
    {
        let n: usize = (MAP_WIDTH * MAP_HEIGHT) as usize;
        let r = Fov { fovmap: vec![FovTile { visible: false, blocks: false }; n] };
        assert forall|x: int, y: int| in_map(x, y) implies !#[trigger] r.blocks_at(x, y)
            && !r.visible_at(x, y) by {
            lemma_cell_index(x, y);
        }
        r
    }

    /// A map whose see-through layer is copied from the grid; nothing is visible yet.
    pub fn from_map(map: &TileMap) -> (r: Fov)
        requires
            map.wf(),
        ensures
            r.wf(),
            forall|x: int, y: int|
                in_map(x, y) ==> #[trigger] r.blocks_at(x, y) == map.tile_at(x, y).block_sight
                    && !r.visible_at(x, y),
    {
        let n: usize = (MAP_WIDTH * MAP_HEIGHT) as usize;
        let mut fovmap: Vec<FovTile> = Vec::new();
        let mut i: usize = 0;
        while i < n
            invariant
                n == MAP_WIDTH * MAP_HEIGHT,
                map.wf(),
                i <= n,
                fovmap@.len() == i,
                forall|j: int|
                    0 <= j < i ==> (#[trigger] fovmap@[j]).blocks == map.tiles@[j].block_sight
                        && !fovmap@[j].visible,
            decreases n - i,
        {
            fovmap.push(FovTile { visible: false, blocks: map.tiles[i].block_sight });
            i = i + 1;
        }
        let r = Fov { fovmap };
        assert forall|x: int, y: int| in_map(x, y) implies #[trigger] r.blocks_at(x, y)
            == map.tile_at(x, y).block_sight && !r.visible_at(x, y) by {
            lemma_cell_index(x, y);
        }
        r
    }

    /// Hides every cell; the see-through layer is kept.
    pub fn reset(&mut self)
        requires
            old(self).wf(),
        ensures
            final(self).wf(),
            forall|x: int, y: int|
                in_map(x, y) ==> !#[trigger] final(self).visible_at(x, y) && final(self).blocks_at(x, y) == old(self).blocks_at(x, y),
    {
        let n = self.fovmap.len();
        let mut i: usize = 0;
        while i < n
            invariant
                n == self.fovmap@.len(),
                n == MAP_WIDTH * MAP_HEIGHT,
                i <= n,
                forall|j: int| 0 <= j < i ==> !(#[trigger] self.fovmap@[j]).visible,
                forall|j: int|
                    0 <= j < n ==> (#[trigger] self.fovmap@[j]).blocks == old(self).fovmap@[j].blocks,
            decreases n - i,
        {
            self.fovmap[i].visible = false;
            i = i + 1;
        }
        proof {
            assert forall|x: int, y: int| in_map(x, y) implies !#[trigger] self.visible_at(x, y)
                && self.blocks_at(x, y) == old(self).blocks_at(x, y) by {
                lemma_cell_index(x, y);
            }
        }
    }

    /// Whether the ray from `(ox, oy)` reaches `(x, y)` without passing a sight-blocking cell.
    fn cast_fov(&self, ox: i32, oy: i32, x: i32, y: i32) -> (r: bool)
        requires
            self.wf(),
            in_map(ox as int, oy as int),
            in_map(x as int, y as int),
        ensures
            r == self.ray_clear(ox as int, oy as int, x as int, y as int),
    {
        let dx = x - ox;
        let dy = y - oy;
        let ax = if dx < 0 { -dx } else { dx };
        let ay = if dy < 0 { -dy } else { dy };
        let n = if ax >= ay { ax } else { ay };
        let mut k: i32 = 0;
        while k < n
            invariant
                self.wf(),
                in_map(ox as int, oy as int),
                in_map(x as int, y as int),
                dx == x - ox,
                dy == y - oy,
                ax == if dx < 0 { -dx } else { dx as int },
                ay == if dy < 0 { -dy } else { dy as int },
                n == ray_len(dx as int, dy as int),
                0 <= k <= n,
                forall|j: int|
                    0 <= j < k ==> !#[trigger] self.blocks_at(
                        ox + ray_step(j, dx as int, n as int),
                        oy + ray_step(j, dy as int, n as int),
                    ),
            decreases n - k,
        {
            proof {
                lemma_ray_step_bounds(k as int, dx as int, n as int);
                lemma_ray_step_bounds(k as int, dy as int, n as int);
            }
            assert(0 <= 2 * k * ax + n <= 2 * 80 * 80 + 80) by (nonlinear_arith)
                requires
                    0 <= k <= n,
                    0 <= ax <= n,
                    n < 80,
            ;
            assert(0 <= 2 * k * ay + n <= 2 * 80 * 80 + 80) by (nonlinear_arith)
                requires
                    0 <= k <= n,
                    0 <= ay <= n,
                    n < 80,
            ;
            let sx = (2 * k * ax + n) / (2 * n);
            let sy = (2 * k * ay + n) / (2 * n);
            let px = if dx >= 0 { ox + sx } else { ox - sx };
            let py = if dy >= 0 { oy + sy } else { oy - sy };
            assert(px == ox + ray_step(k as int, dx as int, n as int));
            assert(py == oy + ray_step(k as int, dy as int, n as int));
            proof {
                lemma_cell_index(px as int, py as int);
            }
            if self.fovmap[(px * MAP_HEIGHT + py) as usize].blocks {
                assert(self.blocks_at(
                    ox + ray_step(k as int, dx as int, n as int),
                    oy + ray_step(k as int, dy as int, n as int),
                ));
                return false;
            }
            k = k + 1;
        }
        true
    }

    /// Recomputes which cells are seen from `(origin_x, origin_y)` within `radius`.
    pub fn recompute(&mut self, origin_x: i32, origin_y: i32, radius: i32)
        requires
            old(self).wf(),
            in_map(origin_x as int, origin_y as int),
        ensures
            final(self).wf(),
            forall|x: int, y: int|
                in_map(x, y) ==> #[trigger] final(self).blocks_at(x, y) == old(self).blocks_at(
                    x,
                    y,
                ),
            forall|x: int, y: int|
                in_map(x, y) ==> #[trigger] final(self).visible_at(x, y) == old(self).sees(
                    origin_x as int,
                    origin_y as int,
                    radius as int,
                    x,
                    y,
                ),
    {
        assert(0 <= radius as i64 * radius as i64 <= 0x4000_0000_0000_0000) by (nonlinear_arith)
            requires
                i32::MIN <= radius <= i32::MAX,
        ;
        let r2: i64 = radius as i64 * radius as i64;
        let mut x: i32 = 0;
        while x < MAP_WIDTH
            invariant
                self.wf(),
                in_map(origin_x as int, origin_y as int),
                r2 == radius * radius,
                0 <= x <= MAP_WIDTH,
                forall|a: int, b: int|
                    in_map(a, b) ==> #[trigger] self.blocks_at(a, b) == old(self).blocks_at(a, b),
                forall|a: int, b: int|
                    in_map(a, b) && a < x ==> #[trigger] self.visible_at(a, b) == old(self).sees(
                        origin_x as int,
                        origin_y as int,
                        radius as int,
                        a,
                        b,
                    ),
            decreases MAP_WIDTH - x,
        {
            let mut y: i32 = 0;
            while y < MAP_HEIGHT
                invariant
                    self.wf(),
                    in_map(origin_x as int, origin_y as int),
                    r2 == radius * radius,
                    0 <= x < MAP_WIDTH,
                    0 <= y <= MAP_HEIGHT,
                    forall|a: int, b: int|
                        in_map(a, b) ==> #[trigger] self.blocks_at(a, b) == old(self).blocks_at(
                            a,
                            b,
                        ),
                    forall|a: int, b: int|
                        in_map(a, b) && (a < x || (a == x && b < y)) ==> #[trigger] self.visible_at(
                            a,
                            b,
                        ) == old(self).sees(origin_x as int, origin_y as int, radius as int, a, b),
                decreases MAP_HEIGHT - y,
            {
                let dx = (x - origin_x) as i64;
                let dy = (y - origin_y) as i64;
                assert(0 <= dx * dx <= 6400 && 0 <= dy * dy <= 6400) by (nonlinear_arith)
                    requires
                        -80 <= dx <= 80,
                        -80 <= dy <= 80,
                ;
                let near = radius >= 0 && dx * dx + dy * dy <= r2;
                let seen = near && self.cast_fov(origin_x, origin_y, x, y);
                proof {
                    lemma_cell_index(x as int, y as int);
                }
                let ghost before = *self;
                let idx: usize = (x * MAP_HEIGHT + y) as usize;
                self.fovmap[idx].visible = seen;
                proof {
                    assert(idx == cell_index(x as int, y as int));
                    assert(self.fovmap@ == before.fovmap@.update(
                        idx as int,
                        FovTile { visible: seen, blocks: before.fovmap@[idx as int].blocks },
                    ));
                    Fov::lemma_same_layer(
                        before,
                        *old(self),
                        origin_x as int,
                        origin_y as int,
                        x as int,
                        y as int,
                    );
                    assert forall|a: int, b: int| in_map(a, b) implies #[trigger] self.blocks_at(a, b)
                        == old(self).blocks_at(a, b) by {
                        lemma_cell_index(a, b);
                        lemma_cell_index_injective(a, b, x as int, y as int);
                        assert(before.blocks_at(a, b) == old(self).blocks_at(a, b));
                    }
                    assert forall|a: int, b: int|
                        in_map(a, b) && (a < x || (a == x && b < y + 1)) implies #[trigger] self.visible_at(a, b)
                        == old(self).sees(origin_x as int, origin_y as int, radius as int, a, b) by {
                        lemma_cell_index(a, b);
                        lemma_cell_index_injective(a, b, x as int, y as int);
                        if a != x || b != y {
                            assert(before.visible_at(a, b) == old(self).sees(
                                origin_x as int,
                                origin_y as int,
                                radius as int,
                                a,
                                b,
                            ));
                        }
                    }
                }
                y = y + 1;
            }
            x = x + 1;
        }
    }

    /// Whether `(x, y)` was seen at the last recomputation.
    pub fn is_in_fov(&self, x: i32, y: i32) -> (r: bool)
        requires
            self.wf(),
            in_map(x as int, y as int),
        ensures
            r == self.visible_at(x as int, y as int),
    {
        proof {
            lemma_cell_index(x as int, y as int);
        }
        self.fovmap[(x * MAP_HEIGHT + y) as usize].visible
    }
}

/// Seen from any origin on the grid with a radius of zero or more, the origin itself is
/// visible.
pub proof fn lemma_origin_seen(fov: Fov, ox: int, oy: int, radius: int)
    requires
        in_map(ox, oy),
        radius >= 0,
    ensures
        fov.sees(ox, oy, radius, ox, oy),
{
    assert(0 <= radius * radius) by (nonlinear_arith)
        requires
            radius >= 0,
    ;
}

/// Growing the radius never hides a cell: with the same see-through layer and origin, whatever
/// is seen within `r1` is seen within any `r2 >= r1`.
pub proof fn lemma_radius_monotone(fov: Fov, ox: int, oy: int, r1: int, r2: int, x: int, y: int)
    requires
        0 <= r1 <= r2,
        fov.sees(ox, oy, r1, x, y),
    ensures
        fov.sees(ox, oy, r2, x, y),
{
    assert(r1 * r1 <= r2 * r2) by (nonlinear_arith)
        requires
            0 <= r1 <= r2,
    ;
}

/// A cell whose ray passes a sight-blocking cell before reaching it is not seen.
pub proof fn lemma_hidden_behind_blocker(
    fov: Fov,
    ox: int,
    oy: int,
    radius: int,
    x: int,
    y: int,
    k: int,
)
    requires
        0 <= k < ray_len(x - ox, y - oy),
        fov.blocks_at(
            ox + ray_step(k, x - ox, ray_len(x - ox, y - oy)),
            oy + ray_step(k, y - oy, ray_len(x - ox, y - oy)),
        ),
    ensures
        !fov.sees(ox, oy, radius, x, y),
{
}

/// A sight-blocking cell is itself seen when it lies within the radius and its own ray is clear.
pub proof fn lemma_blocker_seen(fov: Fov, ox: int, oy: int, radius: int, x: int, y: int)
    requires
        in_map(x, y),
        within_radius(x - ox, y - oy, radius),
        fov.ray_clear(ox, oy, x, y),
        fov.blocks_at(x, y),
    ensures
        fov.sees(ox, oy, radius, x, y),
{
}

} // verus!
