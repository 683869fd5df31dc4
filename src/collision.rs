use vstd::prelude::*;

use crate::chunk::BlockPos;
use crate::chunk_manager::ChunkManager;
use crate::face::{Axis, Face};

verus! {

/// Fixed-point units per block: positions are whole multiples of 1/4096 block.
pub const UNITS_PER_BLOCK: i64 = 4096;

/// Largest magnitude of a fixed-point coordinate (2^40 units, 2^28 blocks).
pub const MAX_COORD: i64 = 1099511627776;

/// A point in fixed-point world units.
#[derive(Debug, Clone, Copy, PartialEq, Eq, Structural)]
pub struct Point {
    pub x: i64,
    pub y: i64,
    pub z: i64,
}

/// An axis-aligned box between two corners, in fixed-point world units.
#[derive(Debug, Clone, Copy, PartialEq, Eq, Structural)]
pub struct Aabb {
    pub min: Point,
    pub max: Point,
}

/// Whether a coordinate lies in the supported range.
pub open spec fn coord_ok(v: int) -> bool {
    -MAX_COORD <= v <= MAX_COORD
}

/// Component of a point along an axis.
pub open spec fn along(p: Point, axis: Axis) -> int {
    match axis {
        Axis::X => p.x as int,
        Axis::Y => p.y as int,
        Axis::Z => p.z as int,
    }
}

/// Whether two boxes overlap as open intervals along an axis.
pub open spec fn overlap_on(a: Aabb, b: Aabb, axis: Axis) -> bool {
    along(a.min, axis) < along(b.max, axis) && along(a.max, axis) > along(b.min, axis)
}

/// Whether two boxes overlap with positive volume.
pub open spec fn overlaps(a: Aabb, b: Aabb) -> bool {
    overlap_on(a, b, Axis::X) && overlap_on(a, b, Axis::Y) && overlap_on(a, b, Axis::Z)
}

/// The unit cube of the block cell at `c`.
pub open spec fn cell_box(c: BlockPos) -> Aabb {
    Aabb {
        min: Point {
            x: (c.x * UNITS_PER_BLOCK) as i64,
            y: (c.y * UNITS_PER_BLOCK) as i64,
            z: (c.z * UNITS_PER_BLOCK) as i64,
        },
        max: Point {
            x: ((c.x + 1) * UNITS_PER_BLOCK) as i64,
            y: ((c.y + 1) * UNITS_PER_BLOCK) as i64,
            z: ((c.z + 1) * UNITS_PER_BLOCK) as i64,
        },
    }
}

/// Whether a box overlaps the cell of some non-air block of the world.
pub open spec fn hits_world(cm: ChunkManager, b: Aabb) -> bool {
    exists|c: BlockPos| cm.block_id_at(c) != 0 && #[trigger] overlaps(b, cell_box(c))
}

/// The other two axes of an axis, in X, Y, Z order.
pub open spec fn others(axis: Axis) -> (Axis, Axis) {
    match axis {
        Axis::X => (Axis::Y, Axis::Z),
        Axis::Y => (Axis::X, Axis::Z),
        Axis::Z => (Axis::X, Axis::Y),
    }
}

/// How far a box may move by `delta` along `axis` before touching `other`.
pub open spec fn clipped(a: Aabb, other: Aabb, delta: int, axis: Axis) -> int {
    if !overlap_on(a, other, others(axis).0) || !overlap_on(a, other, others(axis).1) {
        delta
    } else if delta > 0 && along(a.max, axis) <= along(other.min, axis) {
        if along(other.min, axis) - along(a.max, axis) < delta {
            along(other.min, axis) - along(a.max, axis)
        } else {
            delta
        }
    } else if delta < 0 && along(a.min, axis) >= along(other.max, axis) {
        if along(other.max, axis) - along(a.min, axis) > delta {
            along(other.max, axis) - along(a.min, axis)
        } else {
            delta
        }
    } else {
        delta
    }
}

/// A box moved by `d` along `axis`.
pub open spec fn moved(a: Aabb, d: int, axis: Axis) -> Aabb {
    match axis {
        Axis::X => Aabb {
            min: Point { x: (a.min.x + d) as i64, ..a.min },
            max: Point { x: (a.max.x + d) as i64, ..a.max },
        },
        Axis::Y => Aabb {
            min: Point { y: (a.min.y + d) as i64, ..a.min },
            max: Point { y: (a.max.y + d) as i64, ..a.max },
        },
        Axis::Z => Aabb {
            min: Point { z: (a.min.z + d) as i64, ..a.min },
            max: Point { z: (a.max.z + d) as i64, ..a.max },
        },
    }
}

/// Floor of `v / UNITS_PER_BLOCK`.
pub fn floor_block(v: i64) -> (r: i64)
    requires
        coord_ok(v as int),
    ensures
        r as int == (v as int) / (UNITS_PER_BLOCK as int),
        -268435456 <= r <= 268435456,
{
    if v >= 0 {
        (v as u64 / 4096) as i64
    } else {
        let w = (-v - 1) as u64;
        let q = w / 4096;
        assert(w == 4096 * q + w % 4096);
        let r = -(q as i64) - 1;
        assert(v as int == 4096 * r + (4095 - w % 4096));
        r
    }
}

/// Ceiling of `v / UNITS_PER_BLOCK`.
pub fn ceil_block(v: i64) -> (r: i64)
    requires
        coord_ok(v as int),
    ensures
        r as int == -((-(v as int)) / (UNITS_PER_BLOCK as int)),
        -268435456 <= r <= 268435456,
{
    -floor_block(-v)
}

impl Aabb {
    pub open spec fn wf(&self) -> bool {
        &&& coord_ok(self.min.x as int) && coord_ok(self.min.y as int) && coord_ok(self.min.z as int)
        &&& coord_ok(self.max.x as int) && coord_ok(self.max.y as int) && coord_ok(self.max.z as int)
    }

    /// A box between two corners.
    pub fn new(min: Point, max: Point) -> (r: Aabb)
        ensures
            r.min == min,
            r.max == max,
    {
        Aabb { min, max }
    }

    /// Whether the two boxes overlap along X (open intervals).
    pub fn intersects_with_x(&self, other: &Aabb) -> (r: bool)
        ensures
            r == overlap_on(*self, *other, Axis::X),
    {
        self.min.x < other.max.x && self.max.x > other.min.x
    }

    /// Whether the two boxes overlap along Y (open intervals).
    pub fn intersects_with_y(&self, other: &Aabb) -> (r: bool)
        ensures
            r == overlap_on(*self, *other, Axis::Y),
    {
        self.min.y < other.max.y && self.max.y > other.min.y
    }

    /// Whether the two boxes overlap along Z (open intervals).
    pub fn intersects_with_z(&self, other: &Aabb) -> (r: bool)
        ensures
            r == overlap_on(*self, *other, Axis::Z),
    {
        self.min.z < other.max.z && self.max.z > other.min.z
    }

    /// Whether the two boxes overlap along both axes other than `axis`.
    pub fn intersects_on_axis(&self, other: &Aabb, axis: Axis) -> (r: bool)
        ensures
            r == (overlap_on(*self, *other, others(axis).0) && overlap_on(
                *self,
                *other,
                others(axis).1,
            )),
    {
        match axis {
            Axis::X => self.intersects_with_y(other) && self.intersects_with_z(other),
            Axis::Y => self.intersects_with_x(other) && self.intersects_with_z(other),
            Axis::Z => self.intersects_with_x(other) && self.intersects_with_y(other),
        }
    }

    /// Whether the two boxes overlap with positive volume.
    pub fn intersects(&self, other: &Aabb) -> (r: bool)
        ensures
            r == overlaps(*self, *other),
    {
        self.intersects_with_x(other) && self.intersects_with_y(other) && self.intersects_with_z(other)
    }

    /// Shortens a movement of `delta` along `axis` so that this box stops at
    /// `other` instead of passing into it; unchanged when the boxes do not
    /// overlap on the other two axes or `other` is not ahead of the box.
    pub fn clip_axis(&self, other: &Aabb, delta: i64, axis: Axis) -> (r: i64)
        requires
            self.wf(),
            other.wf(),
        ensures
            r as int == clipped(*self, *other, delta as int, axis),
    {
        if !self.intersects_on_axis(other, axis) {
            return delta;
        }
        let (a_min, a_max, o_min, o_max) = match axis {
            Axis::X => (self.min.x, self.max.x, other.min.x, other.max.x),
            Axis::Y => (self.min.y, self.max.y, other.min.y, other.max.y),
            Axis::Z => (self.min.z, self.max.z, other.min.z, other.max.z),
        };
        if delta > 0 && a_max <= o_min {
            let gap = o_min - a_max;
            if gap < delta {
                gap
            } else {
                delta
            }
        } else if delta < 0 && a_min >= o_max {
            let gap = o_max - a_min;
            if gap > delta {
                gap
            } else {
                delta
            }
        } else {
            delta
        }
    }

    /// The box moved by `d` along `axis`.
    pub fn translated(&self, d: i64, axis: Axis) -> (r: Aabb)
        requires
            self.wf(),
            coord_ok(d as int),
        ensures
            r == moved(*self, d as int, axis),
    {
        match axis {
            Axis::X => Aabb {
                min: Point { x: self.min.x + d, ..self.min },
                max: Point { x: self.max.x + d, ..self.max },
            },
            Axis::Y => Aabb {
                min: Point { y: self.min.y + d, ..self.min },
                max: Point { y: self.max.y + d, ..self.max },
            },
            Axis::Z => Aabb {
                min: Point { z: self.min.z + d, ..self.min },
                max: Point { z: self.max.z + d, ..self.max },
            },
        }
    }
}

/// The unit cube of the block cell at `c`.
pub fn block_box(c: BlockPos) -> (r: Aabb)
    requires
        -268435456 <= c.x < 268435456,
        -268435456 <= c.y < 268435456,
        -268435456 <= c.z < 268435456,
    ensures
        r == cell_box(c),
        r.wf(),
{
    let x = c.x as i64 * UNITS_PER_BLOCK;
    let y = c.y as i64 * UNITS_PER_BLOCK;
    let z = c.z as i64 * UNITS_PER_BLOCK;
    Aabb {
        min: Point { x, y, z },
        max: Point { x: x + UNITS_PER_BLOCK, y: y + UNITS_PER_BLOCK, z: z + UNITS_PER_BLOCK },
    }
}

/// A cell whose box a given box overlaps lies within the box's floor/ceiling block bounds.
pub proof fn lemma_overlap_in_bounds(b: Aabb, c: BlockPos)
    requires
        b.wf(),
        overlaps(b, cell_box(c)),
    ensures
        (b.min.x as int) / 4096 <= c.x < -((-(b.max.x as int)) / 4096),
        (b.min.y as int) / 4096 <= c.y < -((-(b.max.y as int)) / 4096),
        (b.min.z as int) / 4096 <= c.z < -((-(b.max.z as int)) / 4096),
{
    assert(b.min.x < (c.x + 1) * 4096);
    assert(b.max.x > c.x * 4096);
    assert(b.min.y < (c.y + 1) * 4096);
    assert(b.max.y > c.y * 4096);
    assert(b.min.z < (c.z + 1) * 4096);
    assert(b.max.z > c.z * 4096);
    assert((b.min.x as int) / 4096 <= c.x) by {
        assert((b.min.x as int) == 4096 * ((b.min.x as int) / 4096) + (b.min.x as int) % 4096);
    }
    assert((b.min.y as int) / 4096 <= c.y) by {
        assert((b.min.y as int) == 4096 * ((b.min.y as int) / 4096) + (b.min.y as int) % 4096);
    }
    assert((b.min.z as int) / 4096 <= c.z) by {
        assert((b.min.z as int) == 4096 * ((b.min.z as int) / 4096) + (b.min.z as int) % 4096);
    }
    assert(c.x < -((-(b.max.x as int)) / 4096)) by {
        assert(-(b.max.x as int) == 4096 * ((-(b.max.x as int)) / 4096) + (-(b.max.x as int)) % 4096);
    }
    assert(c.y < -((-(b.max.y as int)) / 4096)) by {
        assert(-(b.max.y as int) == 4096 * ((-(b.max.y as int)) / 4096) + (-(b.max.y as int)) % 4096);
    }
    assert(c.z < -((-(b.max.z as int)) / 4096)) by {
        assert(-(b.max.z as int) == 4096 * ((-(b.max.z as int)) / 4096) + (-(b.max.z as int)) % 4096);
    }
}

/// Whether a box overlaps the cell of some non-air block: every cell between
/// the box's floored minimum and ceiled maximum is tested.
pub fn collides(cm: &ChunkManager, aabb: &Aabb) -> (r: bool)
    requires
        cm.wf(),
        aabb.wf(),
    ensures
        r == hits_world(*cm, *aabb),
{
    let min_x = floor_block(aabb.min.x);
    let min_y = floor_block(aabb.min.y);
    let min_z = floor_block(aabb.min.z);
    let max_x = ceil_block(aabb.max.x);
    let max_y = ceil_block(aabb.max.y);
    let max_z = ceil_block(aabb.max.z);
    let mut y = min_y;
    while y < max_y
        invariant
            cm.wf(),
            aabb.wf(),
            min_y <= y || y >= max_y,
            -268435456 <= min_x && max_x <= 268435456,
            -268435456 <= min_z && max_z <= 268435456,
            -268435456 <= min_y && max_y <= 268435456,
            -268435456 <= y <= 268435456,
            min_x as int == (aabb.min.x as int) / 4096,
            min_z as int == (aabb.min.z as int) / 4096,
            min_y as int == (aabb.min.y as int) / 4096,
            max_x as int == -((-(aabb.max.x as int)) / 4096),
            max_z as int == -((-(aabb.max.z as int)) / 4096),
            max_y as int == -((-(aabb.max.y as int)) / 4096),
            forall|c: BlockPos|
                min_y <= c.y < y ==> !(cm.block_id_at(c) != 0 && #[trigger] overlaps(*aabb, cell_box(c))),
        decreases max_y - y,
    {
        let mut z = min_z;
        while z < max_z
            invariant
                cm.wf(),
                aabb.wf(),
                min_y <= y < max_y,
                -268435456 <= min_x && max_x <= 268435456,
                -268435456 <= min_z && max_z <= 268435456,
                -268435456 <= min_y && max_y <= 268435456,
                -268435456 <= z <= 268435456,
                min_x as int == (aabb.min.x as int) / 4096,
                min_z as int == (aabb.min.z as int) / 4096,
                min_y as int == (aabb.min.y as int) / 4096,
                max_x as int == -((-(aabb.max.x as int)) / 4096),
                max_z as int == -((-(aabb.max.z as int)) / 4096),
                max_y as int == -((-(aabb.max.y as int)) / 4096),
                min_z <= z || z >= max_z,
                forall|c: BlockPos|
                    (min_y <= c.y < y || (c.y == y && min_z <= c.z < z)) ==> !(cm.block_id_at(c) != 0
                        && #[trigger] overlaps(*aabb, cell_box(c))),
            decreases max_z - z,
        {
            let mut x = min_x;
            while x < max_x
                invariant
                    cm.wf(),
                    aabb.wf(),
                    min_y <= y < max_y,
                    min_z <= z < max_z,
                    -268435456 <= min_x && max_x <= 268435456,
                    -268435456 <= min_z && max_z <= 268435456,
                    -268435456 <= min_y && max_y <= 268435456,
                    -268435456 <= x <= 268435456,
                    min_x as int == (aabb.min.x as int) / 4096,
                    min_z as int == (aabb.min.z as int) / 4096,
                    min_y as int == (aabb.min.y as int) / 4096,
                    max_x as int == -((-(aabb.max.x as int)) / 4096),
                    max_z as int == -((-(aabb.max.z as int)) / 4096),
                    max_y as int == -((-(aabb.max.y as int)) / 4096),
                    min_x <= x || x >= max_x,
                    forall|c: BlockPos|
                        (min_y <= c.y < y || (c.y == y && min_z <= c.z < z) || (c.y == y && c.z == z
                            && min_x <= c.x < x)) ==> !(cm.block_id_at(c) != 0
                            && #[trigger] overlaps(*aabb, cell_box(c))),
                decreases max_x - x,
            {
                let cell = BlockPos { x: x as i32, y: y as i32, z: z as i32 };
                if cm.contains_block(cell) {
                    let block = block_box(cell);
                    if aabb.intersects(&block) {
                        return true;
                    }
                }
                x += 1;
            }
            z += 1;
        }
        y += 1;
    }
    proof {
        assert forall|c: BlockPos| !(cm.block_id_at(c) != 0 && #[trigger] overlaps(*aabb, cell_box(c))) by {
            if cm.block_id_at(c) != 0 && overlaps(*aabb, cell_box(c)) {
                lemma_overlap_in_bounds(*aabb, c);
            }
        }
    }
    false
}

/// Smallest step tried when backing off from a collision (about 0.001 block).
pub const MIN_STEP: i64 = 4;

/// `m` halved `k` times (rounding down).
pub open spec fn halved(m: int, k: nat) -> int
    decreases k,
{
    if k == 0 {
        m
    } else {
        halved(m, (k - 1) as nat) / 2
    }
}

/// The `k`-th movement tried for `delta`: `|delta|` halved `k` times, with
/// the sign of `delta`.
pub open spec fn tried_step(delta: int, k: nat) -> int {
    if delta >= 0 {
        halved(delta, k)
    } else {
        -halved(-delta, k)
    }
}

/// Whether the `k`-th movement is tried: it and every one before it exceed `MIN_STEP`.
pub open spec fn is_tried(delta: int, k: nat) -> bool {
    forall|i: nat| i <= k ==> #[trigger] halved(magnitude(delta), i) > MIN_STEP
}

/// Absolute value.
pub open spec fn magnitude(v: int) -> int {
    if v >= 0 {
        v
    } else {
        -v
    }
}

/// Whether the box moved by the `k`-th movement hits a block.
pub open spec fn step_blocked(cm: ChunkManager, b: Aabb, delta: int, axis: Axis, k: nat) -> bool {
    hits_world(cm, moved(b, tried_step(delta, k), axis))
}

/// Whether `r` is the movement `move_axis` takes for a box `b` asked to move
/// by `delta` along `axis`.
pub open spec fn axis_move(cm: ChunkManager, b: Aabb, delta: int, axis: Axis, r: int) -> bool {
    &&& delta >= 0 ==> 0 <= r <= delta
    &&& delta < 0 ==> delta <= r <= 0
    &&& !hits_world(cm, moved(b, delta, axis)) ==> r == delta
    &&& r != 0 ==> !hits_world(cm, moved(b, r, axis))
    &&& hits_world(cm, moved(b, delta, axis)) ==> {
        ||| (r == 0 && forall|k: nat| is_tried(delta, k) ==> #[trigger] step_blocked(cm, b, delta, axis, k))
        ||| exists|k: nat|
            is_tried(delta, k) && r == tried_step(delta, k) && !step_blocked(cm, b, delta, axis, k)
                && forall|j: nat| j < k ==> #[trigger] step_blocked(cm, b, delta, axis, j)
    }
}

/// Moves a box by up to `delta` along `axis` without entering a block.
///
/// The whole movement is taken when the moved box hits nothing. Otherwise the
/// movements `|delta|`, `|delta| / 2`, `|delta| / 4`, ... (each rounded down,
/// with the sign of `delta`) are tried while they exceed `MIN_STEP`, and the
/// first whose box hits nothing is taken; when none does, the box stays.
/// Returns the movement taken.
pub fn move_axis(cm: &ChunkManager, aabb: &Aabb, delta: i64, axis: Axis) -> (r: i64)
    requires
        cm.wf(),
        aabb.wf(),
        coord_ok(delta as int),
        moved(*aabb, delta as int, axis).wf(),
    ensures
        axis_move(*cm, *aabb, delta as int, axis, r as int),
{
    let full = aabb.translated(delta, axis);
    if !collides(cm, &full) {
        return delta;
    }
    let mut step: i64 = if delta > 0 {
        delta
    } else {
        -delta
    };
    let ghost m: int = magnitude(delta as int);
    let ghost mut k: nat = 0;
    while step > MIN_STEP
        invariant
            cm.wf(),
            aabb.wf(),
            coord_ok(delta as int),
            moved(*aabb, delta as int, axis).wf(),
            hits_world(*cm, moved(*aabb, delta as int, axis)),
            0 <= step,
            delta > 0 ==> step <= delta,
            delta < 0 ==> step <= -delta,
            m == magnitude(delta as int),
            step as int <= m,
            step as int == halved(m, k),
            forall|i: nat| i < k ==> #[trigger] halved(m, i) > MIN_STEP,
            forall|j: nat| j < k ==> #[trigger] step_blocked(*cm, *aabb, delta as int, axis, j),
        decreases step,
    {
        let d = if delta > 0 {
            step
        } else {
            -step
        };
        let candidate = aabb.translated(d, axis);
        proof {
            assert(candidate.wf());
            assert(d as int == tried_step(delta as int, k));
            assert(is_tried(delta as int, k)) by {
                assert forall|i: nat| i <= k implies #[trigger] halved(m, i) > MIN_STEP by {
                    if i < k {
                        assert(halved(m, i) > MIN_STEP);
                    }
                }
            }
        }
        if !collides(cm, &candidate) {
            return d;
        }
        proof {
            assert(step_blocked(*cm, *aabb, delta as int, axis, k));
            assert(halved(m, k + 1) == halved(m, k) / 2);
        }
        step = step / 2;
        proof {
            k = k + 1;
        }
    }
    proof {
        assert forall|j: nat| is_tried(delta as int, j) implies #[trigger] step_blocked(*cm, *aabb, delta as int, axis, j) by {
            if j >= k {
                assert(halved(m, k) > MIN_STEP);
            }
        }
    }
    0
}

/// A box inside the cell of a non-air block, with positive extent on every
/// axis, collides with the world.
pub proof fn lemma_enclosed_box_collides(cm: ChunkManager, b: Aabb, c: BlockPos)
    requires
        cm.block_id_at(c) != 0,
        cell_box(c).min.x <= b.min.x < b.max.x <= cell_box(c).max.x,
        cell_box(c).min.y <= b.min.y < b.max.y <= cell_box(c).max.y,
        cell_box(c).min.z <= b.min.z < b.max.z <= cell_box(c).max.z,
    ensures
        hits_world(cm, b),
{
    assert(overlaps(b, cell_box(c)));
}

/// A box that overlaps neither of two cells does not collide in a world whose
/// only non-air blocks stand in those cells.
pub proof fn lemma_box_between_cells_free(cm: ChunkManager, b: Aabb, c1: BlockPos, c2: BlockPos)
    requires
        forall|q: BlockPos| cm.block_id_at(q) != 0 ==> q == c1 || q == c2,
        !overlaps(b, cell_box(c1)),
        !overlaps(b, cell_box(c2)),
    ensures
        !hits_world(cm, b),
{
    assert forall|q: BlockPos| !(cm.block_id_at(q) != 0 && #[trigger] overlaps(b, cell_box(q))) by {
        if cm.block_id_at(q) != 0 {
            assert(q == c1 || q == c2);
        }
    }
}

/// Whether the non-air block in cell `c` overlaps box `b`.
pub open spec fn collides_with_cell(cm: ChunkManager, b: Aabb, c: BlockPos) -> bool {
    cm.block_id_at(c) != 0 && overlaps(b, cell_box(c))
}

/// On which side of the cell `base` a cell `c` lies: X decides first, then Y,
/// then Z; `None` for `base` itself.
pub open spec fn side_of(c: BlockPos, base: BlockPos) -> Option<Face> {
    if c.x < base.x {
        Some(Face::Left)
    } else if c.x > base.x {
        Some(Face::Right)
    } else if c.y < base.y {
        Some(Face::Bottom)
    } else if c.y > base.y {
        Some(Face::Top)
    } else if c.z < base.z {
        Some(Face::Back)
    } else if c.z > base.z {
        Some(Face::Front)
    } else {
        None
    }
}

/// Blocks a box touches, by the side of the collider's cell they lie on.
#[derive(Debug, Clone, Copy, PartialEq, Eq, Structural)]
pub struct Colliders {
    pub top: Option<BlockPos>,
    pub bottom: Option<BlockPos>,
    pub left: Option<BlockPos>,
    pub right: Option<BlockPos>,
    pub front: Option<BlockPos>,
    pub back: Option<BlockPos>,
}

impl Colliders {
    /// The entry for one side.
    pub open spec fn side(&self, f: Face) -> Option<BlockPos> {
        match f {
            Face::Top => self.top,
            Face::Bottom => self.bottom,
            Face::Left => self.left,
            Face::Right => self.right,
            Face::Front => self.front,
            Face::Back => self.back,
        }
    }
}

/// Side of `base` that cell `c` lies on.
fn side_between(c: BlockPos, base: BlockPos) -> (r: Option<Face>)
    ensures
        r == side_of(c, base),
{
    if c.x < base.x {
        Some(Face::Left)
    } else if c.x > base.x {
        Some(Face::Right)
    } else if c.y < base.y {
        Some(Face::Bottom)
    } else if c.y > base.y {
        Some(Face::Top)
    } else if c.z < base.z {
        Some(Face::Back)
    } else if c.z > base.z {
        Some(Face::Front)
    } else {
        None
    }
}

/// Finds, for each side of the cell holding `collider`, a block that `aabb`
/// overlaps on that side; cells are visited bottom to top, front to back,
/// left to right, and a later block replaces an earlier one.
pub fn get_colliders(cm: &ChunkManager, collider: Point, aabb: &Aabb) -> (r: Colliders)
    requires
        cm.wf(),
        aabb.wf(),
        coord_ok(collider.x as int) && coord_ok(collider.y as int) && coord_ok(collider.z as int),
    ensures
        forall|f: Face| {
            let base = BlockPos {
                x: (collider.x as int / 4096) as i32,
                y: (collider.y as int / 4096) as i32,
                z: (collider.z as int / 4096) as i32,
            };
            &&& (#[trigger] r.side(f)).is_some() ==> collides_with_cell(*cm, *aabb, r.side(f).unwrap())
                && side_of(r.side(f).unwrap(), base) == Some(f)
            &&& r.side(f).is_none() ==> forall|c: BlockPos|
                #[trigger] collides_with_cell(*cm, *aabb, c) ==> side_of(c, base) != Some(f)
        },
{
    let base = BlockPos {
        x: floor_block(collider.x) as i32,
        y: floor_block(collider.y) as i32,
        z: floor_block(collider.z) as i32,
    };
    let mut found: Vec<Option<BlockPos>> = vec![None, None, None, None, None, None];
    let min_x = floor_block(aabb.min.x);
    let min_y = floor_block(aabb.min.y);
    let min_z = floor_block(aabb.min.z);
    let max_x = ceil_block(aabb.max.x);
    let max_y = ceil_block(aabb.max.y);
    let max_z = ceil_block(aabb.max.z);
    let mut y = min_y;
    while y < max_y
        invariant
            cm.wf(),
            aabb.wf(),
            found@.len() == 6,
            min_y <= y || y >= max_y,
            -268435456 <= min_x && max_x <= 268435456,
            -268435456 <= min_z && max_z <= 268435456,
            -268435456 <= min_y && max_y <= 268435456,
            -268435456 <= y <= 268435456,
            min_x as int == (aabb.min.x as int) / 4096,
            min_z as int == (aabb.min.z as int) / 4096,
            min_y as int == (aabb.min.y as int) / 4096,
            max_x as int == -((-(aabb.max.x as int)) / 4096),
            max_z as int == -((-(aabb.max.z as int)) / 4096),
            max_y as int == -((-(aabb.max.y as int)) / 4096),
            forall|d: int|
                0 <= d < 6 ==> ((#[trigger] found@[d]).is_some() ==> collides_with_cell(*cm, *aabb, found@[d].unwrap())
                    && side_of(found@[d].unwrap(), base) == Some(Face::from_index_spec(d))),
            forall|d: int, c: BlockPos|
                0 <= d < 6 && found@[d].is_none() && min_y <= c.y < y && #[trigger] collides_with_cell(*cm, *aabb, c)
                    ==> side_of(c, base) != Some(#[trigger] Face::from_index_spec(d)),
        decreases max_y - y,
    {
        let mut z = min_z;
        while z < max_z
            invariant
                cm.wf(),
                aabb.wf(),
                found@.len() == 6,
                min_y <= y < max_y,
                -268435456 <= min_x && max_x <= 268435456,
                -268435456 <= min_z && max_z <= 268435456,
                -268435456 <= min_y && max_y <= 268435456,
                -268435456 <= z <= 268435456,
                min_x as int == (aabb.min.x as int) / 4096,
                min_z as int == (aabb.min.z as int) / 4096,
                min_y as int == (aabb.min.y as int) / 4096,
                max_x as int == -((-(aabb.max.x as int)) / 4096),
                max_z as int == -((-(aabb.max.z as int)) / 4096),
                max_y as int == -((-(aabb.max.y as int)) / 4096),
                min_z <= z || z >= max_z,
                forall|d: int|
                    0 <= d < 6 ==> ((#[trigger] found@[d]).is_some() ==> collides_with_cell(*cm, *aabb, found@[d].unwrap())
                        && side_of(found@[d].unwrap(), base) == Some(Face::from_index_spec(d))),
                forall|d: int, c: BlockPos|
                    0 <= d < 6 && found@[d].is_none() && (min_y <= c.y < y || (c.y == y && min_z <= c.z < z))
                        && #[trigger] collides_with_cell(*cm, *aabb, c) ==> side_of(c, base) != Some(#[trigger] Face::from_index_spec(d)),
            decreases max_z - z,
        {
            let mut x = min_x;
            while x < max_x
                invariant
                    cm.wf(),
                    aabb.wf(),
                    found@.len() == 6,
                    min_y <= y < max_y,
                    min_z <= z < max_z,
                    -268435456 <= min_x && max_x <= 268435456,
                    -268435456 <= min_z && max_z <= 268435456,
                    -268435456 <= min_y && max_y <= 268435456,
                    -268435456 <= x <= 268435456,
                    min_x as int == (aabb.min.x as int) / 4096,
                    min_z as int == (aabb.min.z as int) / 4096,
                    min_y as int == (aabb.min.y as int) / 4096,
                    max_x as int == -((-(aabb.max.x as int)) / 4096),
                    max_z as int == -((-(aabb.max.z as int)) / 4096),
                    max_y as int == -((-(aabb.max.y as int)) / 4096),
                    min_x <= x || x >= max_x,
                    forall|d: int|
                        0 <= d < 6 ==> ((#[trigger] found@[d]).is_some() ==> collides_with_cell(*cm, *aabb, found@[d].unwrap())
                            && side_of(found@[d].unwrap(), base) == Some(Face::from_index_spec(d))),
                    forall|d: int, c: BlockPos|
                        0 <= d < 6 && found@[d].is_none() && (min_y <= c.y < y || (c.y == y && min_z <= c.z < z) || (c.y
                            == y && c.z == z && min_x <= c.x < x)) && #[trigger] collides_with_cell(*cm, *aabb, c)
                            ==> side_of(c, base) != Some(#[trigger] Face::from_index_spec(d)),
                decreases max_x - x,
            {
                let cell = BlockPos { x: x as i32, y: y as i32, z: z as i32 };
                if cm.contains_block(cell) && aabb.intersects(&block_box(cell)) {
                    match side_between(cell, base) {
                        Some(f) => {
                            let ghost before = found@;
                            found.set(f.normal_index(), Some(cell));
                            proof {
                                assert forall|d: int, c: BlockPos|
                                    0 <= d < 6 && found@[d].is_none() && (min_y <= c.y < y || (c.y == y && min_z <= c.z < z) || (c.y
                                        == y && c.z == z && min_x <= c.x < x + 1)) && #[trigger] collides_with_cell(*cm, *aabb, c)
                                        implies side_of(c, base) != Some(#[trigger] Face::from_index_spec(d)) by {
                                    assert(d != f.index_of());
                                    assert(before[d].is_none());
                                    if c == cell {
                                        assert(Face::from_index_spec(f.index_of()) == f);
                                    }
                                }
                            }
                        },
                        None => {},
                    }
                }
                x += 1;
            }
            z += 1;
        }
        y += 1;
    }
    let r = Colliders {
        top: found[Face::Top.normal_index()],
        bottom: found[Face::Bottom.normal_index()],
        left: found[Face::Left.normal_index()],
        right: found[Face::Right.normal_index()],
        front: found[Face::Front.normal_index()],
        back: found[Face::Back.normal_index()],
    };
    proof {
        assert forall|f: Face| {
            &&& (#[trigger] r.side(f)).is_some() ==> collides_with_cell(*cm, *aabb, r.side(f).unwrap())
                && side_of(r.side(f).unwrap(), base) == Some(f)
            &&& r.side(f).is_none() ==> forall|c: BlockPos|
                #[trigger] collides_with_cell(*cm, *aabb, c) ==> side_of(c, base) != Some(f)
        } by {
            let d = f.index_of();
            assert(r.side(f) == found@[d]);
            assert(Face::from_index_spec(d) == f);
            if r.side(f).is_none() {
                assert forall|c: BlockPos| #[trigger] collides_with_cell(*cm, *aabb, c) implies side_of(c, base) != Some(f) by {
                    lemma_overlap_in_bounds(*aabb, c);
                }
            }
        }
    }
    r
}

/// Moves a box by `delta`, one axis at a time in X, Y, Z order, each with
/// `move_axis`; returns the movement taken on each axis.
pub fn move_and_collide(cm: &ChunkManager, aabb: &Aabb, delta: Point) -> (r: Point)
    requires
        cm.wf(),
        aabb.wf(),
        coord_ok(delta.x as int) && coord_ok(delta.y as int) && coord_ok(delta.z as int),
        moved(*aabb, delta.x as int, Axis::X).wf(),
        moved(moved(*aabb, delta.x as int, Axis::X), delta.y as int, Axis::Y).wf(),
        moved(moved(moved(*aabb, delta.x as int, Axis::X), delta.y as int, Axis::Y), delta.z as int, Axis::Z).wf(),
    ensures
        ({
            let bx = moved(*aabb, r.x as int, Axis::X);
            let by = moved(bx, r.y as int, Axis::Y);
            &&& axis_move(*cm, *aabb, delta.x as int, Axis::X, r.x as int)
            &&& axis_move(*cm, bx, delta.y as int, Axis::Y, r.y as int)
            &&& axis_move(*cm, by, delta.z as int, Axis::Z, r.z as int)
        }),
{
    let dx = move_axis(cm, aabb, delta.x, Axis::X);
    let bx = aabb.translated(dx, Axis::X);
    proof {
        assert(bx.wf());
        assert(moved(bx, delta.y as int, Axis::Y).wf());
    }
    let dy = move_axis(cm, &bx, delta.y, Axis::Y);
    let by = bx.translated(dy, Axis::Y);
    proof {
        assert(by.wf());
        assert(moved(by, delta.z as int, Axis::Z).wf());
    }
    let dz = move_axis(cm, &by, delta.z, Axis::Z);
    Point { x: dx, y: dy, z: dz }
}

} // verus!
