use vstd::prelude::*;

use crate::chunk::BlockPos;
use crate::chunk_manager::ChunkManager;
use crate::collision::{coord_ok, floor_block, Point, UNITS_PER_BLOCK};
use crate::face::Face;
use crate::model::{get_model_for, Cuboid, ModelRegistry};

verus! {

/// Most grid cells a ray walks through before giving up.
pub const MAX_STEPS: u32 = 200;

/// Fixed-point units per model sixteenth.
pub const UNITS_PER_SIXTEENTH: i64 = 256;

/// Largest magnitude of a box coordinate a ray is tested against (2^41 units).
pub const MAX_BOX_COORD: i64 = 2199023255552;

/// What a ray stopped at.
#[derive(Debug, Clone, Copy, PartialEq, Eq, Structural)]
pub enum HitType {
    /// The ray passed through an empty cell.
    Empty,
    /// The ray met a block's bounding box.
    Block,
}

/// A box a ray is tested against, in fixed-point units.
#[derive(Debug, Clone, Copy, PartialEq, Eq, Structural)]
pub struct RayBox {
    pub min: Point,
    pub max: Point,
}

/// Outcome of a ray cast.
///
/// The ray meets the reported point at parameter `t_num / t_den` (from the
/// origin at 0 to the target at 1); `hit_vec` is that point floored to
/// fixed-point units.
#[derive(Debug, Clone, Copy, PartialEq, Eq, Structural)]
pub struct RayCastResult {
    pub position: BlockPos,
    pub hit_type: HitType,
    pub hit_side: Face,
    pub hit_vec: Point,
    pub t_num: i128,
    pub t_den: i128,
}

/// Component of a point along axis `a` (0 = X, 1 = Y, 2 = Z).
pub open spec fn coord(p: Point, a: int) -> int {
    if a == 0 {
        p.x as int
    } else if a == 1 {
        p.y as int
    } else {
        p.z as int
    }
}

/// Whether every coordinate of a box lies within `MAX_BOX_COORD`.
pub open spec fn box_ok(b: RayBox) -> bool {
    forall|a: int|
        0 <= a < 3 ==> -MAX_BOX_COORD <= #[trigger] coord(b.min, a) <= MAX_BOX_COORD && -MAX_BOX_COORD
            <= coord(b.max, a) <= MAX_BOX_COORD
}

/// Whether both ends of a segment have coordinates in the supported range.
pub open spec fn segment_ok(s: Point, e: Point) -> bool {
    forall|a: int| 0 <= a < 3 ==> coord_ok(#[trigger] coord(s, a)) && coord_ok(coord(e, a))
}

/// Coordinate of the `k`-th plane of a box: planes `2a` and `2a + 1` are the
/// low and high sides along axis `a`.
pub open spec fn plane_coord(b: RayBox, k: int) -> int {
    if k % 2 == 0 {
        coord(b.min, k / 2)
    } else {
        coord(b.max, k / 2)
    }
}

/// The face of a box on its `k`-th plane.
pub open spec fn plane_face(k: int) -> Face {
    if k == 0 {
        Face::Left
    } else if k == 1 {
        Face::Right
    } else if k == 2 {
        Face::Bottom
    } else if k == 3 {
        Face::Top
    } else if k == 4 {
        Face::Back
    } else {
        Face::Front
    }
}

/// Parameter `(num, den)` at which the segment from `s` to `e` meets the
/// plane at coordinate `c` across axis `a`, with the sign folded into `num`.
pub open spec fn plane_param(s: Point, e: Point, a: int, c: int) -> (int, int) {
    let d = coord(e, a) - coord(s, a);
    if d > 0 {
        (c - coord(s, a), d)
    } else {
        (coord(s, a) - c, -d)
    }
}

/// Parameter at which the segment meets the `k`-th plane of a box.
pub open spec fn plane_t(b: RayBox, s: Point, e: Point, k: int) -> (int, int) {
    plane_param(s, e, k / 2, plane_coord(b, k))
}

/// Whether the point at parameter `t` of the segment lies within the box
/// along axis `o` (edges included).
pub open spec fn within_at(b: RayBox, s: Point, e: Point, t: (int, int), o: int) -> bool {
    coord(b.min, o) * t.1 <= coord(s, o) * t.1 + (coord(e, o) - coord(s, o)) * t.0 <= coord(b.max, o)
        * t.1
}

/// Whether the segment from `s` to `e` meets the `k`-th plane of box `b`
/// within the segment and within the face's rectangle.
pub open spec fn meets_plane(b: RayBox, s: Point, e: Point, k: int) -> bool {
    let a = k / 2;
    let t = plane_t(b, s, e, k);
    &&& 0 <= k < 6
    &&& coord(e, a) != coord(s, a)
    &&& 0 <= t.0 <= t.1
    &&& (a == 0 || within_at(b, s, e, t, 0))
    &&& (a == 1 || within_at(b, s, e, t, 1))
    &&& (a == 2 || within_at(b, s, e, t, 2))
}

/// Whether the fraction `n1 / d1` is at most `n2 / d2` (positive denominators).
pub open spec fn frac_le(n1: int, d1: int, n2: int, d2: int) -> bool {
    n1 * d2 <= n2 * d1
}

/// Whether plane `k` gives the first point at which the segment meets the box.
pub open spec fn first_plane(b: RayBox, s: Point, e: Point, k: int) -> bool {
    &&& meets_plane(b, s, e, k)
    &&& forall|j: int|
        #![trigger meets_plane(b, s, e, j)]
        meets_plane(b, s, e, j) ==> frac_le(plane_t(b, s, e, k).0, plane_t(b, s, e, k).1, plane_t(b, s, e, j).0, plane_t(b, s, e, j).1)
}

/// The point at parameter `num / den` of the segment, floored to units.
pub open spec fn point_at_spec(s: Point, e: Point, num: int, den: int) -> (int, int, int) {
    (
        s.x + ((e.x - s.x) * num) / den,
        s.y + ((e.y - s.y) * num) / den,
        s.z + ((e.z - s.z) * num) / den,
    )
}

/// Whether `r` reports the first point at which the segment meets box `b`.
pub open spec fn reports_box_hit(b: RayBox, s: Point, e: Point, r: RayCastResult) -> bool {
    exists|k: int|
        #![trigger first_plane(b, s, e, k)]
        first_plane(b, s, e, k) && plane_face(k) == r.hit_side && plane_t(b, s, e, k) == (
            r.t_num as int,
            r.t_den as int,
        ) && (r.hit_vec.x as int, r.hit_vec.y as int, r.hit_vec.z as int) == point_at_spec(
            s,
            e,
            r.t_num as int,
            r.t_den as int,
        )
}

/// The bounding box of a model standing in cell `c`, in fixed-point units.
pub open spec fn model_box(c: BlockPos, bb: Cuboid) -> RayBox {
    RayBox {
        min: Point {
            x: (c.x * 4096 + bb.x * 256) as i64,
            y: (c.y * 4096 + bb.y * 256) as i64,
            z: (c.z * 4096 + bb.z * 256) as i64,
        },
        max: Point {
            x: (c.x * 4096 + (bb.x + bb.width) * 256) as i64,
            y: (c.y * 4096 + (bb.y + bb.height) * 256) as i64,
            z: (c.z * 4096 + (bb.z + bb.depth) * 256) as i64,
        },
    }
}

/// The model standing in cell `c`, if any.
pub open spec fn cell_model_box(cm: ChunkManager, reg: ModelRegistry, c: BlockPos) -> Option<RayBox> {
    let id = cm.block_id_at(c);
    if id != 0 && reg.model_of(id).is_some() {
        Some(model_box(c, reg.model_of(id).unwrap().bounding_box))
    } else {
        None
    }
}

/// Component of a point along axis `a`.
fn coord_of(p: Point, a: usize) -> (r: i64)
    requires
        a < 3,
    ensures
        r as int == coord(p, a as int),
{
    if a == 0 {
        p.x
    } else if a == 1 {
        p.y
    } else {
        p.z
    }
}

/// `(d * num) / den`, floored, for `0 <= num <= den`; lies between 0 and `d`.
pub fn scaled(d: i128, num: i128, den: i128) -> (r: i128)
    requires
        -0x40000000000 <= d <= 0x40000000000,
        0 <= num <= den,
        0 < den <= 0x100000000000,
    ensures
        r as int == (d * num) / (den as int),
        d >= 0 ==> 0 <= r <= d,
        d < 0 ==> d <= r <= 0,
{
    proof {
        assert(-0x40000000000 * 0x100000000000 <= d * num <= 0x40000000000 * 0x100000000000) by (nonlinear_arith)
            requires -0x40000000000 <= d <= 0x40000000000, 0 <= num <= 0x100000000000;
    }
    let a = d * num;
    proof {
        if d >= 0 {
            assert(0 <= d * num <= d * den) by (nonlinear_arith)
                requires d >= 0, 0 <= num <= den;
            vstd::arithmetic::div_mod::lemma_div_is_ordered(0, d * num, den as int);
            vstd::arithmetic::div_mod::lemma_div_is_ordered(d * num, d * den, den as int);
            vstd::arithmetic::div_mod::lemma_div_by_multiple(d as int, den as int);
        } else {
            assert(d * den <= d * num <= 0) by (nonlinear_arith)
                requires d < 0, 0 <= num <= den;
            vstd::arithmetic::div_mod::lemma_div_is_ordered(d * num, 0, den as int);
            vstd::arithmetic::div_mod::lemma_div_is_ordered(d * den, d * num, den as int);
            vstd::arithmetic::div_mod::lemma_div_multiples_vanish(d as int, den as int);
            assert(d * den == den * d) by (nonlinear_arith);
        }
    }
    if a >= 0 {
        ((a as u128) / (den as u128)) as i128
    } else {
        let w = (-a - 1) as u128;
        let q = w / (den as u128);
        let m = w % (den as u128);
        proof {
            vstd::arithmetic::div_mod::lemma_fundamental_div_mod(w as int, den as int);
            assert(a as int == (-(q as int) - 1) * (den as int) + ((den as int) - 1 - m as int)) by (nonlinear_arith)
                requires w as int == (den as int) * (q as int) + m as int, a as int == -(w as int) - 1;
            vstd::arithmetic::div_mod::lemma_fundamental_div_mod_converse(
                a as int,
                den as int,
                -(q as int) - 1,
                (den as int) - 1 - m as int,
            );
        }
        -(q as i128) - 1
    }
}

/// The point at parameter `num / den` of the segment from `s` to `e`, floored to units.
pub fn point_at(s: Point, e: Point, num: i128, den: i128) -> (r: Point)
    requires
        segment_ok(s, e),
        0 <= num <= den,
        0 < den <= 0x100000000000,
    ensures
        (r.x as int, r.y as int, r.z as int) == point_at_spec(s, e, num as int, den as int),
{
    proof {
        assert(coord_ok(coord(s, 0)) && coord_ok(coord(e, 0)));
        assert(coord_ok(coord(s, 1)) && coord_ok(coord(e, 1)));
        assert(coord_ok(coord(s, 2)) && coord_ok(coord(e, 2)));
    }
    let dx = scaled(e.x as i128 - s.x as i128, num, den);
    let dy = scaled(e.y as i128 - s.y as i128, num, den);
    let dz = scaled(e.z as i128 - s.z as i128, num, den);
    Point { x: (s.x as i128 + dx) as i64, y: (s.y as i128 + dy) as i64, z: (s.z as i128 + dz) as i64 }
}

/// The parameter at which the segment meets plane `k` of box `b`, and whether
/// it meets the plane there within the face's rectangle.
fn test_plane(b: &RayBox, s: Point, e: Point, k: usize) -> (r: (bool, i128, i128))
    requires
        box_ok(*b),
        segment_ok(s, e),
        k < 6,
    ensures
        r.0 == meets_plane(*b, s, e, k as int),
        (r.1 as int, r.2 as int) == plane_t(*b, s, e, k as int),
        -0x40000000000 <= r.1 <= 0x40000000000,
        0 <= r.2 <= 0x40000000000,
{
    let a = k / 2;
    proof {
        assert(0 <= a < 3);
        let ai = a as int;
        assert(coord_ok(coord(s, ai)));
        assert(coord_ok(coord(e, ai)));
        assert(-MAX_BOX_COORD <= coord(b.min, a as int) <= MAX_BOX_COORD);
    }
    let c = if k % 2 == 0 {
        coord_of(b.min, a)
    } else {
        coord_of(b.max, a)
    };
    let sa = coord_of(s, a) as i128;
    let ea = coord_of(e, a) as i128;
    let d = ea - sa;
    let (num, den) = if d > 0 {
        (c as i128 - sa, d)
    } else {
        (sa - c as i128, -d)
    };
    if d == 0 || num < 0 || num > den {
        return (false, num, den);
    }
    let mut o: usize = 0;
    while o < 3
        invariant
            box_ok(*b),
            segment_ok(s, e),
            k < 6,
            a == k / 2,
            d != 0,
            0 <= num <= den <= 0x40000000000,
            (num as int, den as int) == plane_t(*b, s, e, k as int),
            coord(e, a as int) != coord(s, a as int),
            forall|j: int| 0 <= j < o && j != a ==> within_at(*b, s, e, (num as int, den as int), j),
        decreases 3 - o,
    {
        if o != a {
            proof {
                let oi = o as int;
                assert(0 <= oi < 3);
                assert(coord_ok(coord(s, oi)));
                assert(coord_ok(coord(e, oi)));
                assert(-MAX_BOX_COORD <= coord(b.min, o as int) <= MAX_BOX_COORD);
                assert(-MAX_BOX_COORD <= coord(b.max, o as int) <= MAX_BOX_COORD);
            }
            let so = coord_of(s, o) as i128;
            let eo = coord_of(e, o) as i128;
            let lo = coord_of(b.min, o) as i128;
            let hi = coord_of(b.max, o) as i128;
            proof {
                assert(-0x80000000000 * 0x40000000000 <= so * den <= 0x80000000000 * 0x40000000000) by (nonlinear_arith)
                    requires -0x80000000000 <= so <= 0x80000000000, 0 <= den <= 0x40000000000;
                assert(-0x80000000000 * 0x40000000000 <= (eo - so) * num <= 0x80000000000 * 0x40000000000) by (nonlinear_arith)
                    requires -0x80000000000 <= eo - so <= 0x80000000000, 0 <= num <= 0x40000000000;
                assert(-0x80000000000 * 0x40000000000 <= lo * den <= 0x80000000000 * 0x40000000000) by (nonlinear_arith)
                    requires -0x80000000000 <= lo <= 0x80000000000, 0 <= den <= 0x40000000000;
                assert(-0x80000000000 * 0x40000000000 <= hi * den <= 0x80000000000 * 0x40000000000) by (nonlinear_arith)
                    requires -0x80000000000 <= hi <= 0x80000000000, 0 <= den <= 0x40000000000;
            }
            let at = so * den + (eo - so) * num;
            if at < lo * den || at > hi * den {
                return (false, num, den);
            }
        }
        o += 1;
    }
    (true, num, den)
}

/// The first point at which the segment from `s` to `e` meets box `b`, with
/// the face it enters through; `None` when the segment misses the box.
/// Planes are tried low X, high X, low Y, high Y, low Z, high Z, and the
/// earliest one wins; on equal parameters the first tried wins.
pub fn calculate_intercept(b: &RayBox, s: Point, e: Point, position: BlockPos) -> (r: Option<RayCastResult>)
    requires
        box_ok(*b),
        segment_ok(s, e),
    ensures
        r.is_some() <==> exists|k: int| #[trigger] meets_plane(*b, s, e, k),
        r.is_some() ==> r.unwrap().hit_type == HitType::Block && r.unwrap().position == position
            && reports_box_hit(*b, s, e, r.unwrap()),
{
    let mut best: Option<(usize, i128, i128)> = None;
    let mut k: usize = 0;
    while k < 6
        invariant
            box_ok(*b),
            segment_ok(s, e),
            k <= 6,
            best.is_none() ==> forall|j: int| 0 <= j < k ==> !meets_plane(*b, s, e, j),
            best.is_some() ==> ({
                let (bk, bn, bd) = best.unwrap();
                &&& bk < k
                &&& meets_plane(*b, s, e, bk as int)
                &&& (bn as int, bd as int) == plane_t(*b, s, e, bk as int)
                &&& 0 <= bn <= bd <= 0x40000000000
                &&& forall|j: int|
                    #![trigger meets_plane(*b, s, e, j)]
                    0 <= j < k && meets_plane(*b, s, e, j) ==> frac_le(bn as int, bd as int, plane_t(*b, s, e, j).0, plane_t(*b, s, e, j).1)
            }),
        decreases 6 - k,
    {
        let (hit, num, den) = test_plane(b, s, e, k);
        if hit {
            match best {
                None => {
                    best = Some((k, num, den));
                    proof {
                        assert(num * den <= num * den);
                    }
                },
                Some((bk, bn, bd)) => {
                    proof {
                        assert(0 <= num * bd <= 0x40000000000 * 0x40000000000) by (nonlinear_arith)
                            requires 0 <= num <= 0x40000000000, 0 <= bd <= 0x40000000000;
                        assert(0 <= bn * den <= 0x40000000000 * 0x40000000000) by (nonlinear_arith)
                            requires 0 <= bn <= 0x40000000000, 0 <= den <= 0x40000000000;
                    }
                    if num * bd < bn * den {
                        best = Some((k, num, den));
                        proof {
                            assert forall|j: int|
                                #![trigger meets_plane(*b, s, e, j)]
                                0 <= j < k + 1 && meets_plane(*b, s, e, j) implies frac_le(num as int, den as int, plane_t(*b, s, e, j).0, plane_t(*b, s, e, j).1) by {
                                if j < k {
                                    let t = plane_t(*b, s, e, j);
                                    assert(bn * t.1 <= t.0 * bd);
                                    assert(num * bd < bn * den);
                                    assert(0 < bd);
                                    assert(num * t.1 <= t.0 * den) by (nonlinear_arith)
                                        requires bn * t.1 <= t.0 * bd, num * bd < bn * den, 0 < bd, 0 <= t.1, 0 <= den, 0 <= num, 0 <= bn;
                                }
                            }
                        }
                    }
                },
            }
        }
        k += 1;
    }
    match best {
        None => None,
        Some((bk, bn, bd)) => {
            proof {
                assert(bd > 0);
            }
            let hit_vec = point_at(s, e, bn, bd);
            let side = match bk {
                0 => Face::Left,
                1 => Face::Right,
                2 => Face::Bottom,
                3 => Face::Top,
                4 => Face::Back,
                _ => Face::Front,
            };
            let r = RayCastResult {
                position,
                hit_type: HitType::Block,
                hit_side: side,
                hit_vec,
                t_num: bn,
                t_den: bd,
            };
            proof {
                assert(first_plane(*b, s, e, bk as int));
            }
            Some(r)
        },
    }
}

/// The block cell containing a point.
pub open spec fn cell_of(p: Point) -> BlockPos {
    BlockPos { x: (p.x as int / 4096) as i32, y: (p.y as int / 4096) as i32, z: (p.z as int / 4096) as i32 }
}

/// Whether the segment meets the bounding box of a model in the cell holding its start.
pub open spec fn origin_cell_hit(cm: ChunkManager, reg: ModelRegistry, s: Point, e: Point) -> bool {
    match cell_model_box(cm, reg, cell_of(s)) {
        Some(b) => exists|k: int| #[trigger] meets_plane(b, s, e, k),
        None => false,
    }
}

/// Whether a cell lies within the range ray casting supports (2^28 blocks).
pub open spec fn cell_ok(c: BlockPos) -> bool {
    -268435456 <= c.x <= 268435456 && -268435456 <= c.y <= 268435456 && -268435456 <= c.z
        <= 268435456
}

/// The bounding box of the model standing in cell `c`, if any.
fn model_box_at(cm: &ChunkManager, reg: &ModelRegistry, c: BlockPos) -> (r: Option<RayBox>)
    requires
        cm.wf(),
        reg.wf(),
        cell_ok(c),
    ensures
        r == cell_model_box(*cm, *reg, c),
        r.is_some() ==> box_ok(r.unwrap()),
{
    let model = match get_model_for(cm, reg, c) {
        Some(m) => m,
        None => return None,
    };
    let bb = model.bounding_box;
    let x = c.x as i64 * UNITS_PER_BLOCK;
    let y = c.y as i64 * UNITS_PER_BLOCK;
    let z = c.z as i64 * UNITS_PER_BLOCK;
    let b = RayBox {
        min: Point {
            x: x + bb.x as i64 * UNITS_PER_SIXTEENTH,
            y: y + bb.y as i64 * UNITS_PER_SIXTEENTH,
            z: z + bb.z as i64 * UNITS_PER_SIXTEENTH,
        },
        max: Point {
            x: x + (bb.x as i64 + bb.width as i64) * UNITS_PER_SIXTEENTH,
            y: y + (bb.y as i64 + bb.height as i64) * UNITS_PER_SIXTEENTH,
            z: z + (bb.z as i64 + bb.depth as i64) * UNITS_PER_SIXTEENTH,
        },
    };
    proof {
        assert forall|a: int|
            0 <= a < 3 implies -MAX_BOX_COORD <= #[trigger] coord(b.min, a) <= MAX_BOX_COORD
                && -MAX_BOX_COORD <= coord(b.max, a) <= MAX_BOX_COORD by {}
    }
    Some(b)
}

/// The movement chosen at one step of the grid walk.
struct Crossing {
    axis: usize,
    num: i128,
    den: i128,
}

/// Parameter `(num, den)` at which the walk leaves `cell` toward `end` along
/// one axis, for a ray from coordinate `o` to `t`; `None` once `cell` is `end`.
pub open spec fn crossing_at(cell: int, end: int, o: int, t: int) -> Option<(int, int)> {
    if end > cell {
        Some(((cell + 1) * 4096 - o, t - o))
    } else if end < cell {
        Some((o - cell * 4096, o - t))
    } else {
        None
    }
}

/// Whether the parameter `n / d` comes strictly before `other` (absent counts as never).
pub open spec fn comes_before(n: int, d: int, other: Option<(int, int)>) -> bool {
    match other {
        Some(q) => n * q.1 < q.0 * d,
        None => true,
    }
}

/// The axis the walk crosses next: X when it comes strictly before both
/// others, else Y when it comes strictly before Z, else Z.
pub open spec fn next_axis(nx: Option<(int, int)>, ny: Option<(int, int)>, nz: Option<(int, int)>) -> int {
    if nx.is_some() && comes_before(nx.unwrap().0, nx.unwrap().1, ny) && comes_before(
        nx.unwrap().0,
        nx.unwrap().1,
        nz,
    ) {
        0
    } else if ny.is_some() && comes_before(ny.unwrap().0, ny.unwrap().1, nz) {
        1
    } else if nz.is_some() {
        2
    } else if ny.is_some() {
        1
    } else {
        0
    }
}

/// One step toward `end` along one axis.
pub open spec fn toward(c: int, end: int) -> int {
    if end > c {
        c + 1
    } else {
        c - 1
    }
}

/// The cell the walk enters after `c` on the ray from `o` to `t`.
pub open spec fn next_cell(o: Point, t: Point, c: (int, int, int)) -> (int, int, int) {
    let e = (t.x as int / 4096, t.y as int / 4096, t.z as int / 4096);
    let nx = crossing_at(c.0, e.0, o.x as int, t.x as int);
    let ny = crossing_at(c.1, e.1, o.y as int, t.y as int);
    let nz = crossing_at(c.2, e.2, o.z as int, t.z as int);
    let a = next_axis(nx, ny, nz);
    if a == 0 {
        (toward(c.0, e.0), c.1, c.2)
    } else if a == 1 {
        (c.0, toward(c.1, e.1), c.2)
    } else {
        (c.0, c.1, toward(c.2, e.2))
    }
}

/// The `i`-th cell of the grid walk from the cell holding `o` toward the cell holding `t`.
pub open spec fn walk_cell(o: Point, t: Point, i: nat) -> (int, int, int)
    decreases i,
{
    if i == 0 {
        (o.x as int / 4096, o.y as int / 4096, o.z as int / 4096)
    } else {
        next_cell(o, t, walk_cell(o, t, (i - 1) as nat))
    }
}

/// The `i`-th walked cell as a block position.
pub open spec fn walk_pos(o: Point, t: Point, i: nat) -> BlockPos {
    let c = walk_cell(o, t, i);
    BlockPos { x: c.0 as i32, y: c.1 as i32, z: c.2 as i32 }
}

/// A pair of machine integers as mathematical integers.
pub open spec fn widen(q: Option<(i128, i128)>) -> Option<(int, int)> {
    match q {
        Some(p) => Some((p.0 as int, p.1 as int)),
        None => None,
    }
}

/// Whether the walk reaches cell `i`: at most `MAX_STEPS` steps, and no
/// earlier cell is the one holding the target.
pub open spec fn walked(o: Point, t: Point, i: nat) -> bool {
    &&& i <= MAX_STEPS
    &&& forall|j: nat|
        j < i ==> #[trigger] walk_cell(o, t, j) != (t.x as int / 4096, t.y as int / 4096, t.z as int
            / 4096)
}

/// Whether the segment meets the bounding box of a model standing in walked cell `i`.
pub open spec fn walk_hit(cm: ChunkManager, reg: ModelRegistry, o: Point, t: Point, i: nat) -> bool {
    match cell_model_box(cm, reg, walk_pos(o, t, i)) {
        Some(b) => exists|k: int| #[trigger] meets_plane(b, o, t, k),
        None => false,
    }
}

/// Parameter `(num, den)` at which the ray crosses into the next cell along
/// axis `a`, or `None` when the walk does not move along that axis.
fn next_crossing(cell: i64, end: i64, o: i64, t: i64) -> (r: Option<(i128, i128)>)
    requires
        coord_ok(o as int),
        coord_ok(t as int),
        cell as int >= (o as int / 4096) || cell as int >= (t as int / 4096),
        cell as int <= (o as int / 4096) || cell as int <= (t as int / 4096),
        (o as int / 4096) <= cell <= (t as int / 4096) || (t as int / 4096) <= cell <= (o as int / 4096),
        end as int == t as int / 4096,
    ensures
        r.is_none() <==> cell == end,
        r.is_some() ==> 0 <= r.unwrap().0 <= r.unwrap().1 && 0 < r.unwrap().1 <= 0x40000000000,
        match crossing_at(cell as int, end as int, o as int, t as int) {
            Some(q) => r.is_some() && r.unwrap().0 as int == q.0 && r.unwrap().1 as int == q.1,
            None => r.is_none(),
        },
{
    if end > cell {
        let boundary = (cell + 1) * 4096;
        proof {
            assert(t as int >= end * 4096);
            assert((o as int) < (o as int / 4096 + 1) * 4096);
        }
        Some(((boundary - o) as i128, (t - o) as i128))
    } else if end < cell {
        let boundary = cell * 4096;
        proof {
            assert((t as int) < (end + 1) * 4096);
            assert(o as int >= (o as int / 4096) * 4096);
        }
        Some(((o - boundary) as i128, (o - t) as i128))
    } else {
        None
    }
}

/// Finds the first block along the segment from `origin` to `target`.
///
/// The walk starts in the cell holding `origin` and moves one cell at a
/// time across whichever cell boundary the ray reaches first (X on a strict
/// win over both others, then Y over Z, then Z), for at most `MAX_STEPS`
/// cells or until it reaches the cell holding `target`. In every cell with a
/// model, the ray is tested against the model's bounding box, and the first
/// intercept is returned. When nothing is hit, the last empty cell walked
/// into is returned if `last_uncollidable_block` asks for it, `None` otherwise.
pub fn raycast(
    cm: &ChunkManager,
    reg: &ModelRegistry,
    origin: Point,
    target: Point,
    last_uncollidable_block: bool,
) -> (r: Option<RayCastResult>)
    requires
        cm.wf(),
        reg.wf(),
        segment_ok(origin, target),
    ensures
        r.is_some() && r.unwrap().hit_type == HitType::Block ==> match cell_model_box(
            *cm,
            *reg,
            r.unwrap().position,
        ) {
            Some(b) => reports_box_hit(b, origin, target, r.unwrap()),
            None => false,
        },
        r.is_some() && r.unwrap().hit_type == HitType::Empty ==> last_uncollidable_block
            && cell_model_box(*cm, *reg, r.unwrap().position).is_none(),
        origin_cell_hit(*cm, *reg, origin, target) ==> r.is_some() && r.unwrap().hit_type
            == HitType::Block && r.unwrap().position == cell_of(origin),
        (exists|i: nat| walked(origin, target, i) && #[trigger] walk_hit(*cm, *reg, origin, target, i))
            ==> r.is_some() && r.unwrap().hit_type == HitType::Block && exists|i: nat|
            walked(origin, target, i) && #[trigger] walk_hit(*cm, *reg, origin, target, i)
                && r.unwrap().position == walk_pos(origin, target, i) && forall|j: nat|
                j < i ==> !#[trigger] walk_hit(*cm, *reg, origin, target, j),
        r.is_none() || r.unwrap().hit_type == HitType::Empty ==> forall|i: nat|
            walked(origin, target, i) ==> !#[trigger] walk_hit(*cm, *reg, origin, target, i),
{
    proof {
        assert(coord_ok(coord(origin, 0)) && coord_ok(coord(target, 0)));
        assert(coord_ok(coord(origin, 1)) && coord_ok(coord(target, 1)));
        assert(coord_ok(coord(origin, 2)) && coord_ok(coord(target, 2)));
    }
    let end_x = floor_block(target.x);
    let end_y = floor_block(target.y);
    let end_z = floor_block(target.z);
    let mut cx = floor_block(origin.x);
    let mut cy = floor_block(origin.y);
    let mut cz = floor_block(origin.z);
    let first = BlockPos { x: cx as i32, y: cy as i32, z: cz as i32 };
    assert(first == cell_of(origin));
    proof {
        assert(walk_pos(origin, target, 0) == first);
    }
    if let Some(b) = model_box_at(cm, reg, first) {
        if let Some(hit) = calculate_intercept(&b, origin, target, first) {
            proof {
                assert(walk_hit(*cm, *reg, origin, target, 0));
                assert(walked(origin, target, 0));
            }
            return Some(hit);
        }
    }
    assert(!origin_cell_hit(*cm, *reg, origin, target));
    proof {
        assert(walk_pos(origin, target, 0) == first);
        assert(!walk_hit(*cm, *reg, origin, target, 0));
    }
    let mut result: Option<RayCastResult> = None;
    let mut step: u32 = 0;
    while step < MAX_STEPS
        invariant
            cm.wf(),
            reg.wf(),
            segment_ok(origin, target),
            coord_ok(origin.x as int) && coord_ok(origin.y as int) && coord_ok(origin.z as int),
            coord_ok(target.x as int) && coord_ok(target.y as int) && coord_ok(target.z as int),
            end_x as int == target.x as int / 4096,
            end_y as int == target.y as int / 4096,
            end_z as int == target.z as int / 4096,
            (origin.x as int / 4096) <= cx <= end_x || end_x <= cx <= (origin.x as int / 4096),
            (origin.y as int / 4096) <= cy <= end_y || end_y <= cy <= (origin.y as int / 4096),
            (origin.z as int / 4096) <= cz <= end_z || end_z <= cz <= (origin.z as int / 4096),
            !origin_cell_hit(*cm, *reg, origin, target),
            step <= MAX_STEPS,
            (cx as int, cy as int, cz as int) == walk_cell(origin, target, step as nat),
            forall|j: nat| j < step ==> #[trigger] walk_cell(origin, target, j) != (end_x as int, end_y as int, end_z as int),
            forall|j: nat| j <= step ==> !#[trigger] walk_hit(*cm, *reg, origin, target, j),
            result.is_some() ==> result.unwrap().hit_type == HitType::Empty && cell_model_box(
                *cm,
                *reg,
                result.unwrap().position,
            ).is_none(),
        decreases MAX_STEPS - step,
    {
        let nx = next_crossing(cx, end_x, origin.x, target.x);
        let ny = next_crossing(cy, end_y, origin.y, target.y);
        let nz = next_crossing(cz, end_z, origin.z, target.z);
        let crossing = match (nx, ny, nz) {
            (None, None, None) => {
                return if last_uncollidable_block {
                    result
                } else {
                    None
                };
            },
            _ => pick_crossing(nx, ny, nz),
        };
        let face;
        if crossing.axis == 0 {
            if end_x > cx {
                cx = cx + 1;
                face = Face::Left;
            } else {
                cx = cx - 1;
                face = Face::Right;
            }
        } else if crossing.axis == 1 {
            if end_y > cy {
                cy = cy + 1;
                face = Face::Bottom;
            } else {
                cy = cy - 1;
                face = Face::Top;
            }
        } else {
            if end_z > cz {
                cz = cz + 1;
                face = Face::Back;
            } else {
                cz = cz - 1;
                face = Face::Front;
            }
        }
        let cell = BlockPos { x: cx as i32, y: cy as i32, z: cz as i32 };
        proof {
            assert((cx as int, cy as int, cz as int) == walk_cell(origin, target, (step + 1) as nat));
            assert(walk_pos(origin, target, (step + 1) as nat) == cell);
            assert(walk_cell(origin, target, step as nat) != (end_x as int, end_y as int, end_z as int));
        }
        match model_box_at(cm, reg, cell) {
            Some(b) => {
                if let Some(hit) = calculate_intercept(&b, origin, target, cell) {
                    proof {
                        let i = (step + 1) as nat;
                        assert(walk_hit(*cm, *reg, origin, target, i));
                        assert(walked(origin, target, i));
                    }
                    return Some(hit);
                }
            },
            None => {
                let hit_vec = point_at(origin, target, crossing.num, crossing.den);
                result = Some(
                    RayCastResult {
                        position: cell,
                        hit_type: HitType::Empty,
                        hit_side: face,
                        hit_vec,
                        t_num: crossing.num,
                        t_den: crossing.den,
                    },
                );
            },
        }
        step += 1;
    }
    if last_uncollidable_block {
        result
    } else {
        None
    }
}

/// The crossing the ray reaches first: X when it comes strictly before both
/// others, else Y when it comes strictly before Z, else Z.
fn pick_crossing(nx: Option<(i128, i128)>, ny: Option<(i128, i128)>, nz: Option<(i128, i128)>) -> (r: Crossing)
    requires
        nx.is_some() || ny.is_some() || nz.is_some(),
        nx.is_some() ==> 0 <= nx.unwrap().0 <= nx.unwrap().1 && 0 < nx.unwrap().1 <= 0x40000000000,
        ny.is_some() ==> 0 <= ny.unwrap().0 <= ny.unwrap().1 && 0 < ny.unwrap().1 <= 0x40000000000,
        nz.is_some() ==> 0 <= nz.unwrap().0 <= nz.unwrap().1 && 0 < nz.unwrap().1 <= 0x40000000000,
    ensures
        r.axis == 0 ==> nx.is_some() && (r.num, r.den) == nx.unwrap(),
        r.axis == 1 ==> ny.is_some() && (r.num, r.den) == ny.unwrap(),
        r.axis == 2 ==> nz.is_some() && (r.num, r.den) == nz.unwrap(),
        r.axis < 3,
        r.axis as int == next_axis(widen(nx), widen(ny), widen(nz)),
        0 <= r.num <= r.den && 0 < r.den <= 0x40000000000,
{
    let x_first = match nx {
        Some((n, d)) => before(n, d, ny) && before(n, d, nz),
        None => false,
    };
    if x_first {
        let (n, d) = nx.unwrap();
        return Crossing { axis: 0, num: n, den: d };
    }
    let y_first = match ny {
        Some((n, d)) => before(n, d, nz),
        None => false,
    };
    if y_first {
        let (n, d) = ny.unwrap();
        return Crossing { axis: 1, num: n, den: d };
    }
    match nz {
        Some((n, d)) => Crossing { axis: 2, num: n, den: d },
        None => {
            let (n, d) = if ny.is_some() {
                ny.unwrap()
            } else {
                nx.unwrap()
            };
            Crossing { axis: if ny.is_some() { 1 } else { 0 }, num: n, den: d }
        },
    }
}

/// Whether the parameter `n / d` comes strictly before `other` (absent counts as never).
fn before(n: i128, d: i128, other: Option<(i128, i128)>) -> (r: bool)
    requires
        0 <= n <= d <= 0x40000000000,
        other.is_some() ==> 0 <= other.unwrap().0 <= other.unwrap().1 <= 0x40000000000,
    ensures
        r == match other {
            Some(o) => n * o.1 < o.0 * d,
            None => true,
        },
        r == comes_before(n as int, d as int, widen(other)),
{
    match other {
        Some((on, od)) => {
            proof {
                assert(0 <= n * od <= 0x40000000000 * 0x40000000000) by (nonlinear_arith)
                    requires 0 <= n <= 0x40000000000, 0 <= od <= 0x40000000000;
                assert(0 <= on * d <= 0x40000000000 * 0x40000000000) by (nonlinear_arith)
                    requires 0 <= on <= 0x40000000000, 0 <= d <= 0x40000000000;
            }
            n * od < on * d
        },
        None => true,
    }
}

} // verus!
