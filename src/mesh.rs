use vstd::prelude::*;

use crate::chunk::{BlockPos, Chunk, ChunkPos, LocalPos, FULL_LIGHT, local_in_range};
use crate::chunk_manager::ChunkManager;
use crate::color::Color;
use crate::face::{unit_vertex, unit_vertex_at, Face, FACE_COUNT};
use crate::model::{
    model_opaque, BlockModel, Element, ElementFace, ElementRotation, ModelRegistry, Uv,
};

verus! {

/// Ambient-occlusion level of a quad corner: 0 is darkest, 3 is unoccluded.
///
/// Two solid side cells give the darkest level whatever the corner cell;
/// otherwise each solid sample darkens the corner by one level.
pub open spec fn ao_level(side1: bool, side2: bool, corner: bool) -> int {
    if side1 && side2 {
        0
    } else {
        3 - ((if side1 { 1int } else { 0int }) + (if side2 { 1int } else { 0int }) + (if corner {
            1int
        } else {
            0int
        }))
    }
}

/// Brightness factor of an ambient-occlusion level, in percent.
pub open spec fn ao_factor_of(level: int) -> int {
    if level == 0 {
        40
    } else if level == 1 {
        55
    } else if level == 2 {
        75
    } else {
        100
    }
}

/// Ambient-occlusion level of a corner from the solidity of its two side cells
/// and its diagonal corner cell.
pub fn vertex_ao(side1: bool, side2: bool, corner: bool) -> (r: u8)
    ensures
        r as int == ao_level(side1, side2, corner),
        r <= 3,
{
    if side1 && side2 {
        0
    } else {
        let count: u8 = (if side1 { 1u8 } else { 0u8 }) + (if side2 { 1u8 } else { 0u8 }) + (if corner {
            1u8
        } else {
            0u8
        });
        3 - count
    }
}

/// Brightness factor of an ambient-occlusion level, in percent (40, 55, 75, 100).
pub fn ao_factor(level: u8) -> (r: u8)
    ensures
        r as int == ao_factor_of(level as int),
{
    match level {
        0 => 40,
        1 => 55,
        2 => 75,
        _ => 100,
    }
}

/// The corner table is a function of the three samples alone, and these are its values.
pub proof fn lemma_vertex_ao_table()
    ensures
        ao_level(false, false, false) == 3,
        ao_level(false, false, true) == 2,
        ao_level(false, true, false) == 2,
        ao_level(true, false, false) == 2,
        ao_level(false, true, true) == 1,
        ao_level(true, false, true) == 1,
        ao_level(true, true, false) == 0,
        ao_level(true, true, true) == 0,
        forall|a: bool, b: bool, c: bool| 0 <= #[trigger] ao_level(a, b, c) <= 3,
{
}

/// Integer coordinates a step away from a block, `None` if outside `i32`.
pub open spec fn shifted(p: BlockPos, d: (int, int, int)) -> Option<BlockPos> {
    let x = p.x + d.0;
    let y = p.y + d.1;
    let z = p.z + d.2;
    if i32::MIN <= x <= i32::MAX && i32::MIN <= y <= i32::MAX && i32::MIN <= z <= i32::MAX {
        Some(BlockPos { x: x as i32, y: y as i32, z: z as i32 })
    } else {
        None
    }
}

/// Block ID a step away from a block; air outside the `i32` range.
pub open spec fn block_near(cm: ChunkManager, p: BlockPos, d: (int, int, int)) -> u8 {
    match shifted(p, d) {
        Some(q) => cm.block_id_at(q),
        None => 0,
    }
}

/// Whether the cell a step away from a block darkens corners.
pub open spec fn solid_near(cm: ChunkManager, reg: ModelRegistry, p: BlockPos, d: (int, int, int)) -> bool {
    reg.occluding_id(block_near(cm, p, d))
}

/// The three cells sampled for the ambient occlusion of a face corner at unit
/// vertex `v`: two cells beside the face's neighbour along the face's plane,
/// toward the corner, and the diagonal cell between them.
pub open spec fn ao_offsets(f: Face, v: (int, int, int)) -> ((int, int, int), (int, int, int), (int, int, int)) {
    let n = f.offset();
    let dx = 2 * v.0 - 1;
    let dy = 2 * v.1 - 1;
    let dz = 2 * v.2 - 1;
    if n.1 != 0 {
        ((n.0 + dx, n.1, n.2), (n.0, n.1, n.2 + dz), (n.0 + dx, n.1, n.2 + dz))
    } else if n.0 != 0 {
        ((n.0, n.1 + dy, n.2), (n.0, n.1, n.2 + dz), (n.0, n.1 + dy, n.2 + dz))
    } else {
        ((n.0 + dx, n.1, n.2), (n.0, n.1 + dy, n.2), (n.0 + dx, n.1 + dy, n.2))
    }
}

/// Ambient-occlusion factor (percent) of quad corner `k` of face `f` of the block at `p`.
#[verifier::opaque]
pub open spec fn corner_ao(cm: ChunkManager, reg: ModelRegistry, p: BlockPos, f: Face, k: int) -> int {
    let o = ao_offsets(f, unit_vertex(f.quad_corner(k) as int));
    ao_factor_of(ao_level(solid_near(cm, reg, p, o.0), solid_near(cm, reg, p, o.1), solid_near(cm, reg, p, o.2)))
}

/// Whether the quad is rotated by one corner before triangulation: when the
/// corners 1 and 2 are brighter together than corners 0 and 3.
pub open spec fn quad_flipped(cm: ChunkManager, reg: ModelRegistry, p: BlockPos, f: Face) -> bool {
    corner_ao(cm, reg, p, f, 1) + corner_ao(cm, reg, p, f, 2) > corner_ao(cm, reg, p, f, 0)
        + corner_ao(cm, reg, p, f, 3)
}

/// Which corner of the unrotated quad ends up at position `k` of the (possibly rotated) quad.
pub open spec fn source_corner(k: int, flipped: bool) -> int {
    if flipped {
        (k + 1) % 4
    } else {
        k
    }
}

/// Model-space position (sixteenths) of quad corner `k` of face `f` of an element.
pub open spec fn corner_position(el: Element, f: Face, k: int) -> (int, int, int) {
    let v = unit_vertex(f.quad_corner(k) as int);
    (
        if v.0 == 1 { el.cube.x + el.cube.width } else { el.cube.x as int },
        if v.1 == 1 { el.cube.y + el.cube.height } else { el.cube.y as int },
        if v.2 == 1 { el.cube.z + el.cube.depth } else { el.cube.z as int },
    )
}

/// Whether two faces use the same texture coordinates.
pub open spec fn same_uv(a: ElementFace, b: ElementFace) -> bool {
    a.uv[0] == b.uv[0] && a.uv[1] == b.uv[1] && a.uv[2] == b.uv[2] && a.uv[3] == b.uv[3]
}

/// Whether model `m`, standing next to a face across direction `dir`, hides
/// it: the model is opaque, or one of its elements has a face pointing back
/// that is opaque or has the same texture coordinates.
pub open spec fn occludes(m: BlockModel, dir: Face, ef: ElementFace) -> bool {
    model_opaque(m) || exists|i: int|
        0 <= i < m.elements@.len() && #[trigger] m.elements@[i].faces@[dir.opposite_of().index_of()].is_some()
            && ({
            let g = m.elements@[i].faces@[dir.opposite_of().index_of()].unwrap();
            g.is_opaque || same_uv(g, ef)
        })
}

/// Whether the block across `dir` from `p` hides face `ef`.
pub open spec fn hidden_across(cm: ChunkManager, reg: ModelRegistry, p: BlockPos, dir: Face, ef: ElementFace) -> bool {
    let id = block_near(cm, p, dir.offset());
    id != 0 && reg.model_of(id).is_some() && occludes(reg.model_of(id).unwrap(), dir, ef)
}

/// Whether face `ef` of the block at `p` is culled: the neighbour in the
/// face's direction hides it, or the neighbour in its cull direction does.
pub open spec fn culled(cm: ChunkManager, reg: ModelRegistry, p: BlockPos, ef: ElementFace) -> bool {
    hidden_across(cm, reg, p, ef.face, ef) || (ef.cull_face.is_some() && hidden_across(
        cm,
        reg,
        p,
        ef.cull_face.unwrap(),
        ef,
    ))
}

/// Packed light of the cell a face looks into; full light outside the loaded world.
#[verifier::opaque]
pub open spec fn face_light(cm: ChunkManager, p: BlockPos, f: Face) -> u8 {
    match shifted(p, f.offset()) {
        Some(q) => cm.light_value_at(q),
        None => FULL_LIGHT,
    }
}

/// Colour of a face: the model's tint where the face asks for it, white otherwise.
pub open spec fn face_color(m: BlockModel, ef: ElementFace) -> Color {
    if ef.tint && m.tint.is_some() {
        m.tint.unwrap()
    } else {
        Color { red: 255, green: 255, blue: 255, alpha: 255 }
    }
}

/// A corner of a quad in model space (sixteenths of a block).
#[derive(Debug, Clone, Copy, PartialEq, Eq, Structural)]
pub struct ModelPoint {
    pub x: i32,
    pub y: i32,
    pub z: i32,
}

/// One emitted quad: four corners with position, texture coordinates and
/// ambient occlusion, plus the data shared by the whole quad.
#[derive(Debug, Clone, Copy)]
pub struct Voxel {
    /// World position of the block the quad belongs to.
    pub position: BlockPos,
    /// Chunk the quad was built for.
    pub origin: ChunkPos,
    pub face: Face,
    /// Corners relative to the block, in sixteenths, in triangulation order
    /// (triangles `0,1,2` and `2,3,0`).
    pub vertices: [ModelPoint; 4],
    pub uvs: [Uv; 4],
    /// Ambient-occlusion factor of each corner, in percent.
    pub aos: [u8; 4],
    /// Packed light of the cell the face looks into.
    pub light: u8,
    pub color: Color,
    pub rotation: Option<ElementRotation>,
    pub is_opaque: bool,
    /// Position of the element within its model.
    pub element: usize,
}

/// Whether `v` is the quad of face `ef` of element `el` of model `m`, for the
/// block at `p` of the chunk at `origin`.
pub open spec fn voxel_of(
    v: Voxel,
    cm: ChunkManager,
    reg: ModelRegistry,
    origin: ChunkPos,
    p: BlockPos,
    m: BlockModel,
    el: Element,
    ef: ElementFace,
) -> bool {
    let flip = quad_flipped(cm, reg, p, ef.face);
    &&& v.position == p
    &&& v.origin == origin
    &&& v.face == ef.face
    &&& v.light == face_light(cm, p, ef.face)
    &&& v.color == face_color(m, ef)
    &&& v.rotation == el.rotation
    &&& v.is_opaque == ef.is_opaque
    &&& forall|k: int|
        0 <= k < 4 ==> {
            let s = source_corner(k, flip);
            &&& (#[trigger] v.vertices[k]).x == corner_position(el, ef.face, s).0
            &&& v.vertices[k].y == corner_position(el, ef.face, s).1
            &&& v.vertices[k].z == corner_position(el, ef.face, s).2
            &&& v.uvs[k] == ef.uv[s]
            &&& v.aos[k] == corner_ao(cm, reg, p, ef.face, s)
        }
}

/// Coordinates a step away from a block, `None` if outside `i32`.
pub fn shift(p: BlockPos, dx: i32, dy: i32, dz: i32) -> (r: Option<BlockPos>)
    requires
        -2 <= dx <= 2,
        -2 <= dy <= 2,
        -2 <= dz <= 2,
    ensures
        r == shifted(p, (dx as int, dy as int, dz as int)),
{
    let x = p.x as i64 + dx as i64;
    let y = p.y as i64 + dy as i64;
    let z = p.z as i64 + dz as i64;
    if x < i32::MIN as i64 || x > i32::MAX as i64 || y < i32::MIN as i64 || y > i32::MAX as i64
        || z < i32::MIN as i64 || z > i32::MAX as i64 {
        None
    } else {
        Some(BlockPos { x: x as i32, y: y as i32, z: z as i32 })
    }
}

/// Block ID a step away from a block; air outside the loaded world.
fn block_id_near(cm: &ChunkManager, p: BlockPos, dx: i32, dy: i32, dz: i32) -> (r: u8)
    requires
        cm.wf(),
        -2 <= dx <= 2,
        -2 <= dy <= 2,
        -2 <= dz <= 2,
    ensures
        r == block_near(*cm, p, (dx as int, dy as int, dz as int)),
{
    match shift(p, dx, dy, dz) {
        Some(q) => match cm.get_block(q) {
            Some(id) => id,
            None => 0,
        },
        None => 0,
    }
}

/// Whether the cell a step away from a block darkens corners.
fn solid_for_ao(cm: &ChunkManager, reg: &ModelRegistry, p: BlockPos, d: (i32, i32, i32)) -> (r: bool)
    requires
        cm.wf(),
        reg.wf(),
        -2 <= d.0 <= 2,
        -2 <= d.1 <= 2,
        -2 <= d.2 <= 2,
    ensures
        r == solid_near(*cm, *reg, p, (d.0 as int, d.1 as int, d.2 as int)),
{
    let id = block_id_near(cm, p, d.0, d.1, d.2);
    if id == 0 {
        false
    } else {
        reg.is_occluding_block(Some(id))
    }
}

/// The three ambient-occlusion sample offsets of a face corner at unit vertex `v`.
pub fn corner_samples(f: Face, v: (u8, u8, u8)) -> (r: ((i32, i32, i32), (i32, i32, i32), (i32, i32, i32)))
    requires
        v.0 <= 1,
        v.1 <= 1,
        v.2 <= 1,
    ensures
        ({
            let o = ao_offsets(f, (v.0 as int, v.1 as int, v.2 as int));
            &&& (r.0.0 as int, r.0.1 as int, r.0.2 as int) == o.0
            &&& (r.1.0 as int, r.1.1 as int, r.1.2 as int) == o.1
            &&& (r.2.0 as int, r.2.1 as int, r.2.2 as int) == o.2
        }),
        -2 <= r.0.0 <= 2 && -2 <= r.0.1 <= 2 && -2 <= r.0.2 <= 2,
        -2 <= r.1.0 <= 2 && -2 <= r.1.1 <= 2 && -2 <= r.1.2 <= 2,
        -2 <= r.2.0 <= 2 && -2 <= r.2.1 <= 2 && -2 <= r.2.2 <= 2,
{
    let n = f.as_normal();
    let dx = 2 * v.0 as i32 - 1;
    let dy = 2 * v.1 as i32 - 1;
    let dz = 2 * v.2 as i32 - 1;
    if n.1 != 0 {
        ((n.0 + dx, n.1, n.2), (n.0, n.1, n.2 + dz), (n.0 + dx, n.1, n.2 + dz))
    } else if n.0 != 0 {
        ((n.0, n.1 + dy, n.2), (n.0, n.1, n.2 + dz), (n.0, n.1 + dy, n.2 + dz))
    } else {
        ((n.0 + dx, n.1, n.2), (n.0, n.1 + dy, n.2), (n.0 + dx, n.1 + dy, n.2))
    }
}

/// Ambient-occlusion factor (percent) of quad corner `k` of face `f` of the block at `p`.
pub fn compute_corner_ao(cm: &ChunkManager, reg: &ModelRegistry, p: BlockPos, f: Face, k: usize) -> (r: u8)
    requires
        cm.wf(),
        reg.wf(),
        k < 4,
    ensures
        r as int == corner_ao(*cm, *reg, p, f, k as int),
{
    let corners = f.as_vertices();
    let v = unit_vertex_at(corners[k]);
    let o = corner_samples(f, v);
    let side1 = solid_for_ao(cm, reg, p, o.0);
    let side2 = solid_for_ao(cm, reg, p, o.1);
    let corner = solid_for_ao(cm, reg, p, o.2);
    proof {
        reveal(corner_ao);
    }
    ao_factor(vertex_ao(side1, side2, corner))
}

/// Whether two faces use the same texture coordinates.
pub fn uv_matches(a: &ElementFace, b: &ElementFace) -> (r: bool)
    ensures
        r == same_uv(*a, *b),
{
    a.uv[0] == b.uv[0] && a.uv[1] == b.uv[1] && a.uv[2] == b.uv[2] && a.uv[3] == b.uv[3]
}

/// Whether model `m`, standing next to face `ef` across `dir`, hides it.
pub fn model_occludes(m: &BlockModel, dir: Face, ef: &ElementFace) -> (r: bool)
    requires
        m.wf(),
    ensures
        r == occludes(*m, dir, *ef),
{
    if m.is_opaque() {
        return true;
    }
    let back = dir.opposite();
    let mut i: usize = 0;
    while i < m.elements.len()
        invariant
            m.wf(),
            back == dir.opposite_of(),
            i <= m.elements@.len(),
            forall|j: int|
                0 <= j < i ==> !(#[trigger] m.elements@[j].faces@[back.index_of()].is_some() && ({
                    let g = m.elements@[j].faces@[back.index_of()].unwrap();
                    g.is_opaque || same_uv(g, *ef)
                })),
        decreases m.elements@.len() - i,
    {
        proof {
            assert(m.elements@[i as int].wf());
        }
        match m.elements[i].get_face(back) {
            Some(g) => {
                if g.is_opaque || uv_matches(&g, ef) {
                    return true;
                }
            },
            None => {},
        }
        i += 1;
    }
    false
}

/// Whether the block across `dir` from `p` hides face `ef`.
fn hidden_by_neighbour(cm: &ChunkManager, reg: &ModelRegistry, p: BlockPos, dir: Face, ef: &ElementFace) -> (r: bool)
    requires
        cm.wf(),
        reg.wf(),
    ensures
        r == hidden_across(*cm, *reg, p, dir, *ef),
{
    let n = dir.as_normal();
    let id = block_id_near(cm, p, n.0, n.1, n.2);
    if id == 0 {
        return false;
    }
    match reg.get(id) {
        Some(m) => model_occludes(m, dir, ef),
        None => false,
    }
}

/// Whether face `ef` of the block at `p` is culled.
pub fn is_culled(cm: &ChunkManager, reg: &ModelRegistry, p: BlockPos, ef: &ElementFace) -> (r: bool)
    requires
        cm.wf(),
        reg.wf(),
    ensures
        r == culled(*cm, *reg, p, *ef),
{
    if hidden_by_neighbour(cm, reg, p, ef.face, ef) {
        return true;
    }
    match ef.cull_face {
        Some(c) => hidden_by_neighbour(cm, reg, p, c, ef),
        None => false,
    }
}

/// Packed light of the cell a face looks into; full light outside the loaded world.
pub fn light_facing(cm: &ChunkManager, p: BlockPos, f: Face) -> (r: u8)
    requires
        cm.wf(),
    ensures
        r == face_light(*cm, p, f),
{
    reveal(face_light);
    let n = f.as_normal();
    match shift(p, n.0, n.1, n.2) {
        Some(q) => cm.get_light(q),
        None => FULL_LIGHT,
    }
}

/// Model-space position of quad corner `k` of face `f` of an element.
pub fn corner_point(el: &Element, f: Face, k: usize) -> (r: ModelPoint)
    requires
        el.wf(),
        k < 4,
    ensures
        r.x == corner_position(*el, f, k as int).0,
        r.y == corner_position(*el, f, k as int).1,
        r.z == corner_position(*el, f, k as int).2,
{
    let corners = f.as_vertices();
    let v = unit_vertex_at(corners[k]);
    let c = el.cube;
    ModelPoint {
        x: if v.0 == 1 { c.x + c.width } else { c.x },
        y: if v.1 == 1 { c.y + c.height } else { c.y },
        z: if v.2 == 1 { c.z + c.depth } else { c.z },
    }
}

/// Builds the quad of face `ef` of element `el` of model `m` for the block at `p`.
pub fn build_voxel(
    cm: &ChunkManager,
    reg: &ModelRegistry,
    origin: ChunkPos,
    p: BlockPos,
    m: &BlockModel,
    el: &Element,
    element: usize,
    ef: &ElementFace,
) -> (r: Voxel)
    requires
        cm.wf(),
        reg.wf(),
        el.wf(),
    ensures
        voxel_of(r, *cm, *reg, origin, p, *m, *el, *ef),
        r.element == element,
{
    let f = ef.face;
    let p0 = corner_point(el, f, 0);
    let p1 = corner_point(el, f, 1);
    let p2 = corner_point(el, f, 2);
    let p3 = corner_point(el, f, 3);
    let a0 = compute_corner_ao(cm, reg, p, f, 0);
    let a1 = compute_corner_ao(cm, reg, p, f, 1);
    let a2 = compute_corner_ao(cm, reg, p, f, 2);
    let a3 = compute_corner_ao(cm, reg, p, f, 3);
    let flip = a1 as u16 + a2 as u16 > a0 as u16 + a3 as u16;
    let uv = ef.uv;
    let (vertices, uvs, aos) = if flip {
        ([p1, p2, p3, p0], [uv[1], uv[2], uv[3], uv[0]], [a1, a2, a3, a0])
    } else {
        ([p0, p1, p2, p3], [uv[0], uv[1], uv[2], uv[3]], [a0, a1, a2, a3])
    };
    let color = if ef.tint && m.tint.is_some() {
        m.tint.unwrap()
    } else {
        Color::white()
    };
    let light = light_facing(cm, p, f);
    let r = Voxel {
        position: p,
        origin,
        face: f,
        vertices,
        uvs,
        aos,
        light,
        color,
        rotation: el.rotation,
        is_opaque: ef.is_opaque,
        element,
    };
    proof {
        assert(flip == quad_flipped(*cm, *reg, p, f));
        assert(source_corner(0, flip) == if flip { 1int } else { 0int });
        assert(source_corner(1, flip) == if flip { 2int } else { 1int });
        assert(source_corner(2, flip) == if flip { 3int } else { 2int });
        assert(source_corner(3, flip) == if flip { 0int } else { 3int });
    }
    r
}

/// Quads of one face direction of a chunk, split by opacity.
pub struct FaceMesh {
    pub face: Face,
    pub opaque: Vec<Voxel>,
    pub translucent: Vec<Voxel>,
}

/// Whether `v` is the quad of face slot `d` of element `e` of the block at
/// local position `p` of `chunk`, and that face is not culled.
pub open spec fn visible_quad(
    cm: ChunkManager,
    reg: ModelRegistry,
    chunk: Chunk,
    p: LocalPos,
    e: int,
    d: int,
    v: Voxel,
) -> bool {
    let id = chunk.block_at(p);
    let m = reg.model_of(id).unwrap();
    let el = m.elements@[e];
    let ef = el.faces@[d].unwrap();
    &&& local_in_range(p)
    &&& id != 0
    &&& reg.model_of(id).is_some()
    &&& 0 <= e < m.elements@.len()
    &&& 0 <= d < FACE_COUNT
    &&& el.faces@[d].is_some()
    &&& !culled(cm, reg, chunk.world_of(p), ef)
    &&& voxel_of(v, cm, reg, chunk.origin, chunk.world_of(p), m, el, ef)
    &&& v.element == e
}

/// Rank of a local position in meshing order: bottom to top, front to back,
/// left to right.
pub open spec fn cell_rank(p: LocalPos) -> int {
    (p.y as int * 16 + p.z as int) * 16 + p.x as int
}

/// Ordering key of a quad: the rank of its block's cell, then its element.
pub open spec fn quad_key(v: Voxel) -> (int, int) {
    (cell_rank(Chunk::local_of(v.position)), v.element as int)
}

/// Strict lexicographic order on quad keys.
pub open spec fn key_lt(a: (int, int), b: (int, int)) -> bool {
    a.0 < b.0 || (a.0 == b.0 && a.1 < b.1)
}

/// Whether the keys of a bucket strictly increase, so no block element has
/// two quads in it.
pub open spec fn bucket_sorted(s: Seq<Voxel>) -> bool {
    forall|i: int, j: int| 0 <= i < j < s.len() ==> key_lt(quad_key(#[trigger] s[i]), quad_key(#[trigger] s[j]))
}

/// Whether every key in a bucket comes before `k`.
pub open spec fn bucket_below(s: Seq<Voxel>, k: (int, int)) -> bool {
    forall|i: int| 0 <= i < s.len() ==> key_lt(quad_key(#[trigger] s[i]), k)
}

/// Whether every bucket of a mesh is strictly increasing.
pub open spec fn mesh_ordered(mesh: Seq<FaceMesh>) -> bool {
    forall|d: int|
        0 <= d < mesh.len() ==> bucket_sorted((#[trigger] mesh[d]).opaque@) && bucket_sorted(mesh[d].translucent@)
}

/// Whether every key of a mesh comes before `k`.
pub open spec fn mesh_below(mesh: Seq<FaceMesh>, k: (int, int)) -> bool {
    forall|d: int|
        0 <= d < mesh.len() ==> bucket_below((#[trigger] mesh[d]).opaque@, k) && bucket_below(mesh[d].translucent@, k)
}

/// In a strictly increasing bucket no two quads belong to the same element of
/// the same block.
pub proof fn lemma_sorted_bucket_distinct(s: Seq<Voxel>, i: int, j: int)
    requires
        bucket_sorted(s),
        0 <= i < s.len(),
        0 <= j < s.len(),
        i != j,
    ensures
        !(s[i].position == s[j].position && s[i].element == s[j].element),
{
    if i < j {
        assert(key_lt(quad_key(s[i]), quad_key(s[j])));
    } else {
        assert(key_lt(quad_key(s[j]), quad_key(s[i])));
    }
}

/// Whether `v` is a quad that meshing `chunk` emits for face slot `d`.
pub open spec fn emitted(cm: ChunkManager, reg: ModelRegistry, chunk: Chunk, d: int, v: Voxel) -> bool {
    exists|p: LocalPos, e: int| #[trigger] visible_quad(cm, reg, chunk, p, e, d, v)
}

/// Whether every quad of `mesh` is a visible face of `chunk`, filed under its
/// direction and opacity.
pub open spec fn mesh_sound(cm: ChunkManager, reg: ModelRegistry, chunk: Chunk, mesh: Seq<FaceMesh>) -> bool {
    &&& mesh.len() == FACE_COUNT
    &&& forall|d: int| 0 <= d < FACE_COUNT ==> (#[trigger] mesh[d]).face.index_of() == d
    &&& forall|d: int, j: int|
        0 <= d < FACE_COUNT && 0 <= j < mesh[d].opaque@.len() ==> emitted(cm, reg, chunk, d, #[trigger] mesh[d].opaque@[j])
            && mesh[d].opaque@[j].is_opaque
    &&& forall|d: int, j: int|
        0 <= d < FACE_COUNT && 0 <= j < mesh[d].translucent@.len() ==> emitted(cm, reg, chunk, d, #[trigger] mesh[d].translucent@[j])
            && !mesh[d].translucent@[j].is_opaque
}

/// Six empty face meshes, one per direction in `normal_index` order.
pub fn empty_mesh() -> (r: Vec<FaceMesh>)
    ensures
        r@.len() == FACE_COUNT,
        forall|d: int| 0 <= d < FACE_COUNT ==> (#[trigger] r@[d]).face.index_of() == d,
        forall|d: int| 0 <= d < FACE_COUNT ==> (#[trigger] r@[d]).opaque@.len() == 0 && r@[d].translucent@.len() == 0,
{
    let mut r: Vec<FaceMesh> = Vec::new();
    let mut d: usize = 0;
    while d < FACE_COUNT
        invariant
            d <= FACE_COUNT,
            r@.len() == d,
            forall|i: int| 0 <= i < d ==> (#[trigger] r@[i]).face.index_of() == i,
            forall|i: int| 0 <= i < d ==> (#[trigger] r@[i]).opaque@.len() == 0 && r@[i].translucent@.len() == 0,
        decreases FACE_COUNT - d,
    {
        r.push(FaceMesh { face: Face::from_normal_index(d), opaque: Vec::new(), translucent: Vec::new() });
        d += 1;
    }
    r
}

/// Whether face slot `d` of element `e` of the block at local position `p`
/// of `chunk` exists and is not culled.
pub open spec fn face_visible(cm: ChunkManager, reg: ModelRegistry, chunk: Chunk, p: LocalPos, e: int, d: int) -> bool {
    let id = chunk.block_at(p);
    let m = reg.model_of(id).unwrap();
    let el = m.elements@[e];
    &&& local_in_range(p)
    &&& id != 0
    &&& reg.model_of(id).is_some()
    &&& 0 <= e < m.elements@.len()
    &&& 0 <= d < FACE_COUNT
    &&& el.faces@[d].is_some()
    &&& !culled(cm, reg, chunk.world_of(p), el.faces@[d].unwrap())
}

/// Whether `mesh` holds the quad of face slot `d` of element `e` of the block at `p`.
pub open spec fn mesh_has(cm: ChunkManager, reg: ModelRegistry, chunk: Chunk, mesh: Seq<FaceMesh>, p: LocalPos, e: int, d: int) -> bool {
    (exists|j: int|
        0 <= j < mesh[d].opaque@.len() && #[trigger] visible_quad(cm, reg, chunk, p, e, d, mesh[d].opaque@[j]))
        || (exists|j: int|
        0 <= j < mesh[d].translucent@.len() && #[trigger] visible_quad(cm, reg, chunk, p, e, d, mesh[d].translucent@[j]))
}

/// Whether `new` holds every quad of `old` at the same place, possibly followed by more.
pub open spec fn mesh_grows(old: Seq<FaceMesh>, new: Seq<FaceMesh>) -> bool {
    &&& new.len() == old.len()
    &&& forall|d: int|
        0 <= d < old.len() ==> (#[trigger] new[d]).opaque@.len() >= old[d].opaque@.len()
            && new[d].translucent@.len() >= old[d].translucent@.len()
            && (forall|j: int| 0 <= j < old[d].opaque@.len() ==> new[d].opaque@[j] == #[trigger] old[d].opaque@[j])
            && (forall|j: int| 0 <= j < old[d].translucent@.len() ==> new[d].translucent@[j] == #[trigger] old[d].translucent@[j])
}

/// Quads already in a mesh stay there as it grows.
pub proof fn lemma_mesh_grows_keeps(
    cm: ChunkManager,
    reg: ModelRegistry,
    chunk: Chunk,
    old: Seq<FaceMesh>,
    new: Seq<FaceMesh>,
)
    requires
        old.len() == FACE_COUNT,
        mesh_grows(old, new),
    ensures
        forall|p: LocalPos, e: int, d: int|
            0 <= d < FACE_COUNT && #[trigger] mesh_has(cm, reg, chunk, old, p, e, d) ==> mesh_has(cm, reg, chunk, new, p, e, d),
{
    assert forall|p: LocalPos, e: int, d: int|
        0 <= d < FACE_COUNT && #[trigger] mesh_has(cm, reg, chunk, old, p, e, d) implies mesh_has(cm, reg, chunk, new, p, e, d) by {
        assert(new[d].opaque@.len() >= old[d].opaque@.len());
        if exists|j: int|
            0 <= j < old[d].opaque@.len() && #[trigger] visible_quad(cm, reg, chunk, p, e, d, old[d].opaque@[j]) {
            let j = choose|j: int|
                0 <= j < old[d].opaque@.len() && #[trigger] visible_quad(cm, reg, chunk, p, e, d, old[d].opaque@[j]);
            assert(new[d].opaque@[j] == old[d].opaque@[j]);
            assert(visible_quad(cm, reg, chunk, p, e, d, new[d].opaque@[j]));
        } else {
            let j = choose|j: int|
                0 <= j < old[d].translucent@.len() && #[trigger] visible_quad(cm, reg, chunk, p, e, d, old[d].translucent@[j]);
            assert(new[d].translucent@[j] == old[d].translucent@[j]);
            assert(visible_quad(cm, reg, chunk, p, e, d, new[d].translucent@[j]));
        }
    }
}

/// Growth of a mesh composes.
pub proof fn lemma_mesh_grows_trans(a: Seq<FaceMesh>, b: Seq<FaceMesh>, c: Seq<FaceMesh>)
    requires
        mesh_grows(a, b),
        mesh_grows(b, c),
    ensures
        mesh_grows(a, c),
{
    assert forall|d: int| 0 <= d < a.len() implies (#[trigger] c[d]).opaque@.len() >= a[d].opaque@.len()
        && c[d].translucent@.len() >= a[d].translucent@.len()
        && (forall|j: int| 0 <= j < a[d].opaque@.len() ==> c[d].opaque@[j] == #[trigger] a[d].opaque@[j])
        && (forall|j: int| 0 <= j < a[d].translucent@.len() ==> c[d].translucent@[j] == #[trigger] a[d].translucent@[j]) by {
        assert(b[d].opaque@.len() >= a[d].opaque@.len());
        assert(c[d].opaque@.len() >= b[d].opaque@.len());
        assert forall|j: int| 0 <= j < a[d].opaque@.len() implies c[d].opaque@[j] == #[trigger] a[d].opaque@[j] by {
            assert(b[d].opaque@[j] == a[d].opaque@[j]);
            assert(c[d].opaque@[j] == b[d].opaque@[j]);
        }
        assert forall|j: int| 0 <= j < a[d].translucent@.len() implies c[d].translucent@[j] == #[trigger] a[d].translucent@[j] by {
            assert(b[d].translucent@[j] == a[d].translucent@[j]);
            assert(c[d].translucent@[j] == b[d].translucent@[j]);
        }
    }
}

/// A mesh grows into itself.
pub proof fn lemma_mesh_grows_refl(a: Seq<FaceMesh>)
    ensures
        mesh_grows(a, a),
{
}

/// Adds the visible faces of the block at `local` to `mesh`.
fn mesh_block(
    cm: &ChunkManager,
    reg: &ModelRegistry,
    chunk: &Chunk,
    local: LocalPos,
    mesh: &mut Vec<FaceMesh>,
)
    requires
        cm.wf(),
        reg.wf(),
        chunk.wf(),
        local_in_range(local),
        mesh_sound(*cm, *reg, *chunk, old(mesh)@),
        mesh_ordered(old(mesh)@),
        mesh_below(old(mesh)@, (cell_rank(local), 0)),
    ensures
        mesh_ordered(final(mesh)@),
        mesh_below(final(mesh)@, (cell_rank(local) + 1, 0)),
        mesh_sound(*cm, *reg, *chunk, final(mesh)@),
        mesh_grows(old(mesh)@, final(mesh)@),
        forall|e: int, d: int|
            #[trigger] face_visible(*cm, *reg, *chunk, local, e, d) ==> mesh_has(*cm, *reg, *chunk, final(mesh)@, local, e, d),
{
    proof {
        lemma_mesh_grows_refl(mesh@);
    }
    let ghost start = mesh@;
    let ghost rank = cell_rank(local);
    proof {
        assert forall|d: int| 0 <= d < mesh@.len() implies bucket_below((#[trigger] mesh@[d]).opaque@, (rank + 1, 0))
            && bucket_below(mesh@[d].translucent@, (rank + 1, 0)) by {
            assert(bucket_below(mesh@[d].opaque@, (rank, 0)));
            assert(bucket_below(mesh@[d].translucent@, (rank, 0)));
        }
    }
    let id = match chunk.get_block(local) {
        Some(id) => id,
        None => return,
    };
    let model = match reg.get(id) {
        Some(m) => m,
        None => return,
    };
    let position = chunk.to_world(local);
    let mut e: usize = 0;
    while e < model.elements.len()
        invariant
            cm.wf(),
            reg.wf(),
            chunk.wf(),
            local_in_range(local),
            id == chunk.block_at(local),
            id != 0,
            reg.model_of(id).is_some(),
            *model == reg.model_of(id).unwrap(),
            model.wf(),
            position == chunk.world_of(local),
            mesh_sound(*cm, *reg, *chunk, mesh@),
            mesh_grows(start, mesh@),
            rank == cell_rank(local),
            mesh_ordered(mesh@),
            mesh_below(mesh@, (rank, e as int)),
            forall|e2: int, d: int|
                0 <= e2 < e && #[trigger] face_visible(*cm, *reg, *chunk, local, e2, d) ==> mesh_has(*cm, *reg, *chunk, mesh@, local, e2, d),
        decreases model.elements@.len() - e,
    {
        let element = &model.elements[e];
        proof {
            assert(model.elements@[e as int].wf());
        }
        let mut d: usize = 0;
        while d < FACE_COUNT
            invariant
                cm.wf(),
                reg.wf(),
                chunk.wf(),
                local_in_range(local),
                id == chunk.block_at(local),
                id != 0,
                reg.model_of(id).is_some(),
                *model == reg.model_of(id).unwrap(),
                e < model.elements@.len(),
                *element == model.elements@[e as int],
                element.wf(),
                position == chunk.world_of(local),
                mesh_sound(*cm, *reg, *chunk, mesh@),
                mesh_grows(start, mesh@),
                rank == cell_rank(local),
                mesh_ordered(mesh@),
                mesh@.len() == FACE_COUNT,
                forall|d2: int|
                    0 <= d2 < FACE_COUNT ==> (d2 >= d ==> bucket_below((#[trigger] mesh@[d2]).opaque@, (rank, e as int))
                        && bucket_below(mesh@[d2].translucent@, (rank, e as int)))
                        && bucket_below(mesh@[d2].opaque@, (rank, e + 1))
                        && bucket_below(mesh@[d2].translucent@, (rank, e + 1)),
                forall|e2: int, d2: int|
                    (0 <= e2 < e || (e2 == e && 0 <= d2 < d)) && #[trigger] face_visible(*cm, *reg, *chunk, local, e2, d2) ==> mesh_has(*cm, *reg, *chunk, mesh@, local, e2, d2),
            decreases FACE_COUNT - d,
        {
            let ghost before = mesh@;
            match &element.faces[d] {
                Some(face) => {
                    if !is_culled(cm, reg, position, face) {
                        let voxel = build_voxel(cm, reg, chunk.origin, position, model, element, e, face);
                        proof {
                            assert(visible_quad(*cm, *reg, *chunk, local, e as int, d as int, voxel));
                        }
                        if face.is_opaque {
                            mesh[d].opaque.push(voxel);
                        } else {
                            mesh[d].translucent.push(voxel);
                        }
                        proof {
                            assert forall|i: int| 0 <= i < FACE_COUNT implies (#[trigger] mesh@[i]).face.index_of() == i by {
                                assert(before[i].face.index_of() == i);
                            }
                            assert forall|i: int, j: int|
                                0 <= i < FACE_COUNT && 0 <= j < mesh@[i].opaque@.len() implies emitted(*cm, *reg, *chunk, i, #[trigger] mesh@[i].opaque@[j])
                                    && mesh@[i].opaque@[j].is_opaque by {
                                if i != d || j < before[i].opaque@.len() {
                                    assert(mesh@[i].opaque@[j] == before[i].opaque@[j]);
                                }
                            }
                            assert forall|i: int, j: int|
                                0 <= i < FACE_COUNT && 0 <= j < mesh@[i].translucent@.len() implies emitted(*cm, *reg, *chunk, i, #[trigger] mesh@[i].translucent@[j])
                                    && !mesh@[i].translucent@[j].is_opaque by {
                                if i != d || j < before[i].translucent@.len() {
                                    assert(mesh@[i].translucent@[j] == before[i].translucent@[j]);
                                }
                            }
                            assert(mesh_grows(before, mesh@)) by {
                                assert forall|i: int| 0 <= i < before.len() implies (#[trigger] mesh@[i]).opaque@.len() >= before[i].opaque@.len()
                                    && mesh@[i].translucent@.len() >= before[i].translucent@.len()
                                    && (forall|j: int| 0 <= j < before[i].opaque@.len() ==> mesh@[i].opaque@[j] == #[trigger] before[i].opaque@[j])
                                    && (forall|j: int| 0 <= j < before[i].translucent@.len() ==> mesh@[i].translucent@[j] == #[trigger] before[i].translucent@[j]) by {
                                }
                            }
                            lemma_mesh_grows_trans(start, before, mesh@);
                            crate::chunk::lemma_world_local_round_trip(*chunk, local);
                            assert(quad_key(voxel) == (rank, e as int));
                            let di = d as int;
                            assert forall|i: int| 0 <= i < FACE_COUNT implies bucket_sorted((#[trigger] mesh@[i]).opaque@)
                                && bucket_sorted(mesh@[i].translucent@) by {
                                assert(bucket_sorted(before[i].opaque@));
                                assert(bucket_sorted(before[i].translucent@));
                                if i == di {
                                    assert(bucket_below(before[i].opaque@, (rank, e as int)));
                                    assert(bucket_below(before[i].translucent@, (rank, e as int)));
                                    assert forall|a: int, b: int| 0 <= a < b < mesh@[i].opaque@.len() implies key_lt(quad_key(#[trigger] mesh@[i].opaque@[a]), quad_key(#[trigger] mesh@[i].opaque@[b])) by {
                                        if b == before[i].opaque@.len() {
                                            assert(key_lt(quad_key(before[i].opaque@[a]), (rank, e as int)));
                                        } else {
                                            assert(key_lt(quad_key(before[i].opaque@[a]), quad_key(before[i].opaque@[b])));
                                        }
                                    }
                                    assert forall|a: int, b: int| 0 <= a < b < mesh@[i].translucent@.len() implies key_lt(quad_key(#[trigger] mesh@[i].translucent@[a]), quad_key(#[trigger] mesh@[i].translucent@[b])) by {
                                        if b == before[i].translucent@.len() {
                                            assert(key_lt(quad_key(before[i].translucent@[a]), (rank, e as int)));
                                        } else {
                                            assert(key_lt(quad_key(before[i].translucent@[a]), quad_key(before[i].translucent@[b])));
                                        }
                                    }
                                } else {
                                    assert(mesh@[i] == before[i]);
                                }
                            }
                            assert forall|d2: int|
                                0 <= d2 < FACE_COUNT implies (d2 >= d + 1 ==> bucket_below((#[trigger] mesh@[d2]).opaque@, (rank, e as int))
                                    && bucket_below(mesh@[d2].translucent@, (rank, e as int)))
                                    && bucket_below(mesh@[d2].opaque@, (rank, e + 1))
                                    && bucket_below(mesh@[d2].translucent@, (rank, e + 1)) by {
                                if d2 != di {
                                    assert(mesh@[d2] == before[d2]);
                                } else {
                                    assert(bucket_below(before[d2].opaque@, (rank, e as int)));
                                    assert(bucket_below(before[d2].translucent@, (rank, e as int)));
                                    assert forall|a: int| 0 <= a < mesh@[d2].opaque@.len() implies key_lt(quad_key(#[trigger] mesh@[d2].opaque@[a]), (rank, e + 1)) by {
                                        if a < before[d2].opaque@.len() {
                                            assert(key_lt(quad_key(before[d2].opaque@[a]), (rank, e as int)));
                                        }
                                    }
                                    assert forall|a: int| 0 <= a < mesh@[d2].translucent@.len() implies key_lt(quad_key(#[trigger] mesh@[d2].translucent@[a]), (rank, e + 1)) by {
                                        if a < before[d2].translucent@.len() {
                                            assert(key_lt(quad_key(before[d2].translucent@[a]), (rank, e as int)));
                                        }
                                    }
                                }
                            }
                            lemma_mesh_grows_keeps(*cm, *reg, *chunk, before, mesh@);
                            let n = if face.is_opaque { mesh@[d as int].opaque@.len() - 1 } else { mesh@[d as int].translucent@.len() - 1 };
                            if face.is_opaque {
                                assert(visible_quad(*cm, *reg, *chunk, local, e as int, d as int, mesh@[d as int].opaque@[n]));
                            } else {
                                assert(visible_quad(*cm, *reg, *chunk, local, e as int, d as int, mesh@[d as int].translucent@[n]));
                            }
                            assert(mesh_has(*cm, *reg, *chunk, mesh@, local, e as int, d as int));
                        }
                    } else {
                        proof {
                            assert(!face_visible(*cm, *reg, *chunk, local, e as int, d as int));
                        }
                    }
                },
                None => {
                    proof {
                        assert(!face_visible(*cm, *reg, *chunk, local, e as int, d as int));
                    }
                },
            }
            d += 1;
        }
        e += 1;
    }
}

/// Builds the quads of every visible block face of `chunk`, one `FaceMesh`
/// per direction in `normal_index` order.
///
/// Each bucket lists its quads in meshing order with at most one quad per
/// element of a block, so no face appears twice.
///
/// Blocks are visited bottom to top, then front to back, then left to right;
/// every non-air block with a model contributes each face of each of its
/// elements that is not culled, and nothing else. Neighbours are looked up
/// through the manager, so faces toward a chunk that is not loaded are kept.
pub fn compute_chunk_mesh(cm: &ChunkManager, reg: &ModelRegistry, chunk: &Chunk) -> (r: Vec<FaceMesh>)
    requires
        cm.wf(),
        reg.wf(),
        chunk.wf(),
    ensures
        mesh_sound(*cm, *reg, *chunk, r@),
        mesh_ordered(r@),
        forall|p: LocalPos, e: int, d: int|
            #[trigger] face_visible(*cm, *reg, *chunk, p, e, d) ==> mesh_has(*cm, *reg, *chunk, r@, p, e, d),
{
    let mut mesh = empty_mesh();
    proof {
        assert forall|d: int| 0 <= d < mesh@.len() implies bucket_sorted((#[trigger] mesh@[d]).opaque@)
            && bucket_sorted(mesh@[d].translucent@) by {}
        assert forall|d: int| 0 <= d < mesh@.len() implies bucket_below((#[trigger] mesh@[d]).opaque@, (0, 0))
            && bucket_below(mesh@[d].translucent@, (0, 0)) by {}
    }
    let mut y: u16 = 0;
    while y < 256
        invariant
            cm.wf(),
            reg.wf(),
            chunk.wf(),
            y <= 256,
            mesh_sound(*cm, *reg, *chunk, mesh@),
            mesh_ordered(mesh@),
            mesh_below(mesh@, (y as int * 256, 0)),
            forall|p: LocalPos, e: int, d: int|
                p.y < y && #[trigger] face_visible(*cm, *reg, *chunk, p, e, d) ==> mesh_has(*cm, *reg, *chunk, mesh@, p, e, d),
        decreases 256 - y,
    {
        let mut z: u16 = 0;
        while z < 16
            invariant
                cm.wf(),
                reg.wf(),
                chunk.wf(),
                y < 256,
                z <= 16,
                mesh_sound(*cm, *reg, *chunk, mesh@),
                mesh_ordered(mesh@),
                mesh_below(mesh@, ((y as int * 16 + z as int) * 16, 0)),
                forall|p: LocalPos, e: int, d: int|
                    (p.y < y || (p.y == y && p.z < z)) && #[trigger] face_visible(*cm, *reg, *chunk, p, e, d) ==> mesh_has(*cm, *reg, *chunk, mesh@, p, e, d),
            decreases 16 - z,
        {
            let mut x: u16 = 0;
            while x < 16
                invariant
                    cm.wf(),
                    reg.wf(),
                    chunk.wf(),
                    y < 256,
                    z < 16,
                    x <= 16,
                    mesh_sound(*cm, *reg, *chunk, mesh@),
                    mesh_ordered(mesh@),
                    mesh_below(mesh@, ((y as int * 16 + z as int) * 16 + x as int, 0)),
                    forall|p: LocalPos, e: int, d: int|
                        (p.y < y || (p.y == y && p.z < z) || (p.y == y && p.z == z && p.x < x)) && #[trigger] face_visible(*cm, *reg, *chunk, p, e, d) ==> mesh_has(*cm, *reg, *chunk, mesh@, p, e, d),
                decreases 16 - x,
            {
                let ghost before = mesh@;
                let local = LocalPos { x, y, z };
                mesh_block(cm, reg, chunk, local, &mut mesh);
                proof {
                    lemma_mesh_grows_keeps(*cm, *reg, *chunk, before, mesh@);
                    assert forall|p: LocalPos, e: int, d: int|
                        (p.y < y || (p.y == y && p.z < z) || (p.y == y && p.z == z && p.x < x + 1)) && #[trigger] face_visible(*cm, *reg, *chunk, p, e, d) implies mesh_has(*cm, *reg, *chunk, mesh@, p, e, d) by {
                        if p == local {
                        } else {
                            assert(mesh_has(*cm, *reg, *chunk, before, p, e, d));
                        }
                    }
                }
                x += 1;
            }
            proof {
                assert forall|p: LocalPos, e: int, d: int|
                    (p.y < y || (p.y == y && p.z < z + 1)) && #[trigger] face_visible(*cm, *reg, *chunk, p, e, d) implies mesh_has(*cm, *reg, *chunk, mesh@, p, e, d) by {
                    assert(local_in_range(p));
                }
            }
            z += 1;
        }
        proof {
            assert forall|p: LocalPos, e: int, d: int|
                p.y < y + 1 && #[trigger] face_visible(*cm, *reg, *chunk, p, e, d) implies mesh_has(*cm, *reg, *chunk, mesh@, p, e, d) by {
                assert(local_in_range(p));
            }
        }
        y += 1;
    }
    proof {
        assert forall|p: LocalPos, e: int, d: int|
            #[trigger] face_visible(*cm, *reg, *chunk, p, e, d) implies mesh_has(*cm, *reg, *chunk, mesh@, p, e, d) by {
            assert(local_in_range(p));
        }
    }
    mesh
}

/// The mesh of the chunk loaded at `origin`, if there is one.
pub fn compute_chunk_mesh_at(cm: &ChunkManager, reg: &ModelRegistry, origin: ChunkPos) -> (r: Option<Vec<FaceMesh>>)
    requires
        cm.wf(),
        reg.wf(),
    ensures
        r.is_some() == cm.has(origin),
        r.is_some() ==> mesh_sound(*cm, *reg, cm.chunk_at(origin), r.unwrap()@),
        r.is_some() ==> mesh_ordered(r.unwrap()@),
        r.is_some() ==> forall|p: LocalPos, e: int, d: int|
            #[trigger] face_visible(*cm, *reg, cm.chunk_at(origin), p, e, d) ==> mesh_has(*cm, *reg, cm.chunk_at(origin), r.unwrap()@, p, e, d),
{
    match cm.get_chunk(origin) {
        Some(chunk) => Some(compute_chunk_mesh(cm, reg, chunk)),
        None => None,
    }
}

/// The meshes of every loaded chunk, in the order of `cm.chunks`, each with
/// the chunk's origin.
pub fn compute_world_mesh(cm: &ChunkManager, reg: &ModelRegistry) -> (r: Vec<(ChunkPos, Vec<FaceMesh>)>)
    requires
        cm.wf(),
        reg.wf(),
    ensures
        r@.len() == cm.chunks@.len(),
        forall|i: int| 0 <= i < r@.len() ==> {
            let chunk = cm.chunks@[i];
            &&& (#[trigger] r@[i]).0 == chunk.origin
            &&& mesh_sound(*cm, *reg, chunk, r@[i].1@)
            &&& mesh_ordered(r@[i].1@)
            &&& forall|p: LocalPos, e: int, d: int|
                #[trigger] face_visible(*cm, *reg, chunk, p, e, d) ==> mesh_has(*cm, *reg, chunk, r@[i].1@, p, e, d)
        },
{
    let mut meshes: Vec<(ChunkPos, Vec<FaceMesh>)> = Vec::new();
    let mut i: usize = 0;
    while i < cm.chunks.len()
        invariant
            cm.wf(),
            reg.wf(),
            i <= cm.chunks@.len(),
            meshes@.len() == i,
            forall|j: int| 0 <= j < i ==> {
                let chunk = cm.chunks@[j];
                &&& (#[trigger] meshes@[j]).0 == chunk.origin
                &&& mesh_sound(*cm, *reg, chunk, meshes@[j].1@)
                &&& mesh_ordered(meshes@[j].1@)
                &&& forall|p: LocalPos, e: int, d: int|
                    #[trigger] face_visible(*cm, *reg, chunk, p, e, d) ==> mesh_has(*cm, *reg, chunk, meshes@[j].1@, p, e, d)
            },
        decreases cm.chunks@.len() - i,
    {
        proof {
            assert(cm.chunks@[i as int].wf());
        }
        let mesh = compute_chunk_mesh(cm, reg, &cm.chunks[i]);
        meshes.push((cm.chunks[i].origin, mesh));
        i += 1;
    }
    meshes
}

/// A face pointing at an opaque neighbour is never visible: between two
/// opaque blocks no face is emitted.
pub proof fn lemma_face_toward_opaque_culled(
    cm: ChunkManager,
    reg: ModelRegistry,
    chunk: Chunk,
    p: LocalPos,
    e: int,
    d: int,
)
    requires
        reg.opaque_id(block_near(cm, chunk.world_of(p), Face::from_index_spec(d).offset())),
        0 <= d < FACE_COUNT,
        chunk.block_at(p) != 0 && reg.model_of(chunk.block_at(p)).is_some(),
        0 <= e < reg.model_of(chunk.block_at(p)).unwrap().elements@.len(),
        reg.model_of(chunk.block_at(p)).unwrap().elements@[e].wf(),
    ensures
        !face_visible(cm, reg, chunk, p, e, d),
{
    let m = reg.model_of(chunk.block_at(p)).unwrap();
    let el = m.elements@[e];
    if el.faces@[d].is_some() {
        let ef = el.faces@[d].unwrap();
        assert(ef.face.index_of() == d);
        assert(ef.face == Face::from_index_spec(d));
        assert(hidden_across(cm, reg, chunk.world_of(p), ef.face, ef));
    }
}

/// A face whose neighbours (across the face and across its cull direction)
/// are air or outside the loaded world is visible, so the mesh holds it.
pub proof fn lemma_face_toward_air_visible(
    cm: ChunkManager,
    reg: ModelRegistry,
    chunk: Chunk,
    p: LocalPos,
    e: int,
    d: int,
)
    requires
        local_in_range(p),
        0 <= d < FACE_COUNT,
        chunk.block_at(p) != 0 && reg.model_of(chunk.block_at(p)).is_some(),
        0 <= e < reg.model_of(chunk.block_at(p)).unwrap().elements@.len(),
        reg.model_of(chunk.block_at(p)).unwrap().elements@[e].faces@[d].is_some(),
        ({
            let ef = reg.model_of(chunk.block_at(p)).unwrap().elements@[e].faces@[d].unwrap();
            &&& block_near(cm, chunk.world_of(p), ef.face.offset()) == 0
            &&& ef.cull_face.is_some() ==> block_near(cm, chunk.world_of(p), ef.cull_face.unwrap().offset()) == 0
        }),
    ensures
        face_visible(cm, reg, chunk, p, e, d),
{
}

} // verus!
