use vstd::prelude::*;

use crate::face::Face;

verus! {

/// Side length of a chunk (and of a subchunk) in blocks.
pub const CHUNK_SIZE: usize = 16;

/// Number of subchunks stacked vertically in a chunk.
pub const SUBCHUNK_COUNT: usize = 16;

/// Height of a chunk in blocks.
pub const CHUNK_HEIGHT: usize = 256;

/// Number of cells in a subchunk.
pub const SUBCHUNK_VOLUME: usize = 4096;

/// Packed light value of a position outside every loaded chunk: sky light 15,
/// block light 0.
pub const FULL_LIGHT: u8 = 240;

/// Block ID of dirt.
pub const DIRT: u8 = 1;

/// Block ID of grass.
pub const GRASS: u8 = 2;

/// Largest light level of either channel.
pub const MAX_LIGHT: u8 = 15;

/// Smallest chunk-grid coordinate whose blocks all have `i32` world coordinates.
pub const MIN_CHUNK_COORD: i32 = -134217728;

/// Largest chunk-grid coordinate whose blocks all have `i32` world coordinates.
pub const MAX_CHUNK_COORD: i32 = 134217727;

/// Location of a chunk on the horizontal chunk grid; one unit is 16 blocks.
#[derive(Debug, Clone, Copy, PartialEq, Eq, Structural, Hash)]
pub struct ChunkPos {
    pub x: i32,
    pub z: i32,
}

/// Integer world position of a block (a world point floored to whole blocks).
#[derive(Debug, Clone, Copy, PartialEq, Eq, Structural, Hash)]
pub struct BlockPos {
    pub x: i32,
    pub y: i32,
    pub z: i32,
}

/// Position of a cell inside a chunk.
#[derive(Debug, Clone, Copy, PartialEq, Eq, Structural, Hash)]
pub struct LocalPos {
    pub x: u16,
    pub y: u16,
    pub z: u16,
}

/// Floor division by the chunk size.
pub open spec fn div16(v: int) -> int {
    v / 16
}

/// The chunk-grid location that owns a world position.
pub open spec fn chunk_of(p: BlockPos) -> ChunkPos {
    ChunkPos { x: div16(p.x as int) as i32, z: div16(p.z as int) as i32 }
}

/// Whether a local position lies inside a chunk.
pub open spec fn local_in_range(p: LocalPos) -> bool {
    p.x < 16 && p.y < 256 && p.z < 16
}

/// Whether a chunk-grid location keeps all of its blocks within `i32` coordinates.
pub open spec fn origin_in_range(o: ChunkPos) -> bool {
    MIN_CHUNK_COORD <= o.x <= MAX_CHUNK_COORD && MIN_CHUNK_COORD <= o.z <= MAX_CHUNK_COORD
}

/// Offset of cell `(x, y, z)` inside its subchunk's arrays.
pub open spec fn cell_offset(x: int, y: int, z: int) -> int {
    (y % 16) * 256 + z * 16 + x
}

/// Position of a cell in a column-major solidity field: `(z * 16 + x) * 256 + y`.
pub open spec fn field_index(p: LocalPos) -> int {
    (p.z as int * 16 + p.x as int) * 256 + p.y as int
}

/// What terrain generation puts in a cell: grass on solid cells whose upper
/// neighbour is open (or that touch the ceiling), dirt on other solid cells,
/// nothing on open cells.
pub open spec fn generated_block(solid: Seq<bool>, p: LocalPos) -> Option<u8> {
    if !solid[field_index(p)] {
        None
    } else if p.y == 255 || !solid[field_index(p) + 1] {
        Some(GRASS)
    } else {
        Some(DIRT)
    }
}

/// Sky channel of a packed light value (high nibble).
pub open spec fn sky_of(l: u8) -> int {
    l as int / 16
}

/// Block channel of a packed light value (low nibble).
pub open spec fn torch_of(l: u8) -> int {
    l as int % 16
}

/// The selected channel of a packed light value.
pub open spec fn channel_of(l: u8, sky: bool) -> int {
    if sky {
        sky_of(l)
    } else {
        torch_of(l)
    }
}

/// Whether the neighbour of `p` across face `f` has `i32` coordinates.
pub open spec fn step_in_range(p: BlockPos, f: Face) -> bool {
    i32::MIN <= p.x + f.offset().0 <= i32::MAX && i32::MIN <= p.y + f.offset().1 <= i32::MAX
        && i32::MIN <= p.z + f.offset().2 <= i32::MAX
}

/// The neighbour of `p` across face `f`.
pub open spec fn step(p: BlockPos, f: Face) -> BlockPos {
    BlockPos {
        x: (p.x + f.offset().0) as i32,
        y: (p.y + f.offset().1) as i32,
        z: (p.z + f.offset().2) as i32,
    }
}

/// The neighbour of a world position across a face; `None` where it would
/// leave the `i32` coordinate range.
pub fn neighbour(p: BlockPos, f: Face) -> (r: Option<BlockPos>)
    ensures
        r.is_some() == step_in_range(p, f),
        r.is_some() ==> r.unwrap() == step(p, f),
{
    let n = f.as_normal();
    let x = p.x as i64 + n.0 as i64;
    let y = p.y as i64 + n.1 as i64;
    let z = p.z as i64 + n.2 as i64;
    if x < i32::MIN as i64 || x > i32::MAX as i64 || y < i32::MIN as i64 || y > i32::MAX as i64
        || z < i32::MIN as i64 || z > i32::MAX as i64 {
        None
    } else {
        Some(BlockPos { x: x as i32, y: y as i32, z: z as i32 })
    }
}

/// Levels missing from full light in one channel, summed over packed light values.
pub open spec fn dark_sum(s: Seq<u8>, sky: bool) -> int
    decreases s.len(),
{
    if s.len() == 0 {
        0
    } else {
        dark_sum(s.drop_last(), sky) + (15 - channel_of(s.last(), sky))
    }
}

/// Levels missing from full light in one channel over a sequence of subchunks.
pub open spec fn subchunks_dark(s: Seq<SubChunk>, sky: bool) -> int
    decreases s.len(),
{
    if s.len() == 0 {
        0
    } else {
        subchunks_dark(s.drop_last(), sky) + dark_sum(s.last().light_levels@, sky)
    }
}

/// Missing light is never negative.
pub proof fn lemma_dark_sum_nonneg(s: Seq<u8>, sky: bool)
    ensures
        dark_sum(s, sky) >= 0,
    decreases s.len(),
{
    if s.len() > 0 {
        lemma_dark_sum_nonneg(s.drop_last(), sky);
    }
}

/// Missing light is never negative.
pub proof fn lemma_subchunks_dark_nonneg(s: Seq<SubChunk>, sky: bool)
    ensures
        subchunks_dark(s, sky) >= 0,
    decreases s.len(),
{
    if s.len() > 0 {
        lemma_subchunks_dark_nonneg(s.drop_last(), sky);
        lemma_dark_sum_nonneg(s.last().light_levels@, sky);
    }
}

/// Replacing one packed value changes the missing light by the difference at that value.
pub proof fn lemma_dark_sum_update(s: Seq<u8>, i: int, v: u8, sky: bool)
    requires
        0 <= i < s.len(),
    ensures
        dark_sum(s.update(i, v), sky) == dark_sum(s, sky) - (15 - channel_of(s[i], sky)) + (15
            - channel_of(v, sky)),
    decreases s.len(),
{
    let t = s.update(i, v);
    if i == s.len() - 1 {
        assert(t.drop_last() =~= s.drop_last());
    } else {
        assert(t.drop_last() =~= s.drop_last().update(i, v));
        lemma_dark_sum_update(s.drop_last(), i, v, sky);
    }
}

/// Replacing one subchunk changes the missing light by the difference in that subchunk.
pub proof fn lemma_subchunks_dark_update(s: Seq<SubChunk>, i: int, v: SubChunk, sky: bool)
    requires
        0 <= i < s.len(),
    ensures
        subchunks_dark(s.update(i, v), sky) == subchunks_dark(s, sky) - dark_sum(
            s[i].light_levels@,
            sky,
        ) + dark_sum(v.light_levels@, sky),
    decreases s.len(),
{
    let t = s.update(i, v);
    if i == s.len() - 1 {
        assert(t.drop_last() =~= s.drop_last());
    } else {
        assert(t.drop_last() =~= s.drop_last().update(i, v));
        lemma_subchunks_dark_update(s.drop_last(), i, v, sky);
    }
}

/// Floor of `v / 16`.
pub fn floor_div16(v: i32) -> (r: i32)
    ensures
        r as int == div16(v as int),
        MIN_CHUNK_COORD <= r <= MAX_CHUNK_COORD,
{
    if v >= 0 {
        let q = (v as u32) / 16;
        (q as i32)
    } else {
        let w: u32 = (-(v as i64) - 1) as u32;
        let q = w / 16;
        assert(w == 16 * q + w % 16);
        let r = -(q as i64) - 1;
        assert(v as int == 16 * r + (15 - w % 16));
        r as i32
    }
}

/// Euclidean remainder of `v` by 16.
pub fn rem16(v: i32) -> (r: u16)
    ensures
        r as int == (v as int) % 16,
        r < 16,
{
    let q = floor_div16(v);
    let r = (v as i64) - (q as i64) * 16;
    r as u16
}

/// A cube of 16 x 16 x 16 cells: block IDs and packed light levels.
///
/// Cell `(x, y, z)` is stored at offset `y * 256 + z * 16 + x`.
#[derive(Debug, Clone, PartialEq, Eq)]
pub struct SubChunk {
    pub blocks: Vec<u8>,
    pub light_levels: Vec<u8>,
}

impl SubChunk {
    pub open spec fn wf(&self) -> bool {
        self.blocks@.len() == SUBCHUNK_VOLUME && self.light_levels@.len() == SUBCHUNK_VOLUME
    }

    /// A subchunk of air in full darkness.
    pub fn empty() -> (r: SubChunk)
        ensures
            r.wf(),
            forall|i: int| 0 <= i < SUBCHUNK_VOLUME ==> r.blocks@[i] == 0,
            forall|i: int| 0 <= i < SUBCHUNK_VOLUME ==> r.light_levels@[i] == 0,
    {
        let mut blocks: Vec<u8> = Vec::new();
        let mut light_levels: Vec<u8> = Vec::new();
        let mut i: usize = 0;
        while i < SUBCHUNK_VOLUME
            invariant
                i <= SUBCHUNK_VOLUME,
                blocks@.len() == i,
                light_levels@.len() == i,
                forall|j: int| 0 <= j < i ==> blocks@[j] == 0,
                forall|j: int| 0 <= j < i ==> light_levels@[j] == 0,
            decreases SUBCHUNK_VOLUME - i,
        {
            blocks.push(0);
            light_levels.push(0);
            i += 1;
        }
        SubChunk { blocks, light_levels }
    }
}

/// A column of the world: 16 subchunks stacked along Y on one chunk-grid location.
#[derive(Debug, Clone, PartialEq, Eq)]
pub struct Chunk {
    pub origin: ChunkPos,
    pub subchunks: Vec<SubChunk>,
}

impl Chunk {
    pub open spec fn wf(&self) -> bool {
        &&& origin_in_range(self.origin)
        &&& self.subchunks@.len() == SUBCHUNK_COUNT
        &&& forall|i: int| 0 <= i < SUBCHUNK_COUNT ==> #[trigger] self.subchunks@[i].wf()
    }

    /// Block ID stored at a local position.
    pub open spec fn block_at(&self, p: LocalPos) -> u8 {
        self.subchunks@[p.y as int / 16].blocks@[cell_offset(p.x as int, p.y as int, p.z as int)]
    }

    /// Packed light value stored at a local position.
    pub open spec fn light_at(&self, p: LocalPos) -> u8 {
        self.subchunks@[p.y as int / 16].light_levels@[cell_offset(p.x as int, p.y as int, p.z as int)]
    }

    /// Levels missing from full light in one channel over the whole chunk.
    pub open spec fn darkness(&self, sky: bool) -> int {
        subchunks_dark(self.subchunks@, sky)
    }

    /// World position of a local position of this chunk.
    pub open spec fn world_of(&self, p: LocalPos) -> BlockPos {
        BlockPos {
            x: (self.origin.x * 16 + p.x) as i32,
            y: p.y as i32,
            z: (self.origin.z * 16 + p.z) as i32,
        }
    }

    /// Local position of a world position, with Y clamped into `u16`.
    pub open spec fn local_of(p: BlockPos) -> LocalPos {
        LocalPos {
            x: (p.x as int % 16) as u16,
            y: (if p.y < 0 {
                0
            } else if p.y > u16::MAX {
                u16::MAX as int
            } else {
                p.y as int
            }) as u16,
            z: (p.z as int % 16) as u16,
        }
    }

    /// Whether a world position lies in this chunk's column and vertical extent.
    pub open spec fn holds(&self, p: BlockPos) -> bool {
        chunk_of(p) == self.origin && 0 <= p.y < CHUNK_HEIGHT
    }

    /// An empty chunk (air, no light) at the given chunk-grid location.
    pub fn new(origin: ChunkPos) -> (r: Chunk)
        requires
            origin_in_range(origin),
        ensures
            r.wf(),
            r.origin == origin,
            forall|p: LocalPos| local_in_range(p) ==> r.block_at(p) == 0 && r.light_at(p) == 0,
    {
        let mut subchunks: Vec<SubChunk> = Vec::new();
        let mut i: usize = 0;
        while i < SUBCHUNK_COUNT
            invariant
                i <= SUBCHUNK_COUNT,
                subchunks@.len() == i,
                forall|j: int| 0 <= j < i ==> #[trigger] subchunks@[j].wf(),
                forall|j: int, k: int|
                    0 <= j < i && 0 <= k < SUBCHUNK_VOLUME ==> subchunks@[j].blocks@[k] == 0
                        && subchunks@[j].light_levels@[k] == 0,
            decreases SUBCHUNK_COUNT - i,
        {
            subchunks.push(SubChunk::empty());
            i += 1;
        }
        let r = Chunk { origin, subchunks };
        assert forall|p: LocalPos| local_in_range(p) implies r.block_at(p) == 0 && r.light_at(
            p,
        ) == 0 by {
            lemma_cell_offset_in_range(p);
        }
        r
    }

    /// The subchunk holding world height `y`, if `y` lies in `0..256`.
    pub fn get_subchunk(&self, y: i32) -> (r: Option<&SubChunk>)
        requires
            self.wf(),
        ensures
            r.is_some() == (0 <= y < CHUNK_HEIGHT),
            r.is_some() ==> *r.unwrap() == self.subchunks@[y / 16],
    {
        if y < 0 || y >= 256 {
            None
        } else {
            Some(&self.subchunks[(y / 16) as usize])
        }
    }

    /// Splits a local Y into the subchunk index and the Y inside that subchunk.
    pub fn get_subchunk_index(&self, y: usize) -> (r: [usize; 2])
        ensures
            r[0] == y / 16,
            r[1] == y % 16,
    {
        [y / 16, y % 16]
    }

    /// Local position of a world position: Euclidean remainder on X and Z,
    /// Y kept as it is (clamped into `u16`).
    pub fn to_local(&self, position: BlockPos) -> (r: LocalPos)
        ensures
            r == Chunk::local_of(position),
            r.x < 16 && r.z < 16,
    {
        let y: u16 = if position.y < 0 {
            0
        } else if position.y > 65535 {
            65535
        } else {
            position.y as u16
        };
        LocalPos { x: rem16(position.x), y, z: rem16(position.z) }
    }

    /// World position of a local position of this chunk.
    pub fn to_world(&self, position: LocalPos) -> (r: BlockPos)
        requires
            self.wf(),
            position.x < 16,
            position.z < 16,
        ensures
            r == self.world_of(position),
            chunk_of(r) == self.origin,
    {
        let x = self.origin.x * 16 + position.x as i32;
        let z = self.origin.z * 16 + position.z as i32;
        let r = BlockPos { x, y: position.y as i32, z };
        assert(div16(x as int) == self.origin.x);
        assert(div16(z as int) == self.origin.z);
        r
    }

    /// Whether a local position lies inside the chunk.
    pub fn contains_local_position(&self, position: LocalPos) -> (r: bool)
        ensures
            r == local_in_range(position),
    {
        position.x < 16 && position.y < 256 && position.z < 16
    }

    /// Whether a world position lies in this chunk's column and vertical extent.
    pub fn contains_position(&self, position: BlockPos) -> (r: bool)
        ensures
            r == self.holds(position),
    {
        let cx = floor_div16(position.x);
        let cz = floor_div16(position.z);
        cx == self.origin.x && cz == self.origin.z && 0 <= position.y && position.y < 256
    }

    /// Block ID at a local position; `None` outside the chunk or for air.
    pub fn get_block(&self, position: LocalPos) -> (r: Option<u8>)
        requires
            self.wf(),
        ensures
            r == (if local_in_range(position) && self.block_at(position) != 0 {
                Some(self.block_at(position))
            } else {
                None
            }),
    {
        if !self.contains_local_position(position) {
            return None;
        }
        self.get_block_unchecked(position)
    }

    /// Block ID at a local position known to lie inside the chunk; `None` for air.
    pub fn get_block_unchecked(&self, position: LocalPos) -> (r: Option<u8>)
        requires
            self.wf(),
            local_in_range(position),
        ensures
            r == (if self.block_at(position) != 0 {
                Some(self.block_at(position))
            } else {
                None
            }),
    {
        let index = self.get_subchunk_index(position.y as usize);
        let subchunk = index[0];
        let y = index[1];
        proof {
            lemma_cell_offset_in_range(position);
            assert(self.subchunks@[subchunk as int].wf());
        }
        let offset = y * 256 + position.z as usize * 16 + position.x as usize;
        let block_id = self.subchunks[subchunk].blocks[offset];
        if block_id == 0 {
            None
        } else {
            Some(block_id)
        }
    }

    /// Stores a block ID at a local position known to lie inside the chunk.
    pub fn set_block_local(&mut self, position: LocalPos, block: u8)
        requires
            old(self).wf(),
            local_in_range(position),
        ensures
            final(self).wf(),
            final(self).origin == old(self).origin,
            forall|q: LocalPos|
                local_in_range(q) ==> final(self).block_at(q) == (if q == position {
                    block
                } else {
                    old(self).block_at(q)
                }) && final(self).light_at(q) == old(self).light_at(q),
    {
        let index = self.get_subchunk_index(position.y as usize);
        let subchunk = index[0];
        let y = index[1];
        proof {
            lemma_cell_offset_in_range(position);
            assert(self.subchunks@[subchunk as int].wf());
        }
        let offset = y * 256 + position.z as usize * 16 + position.x as usize;
        self.subchunks[subchunk].blocks.set(offset, block);
        proof {
            assert forall|q: LocalPos| local_in_range(q) implies final(self).block_at(q) == (
            if q == position {
                block
            } else {
                old(self).block_at(q)
            }) && final(self).light_at(q) == old(self).light_at(q) by {
                lemma_cell_offset_in_range(q);
                if q.y / 16 == position.y / 16 && cell_offset(q.x as int, q.y as int, q.z as int)
                    == cell_offset(position.x as int, position.y as int, position.z as int) {
                    lemma_cell_offset_injective(q, position);
                }
            }
        }
    }

    /// Stores a block ID at a world position if it lies in this chunk; otherwise
    /// leaves the chunk unchanged.
    pub fn set_block(&mut self, position: BlockPos, block: u8)
        requires
            old(self).wf(),
        ensures
            final(self).wf(),
            final(self).origin == old(self).origin,
            forall|q: LocalPos|
                local_in_range(q) ==> final(self).block_at(q) == (if old(self).holds(position)
                    && q == Chunk::local_of(position) {
                    block
                } else {
                    old(self).block_at(q)
                }) && final(self).light_at(q) == old(self).light_at(q),
    {
        if self.contains_position(position) {
            self.set_block_unchecked(position, block);
        }
    }

    /// Stores a block ID at a world position whose Y lies in `0..256`; X and Z
    /// are taken modulo the chunk size.
    pub fn set_block_unchecked(&mut self, position: BlockPos, block: u8)
        requires
            old(self).wf(),
            0 <= position.y < CHUNK_HEIGHT,
        ensures
            final(self).wf(),
            final(self).origin == old(self).origin,
            forall|q: LocalPos|
                local_in_range(q) ==> final(self).block_at(q) == (if q == Chunk::local_of(
                    position,
                ) {
                    block
                } else {
                    old(self).block_at(q)
                }) && final(self).light_at(q) == old(self).light_at(q),
    {
        let local = self.to_local(position);
        self.set_block_local(local, block);
    }

    /// Whether a non-air block stands at a world position of this chunk.
    pub fn check_for_block(&self, position: BlockPos) -> (r: bool)
        requires
            self.wf(),
        ensures
            r == (self.holds(position) && self.block_at(Chunk::local_of(position)) != 0),
    {
        if self.contains_position(position) {
            let local = self.to_local(position);
            self.get_block_unchecked(local).is_some()
        } else {
            false
        }
    }

    /// Packed light value at a local position.
    pub fn get_light_level(&self, position: LocalPos) -> (r: u8)
        requires
            self.wf(),
            local_in_range(position),
        ensures
            r == self.light_at(position),
    {
        let index = self.get_subchunk_index(position.y as usize);
        let subchunk = index[0];
        let y = index[1];
        proof {
            lemma_cell_offset_in_range(position);
            assert(self.subchunks@[subchunk as int].wf());
        }
        let offset = y * 256 + position.z as usize * 16 + position.x as usize;
        self.subchunks[subchunk].light_levels[offset]
    }

    /// Stores a packed light value at a local position.
    pub fn set_light_level(&mut self, position: LocalPos, level: u8)
        requires
            old(self).wf(),
            local_in_range(position),
        ensures
            final(self).wf(),
            final(self).origin == old(self).origin,
            forall|q: LocalPos|
                local_in_range(q) ==> final(self).light_at(q) == (if q == position {
                    level
                } else {
                    old(self).light_at(q)
                }) && final(self).block_at(q) == old(self).block_at(q),
            forall|sky: bool|
                #[trigger] final(self).darkness(sky) == old(self).darkness(sky) - (15 - channel_of(
                    old(self).light_at(position),
                    sky,
                )) + (15 - channel_of(level, sky)),
    {
        let ghost before = *self;
        let index = self.get_subchunk_index(position.y as usize);
        let subchunk = index[0];
        let y = index[1];
        proof {
            lemma_cell_offset_in_range(position);
            assert(self.subchunks@[subchunk as int].wf());
        }
        let offset = y * 256 + position.z as usize * 16 + position.x as usize;
        self.subchunks[subchunk].light_levels.set(offset, level);
        proof {
            let si = subchunk as int;
            let old_sub = before.subchunks@[si];
            let new_sub = self.subchunks@[si];
            assert(self.subchunks@ =~= before.subchunks@.update(si, new_sub));
            assert(new_sub.light_levels@ =~= old_sub.light_levels@.update(offset as int, level));
            assert forall|sky: bool| #[trigger] self.darkness(sky) == before.darkness(sky) - (15
                - channel_of(before.light_at(position), sky)) + (15 - channel_of(level, sky)) by {
                lemma_subchunks_dark_update(before.subchunks@, si, new_sub, sky);
                lemma_dark_sum_update(old_sub.light_levels@, offset as int, level, sky);
            }
            assert forall|q: LocalPos| local_in_range(q) implies final(self).light_at(q) == (
            if q == position {
                level
            } else {
                old(self).light_at(q)
            }) && final(self).block_at(q) == old(self).block_at(q) by {
                lemma_cell_offset_in_range(q);
                if q.y / 16 == position.y / 16 && cell_offset(q.x as int, q.y as int, q.z as int)
                    == cell_offset(position.x as int, position.y as int, position.z as int) {
                    lemma_cell_offset_injective(q, position);
                }
            }
        }
    }

    /// Sky light (0..=15) at a local position.
    pub fn get_sun_light(&self, position: LocalPos) -> (r: u8)
        requires
            self.wf(),
            local_in_range(position),
        ensures
            r == sky_of(self.light_at(position)),
            r <= MAX_LIGHT,
    {
        self.get_light_level(position) / 16
    }

    /// Block light (0..=15) at a local position.
    pub fn get_block_light(&self, position: LocalPos) -> (r: u8)
        requires
            self.wf(),
            local_in_range(position),
        ensures
            r == torch_of(self.light_at(position)),
            r <= MAX_LIGHT,
    {
        self.get_light_level(position) % 16
    }

    /// Light of the selected channel (sky when `sky`, block light otherwise).
    pub fn get_light(&self, position: LocalPos, sky: bool) -> (r: u8)
        requires
            self.wf(),
            local_in_range(position),
        ensures
            r == channel_of(self.light_at(position), sky),
            r <= MAX_LIGHT,
    {
        if sky {
            self.get_sun_light(position)
        } else {
            self.get_block_light(position)
        }
    }

    /// Replaces the sky channel at a local position, keeping the block channel.
    pub fn set_sun_light(&mut self, position: LocalPos, value: u8)
        requires
            old(self).wf(),
            local_in_range(position),
            value <= MAX_LIGHT,
        ensures
            final(self).wf(),
            forall|c: bool|
                #[trigger] final(self).darkness(c) == old(self).darkness(c) - (15 - channel_of(
                    old(self).light_at(position),
                    c,
                )) + (15 - channel_of(final(self).light_at(position), c)),
            final(self).origin == old(self).origin,
            sky_of(final(self).light_at(position)) == value,
            torch_of(final(self).light_at(position)) == torch_of(old(self).light_at(position)),
            forall|q: LocalPos|
                local_in_range(q) && q != position ==> final(self).light_at(q) == old(
                    self,
                ).light_at(q),
            forall|q: LocalPos| local_in_range(q) ==> final(self).block_at(q) == old(self).block_at(q),
    {
        let level = self.get_light_level(position);
        let packed = level % 16 + value * 16;
        self.set_light_level(position, packed);
    }

    /// Replaces the block channel at a local position, keeping the sky channel.
    pub fn set_block_light(&mut self, position: LocalPos, value: u8)
        requires
            old(self).wf(),
            local_in_range(position),
            value <= MAX_LIGHT,
        ensures
            final(self).wf(),
            forall|c: bool|
                #[trigger] final(self).darkness(c) == old(self).darkness(c) - (15 - channel_of(
                    old(self).light_at(position),
                    c,
                )) + (15 - channel_of(final(self).light_at(position), c)),
            final(self).origin == old(self).origin,
            torch_of(final(self).light_at(position)) == value,
            sky_of(final(self).light_at(position)) == sky_of(old(self).light_at(position)),
            forall|q: LocalPos|
                local_in_range(q) && q != position ==> final(self).light_at(q) == old(
                    self,
                ).light_at(q),
            forall|q: LocalPos| local_in_range(q) ==> final(self).block_at(q) == old(self).block_at(q),
    {
        let level = self.get_light_level(position);
        let packed = (level / 16) * 16 + value;
        self.set_light_level(position, packed);
    }

    /// Replaces the selected channel at a local position, keeping the other one.
    pub fn set_light(&mut self, position: LocalPos, sky: bool, value: u8)
        requires
            old(self).wf(),
            local_in_range(position),
            value <= MAX_LIGHT,
        ensures
            final(self).wf(),
            forall|c: bool|
                #[trigger] final(self).darkness(c) == old(self).darkness(c) - (15 - channel_of(
                    old(self).light_at(position),
                    c,
                )) + (15 - channel_of(final(self).light_at(position), c)),
            final(self).origin == old(self).origin,
            channel_of(final(self).light_at(position), sky) == value,
            channel_of(final(self).light_at(position), !sky) == channel_of(
                old(self).light_at(position),
                !sky,
            ),
            forall|q: LocalPos|
                local_in_range(q) && q != position ==> final(self).light_at(q) == old(
                    self,
                ).light_at(q),
            forall|q: LocalPos| local_in_range(q) ==> final(self).block_at(q) == old(self).block_at(q),
    {
        if sky {
            self.set_sun_light(position, value);
        } else {
            self.set_block_light(position, value);
        }
    }
}

impl Chunk {
    /// Fills the chunk's terrain from a solidity field: `solid` holds, for
    /// every cell, whether the terrain is solid there, at `field_index`.
    /// Solid cells become grass when the cell above is open or they touch the
    /// ceiling, dirt otherwise; open cells keep their block.
    pub fn generate_surface_with(&mut self, solid: &Vec<bool>)
        requires
            old(self).wf(),
            solid@.len() == 65536,
        ensures
            final(self).wf(),
            final(self).origin == old(self).origin,
            forall|p: LocalPos|
                local_in_range(p) ==> #[trigger] final(self).block_at(p) == match generated_block(solid@, p) {
                    Some(id) => id,
                    None => old(self).block_at(p),
                } && final(self).light_at(p) == old(self).light_at(p),
    {
        let ghost start = *self;
        let mut z: u16 = 0;
        while z < 16
            invariant
                self.wf(),
                solid@.len() == 65536,
                self.origin == start.origin,
                0 <= z <= 16,
                forall|p: LocalPos|
                    local_in_range(p) ==> #[trigger] self.block_at(p) == (if p.z < z {
                        match generated_block(solid@, p) {
                            Some(id) => id,
                            None => start.block_at(p),
                        }
                    } else {
                        start.block_at(p)
                    }) && self.light_at(p) == start.light_at(p),
            decreases 16 - z,
        {
            let mut x: u16 = 0;
            while x < 16
                invariant
                    self.wf(),
                    solid@.len() == 65536,
                    self.origin == start.origin,
                    z < 16,
                    0 <= x <= 16,
                    forall|p: LocalPos|
                        local_in_range(p) ==> #[trigger] self.block_at(p) == (if p.z < z || (p.z == z
                            && p.x < x) {
                            match generated_block(solid@, p) {
                                Some(id) => id,
                                None => start.block_at(p),
                            }
                        } else {
                            start.block_at(p)
                        }) && self.light_at(p) == start.light_at(p),
                decreases 16 - x,
            {
                let base: usize = (z as usize * 16 + x as usize) * 256;
                let mut y: u16 = 0;
                while y < 256
                    invariant
                        self.wf(),
                        solid@.len() == 65536,
                        self.origin == start.origin,
                        z < 16,
                        x < 16,
                        0 <= y <= 256,
                        base == (z as int * 16 + x as int) * 256,
                        forall|p: LocalPos|
                            local_in_range(p) ==> #[trigger] self.block_at(p) == (if p.z < z || (p.z
                                == z && p.x < x) || (p.z == z && p.x == x && p.y < y) {
                                match generated_block(solid@, p) {
                                    Some(id) => id,
                                    None => start.block_at(p),
                                }
                            } else {
                                start.block_at(p)
                            }) && self.light_at(p) == start.light_at(p),
                    decreases 256 - y,
                {
                    let here = LocalPos { x, y, z };
                    let index = base + y as usize;
                    assert(index == field_index(here));
                    if solid[index] {
                        let id = if y == 255 || !solid[index + 1] {
                            GRASS
                        } else {
                            DIRT
                        };
                        self.set_block_local(here, id);
                    }
                    y += 1;
                }
                x += 1;
            }
            z += 1;
        }
    }
}

/// The offset of an in-range local position lies inside its subchunk, and its
/// subchunk index inside the chunk.
pub proof fn lemma_cell_offset_in_range(p: LocalPos)
    requires
        local_in_range(p),
    ensures
        0 <= cell_offset(p.x as int, p.y as int, p.z as int) < SUBCHUNK_VOLUME,
        0 <= p.y / 16 < SUBCHUNK_COUNT,
{
}

/// Distinct in-range local positions occupy distinct cells.
pub proof fn lemma_cell_offset_injective(p: LocalPos, q: LocalPos)
    requires
        local_in_range(p),
        local_in_range(q),
        p.y / 16 == q.y / 16,
        cell_offset(p.x as int, p.y as int, p.z as int) == cell_offset(
            q.x as int,
            q.y as int,
            q.z as int,
        ),
    ensures
        p == q,
{
    assert(p.y == 16 * (p.y / 16) + p.y % 16);
    assert(q.y == 16 * (q.y / 16) + q.y % 16);
}

/// Taking a world position to local coordinates and back gives the position
/// itself, for every position in the chunk's column with Y in `0..=65535`.
pub proof fn lemma_local_world_round_trip(chunk: Chunk, p: BlockPos)
    requires
        chunk.wf(),
        chunk_of(p) == chunk.origin,
        0 <= p.y <= u16::MAX,
    ensures
        chunk.world_of(Chunk::local_of(p)) == p,
{
    assert(p.x as int == 16 * div16(p.x as int) + p.x as int % 16);
    assert(p.z as int == 16 * div16(p.z as int) + p.z as int % 16);
}

/// Local coordinates of a chunk's world position give back the local position.
pub proof fn lemma_world_local_round_trip(chunk: Chunk, p: LocalPos)
    requires
        chunk.wf(),
        local_in_range(p),
    ensures
        Chunk::local_of(chunk.world_of(p)) == p,
        chunk_of(chunk.world_of(p)) == chunk.origin,
{
    let w = chunk.world_of(p);
    assert(w.x as int == 16 * chunk.origin.x + p.x);
    assert(w.z as int == 16 * chunk.origin.z + p.z);
    assert((w.x as int) % 16 == p.x as int);
    assert((w.z as int) % 16 == p.z as int);
    assert(div16(w.x as int) == chunk.origin.x);
    assert(div16(w.z as int) == chunk.origin.z);
}

/// Both light channels of any packed value lie in `0..=15`, so no sequence of
/// light updates can leave that range.
pub proof fn lemma_light_bounds(l: u8)
    ensures
        0 <= sky_of(l) <= MAX_LIGHT,
        0 <= torch_of(l) <= MAX_LIGHT,
        forall|sky: bool| 0 <= #[trigger] channel_of(l, sky) <= MAX_LIGHT,
{
}

/// Two world positions in the same chunk with the same local position, both
/// within the world's height, are the same position.
pub proof fn lemma_local_of_injective(p: BlockPos, q: BlockPos)
    requires
        chunk_of(p) == chunk_of(q),
        Chunk::local_of(p) == Chunk::local_of(q),
        0 <= p.y < CHUNK_HEIGHT,
        0 <= q.y < CHUNK_HEIGHT,
    ensures
        p == q,
{
    assert(p.x as int == 16 * div16(p.x as int) + p.x as int % 16);
    assert(p.z as int == 16 * div16(p.z as int) + p.z as int % 16);
    assert(q.x as int == 16 * div16(q.x as int) + q.x as int % 16);
    assert(q.z as int == 16 * div16(q.z as int) + q.z as int % 16);
}

} // verus!