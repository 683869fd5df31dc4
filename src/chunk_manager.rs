use vstd::prelude::*;

use crate::chunk::{
    chunk_of, floor_div16, local_in_range, origin_in_range, Chunk, ChunkPos, BlockPos, LocalPos,
    sky_of, torch_of, CHUNK_HEIGHT, FULL_LIGHT, MAX_LIGHT,
};

verus! {

/// The loaded chunks of a world, at most one per chunk-grid location.
///
/// The chunks sit in a `Vec` searched by origin, with distinct origins as the
/// invariant: a world keeps a small, fixed set of chunks, and a sequence lets
/// every operation state exactly which chunk it reads or writes and lets bulk
/// passes visit the chunks in a stated order.
pub struct ChunkManager {
    pub chunks: Vec<Chunk>,
}

/// Whether some chunk of the sequence sits at the given location.
pub open spec fn seq_has(s: Seq<Chunk>, o: ChunkPos) -> bool {
    exists|i: int| 0 <= i < s.len() && #[trigger] s[i].origin == o
}

/// Levels missing from full light in one channel over a sequence of chunks.
pub open spec fn world_dark(s: Seq<Chunk>, sky: bool) -> int
    decreases s.len(),
{
    if s.len() == 0 {
        0
    } else {
        world_dark(s.drop_last(), sky) + s.last().darkness(sky)
    }
}

/// Missing light is never negative.
pub proof fn lemma_world_dark_nonneg(s: Seq<Chunk>, sky: bool)
    ensures
        world_dark(s, sky) >= 0,
    decreases s.len(),
{
    if s.len() > 0 {
        lemma_world_dark_nonneg(s.drop_last(), sky);
        crate::chunk::lemma_subchunks_dark_nonneg(s.last().subchunks@, sky);
    }
}

/// Replacing one chunk changes the missing light by the difference in that chunk.
pub proof fn lemma_world_dark_update(s: Seq<Chunk>, i: int, v: Chunk, sky: bool)
    requires
        0 <= i < s.len(),
    ensures
        world_dark(s.update(i, v), sky) == world_dark(s, sky) - s[i].darkness(sky) + v.darkness(sky),
    decreases s.len(),
{
    let t = s.update(i, v);
    if i == s.len() - 1 {
        assert(t.drop_last() =~= s.drop_last());
    } else {
        assert(t.drop_last() =~= s.drop_last().update(i, v));
        lemma_world_dark_update(s.drop_last(), i, v, sky);
    }
}

/// Strict lexicographic order on chunk-grid locations (X first, then Z).
pub open spec fn origin_before(a: ChunkPos, b: ChunkPos) -> bool {
    a.x < b.x || (a.x == b.x && a.z < b.z)
}

impl ChunkManager {
    pub open spec fn wf(&self) -> bool {
        &&& forall|i: int| 0 <= i < self.chunks@.len() ==> #[trigger] self.chunks@[i].wf()
        &&& forall|i: int, j: int|
            0 <= i < self.chunks@.len() && 0 <= j < self.chunks@.len() && i != j
                ==> self.chunks@[i].origin != self.chunks@[j].origin
    }

    /// Whether a chunk is loaded at the given location.
    pub open spec fn has(&self, o: ChunkPos) -> bool {
        seq_has(self.chunks@, o)
    }

    /// Position in `chunks` of the chunk at the given location (meaningful when `has(o)`).
    pub open spec fn index_of(&self, o: ChunkPos) -> int {
        choose|i: int| 0 <= i < self.chunks@.len() && #[trigger] self.chunks@[i].origin == o
    }

    /// The chunk loaded at the given location (meaningful when `has(o)`).
    pub open spec fn chunk_at(&self, o: ChunkPos) -> Chunk {
        self.chunks@[self.index_of(o)]
    }

    /// Whether a world position lies in a loaded chunk, within the world's height.
    pub open spec fn loaded(&self, p: BlockPos) -> bool {
        self.has(chunk_of(p)) && 0 <= p.y < CHUNK_HEIGHT
    }

    /// Block ID at a world position; air where nothing is loaded.
    pub open spec fn block_id_at(&self, p: BlockPos) -> u8 {
        if self.loaded(p) {
            self.chunk_at(chunk_of(p)).block_at(Chunk::local_of(p))
        } else {
            0
        }
    }

    /// Packed light at a world position; 240 (sky light 15, block light 0) where
    /// nothing is loaded.
    pub open spec fn light_value_at(&self, p: BlockPos) -> u8 {
        if self.loaded(p) {
            self.chunk_at(chunk_of(p)).light_at(Chunk::local_of(p))
        } else {
            FULL_LIGHT
        }
    }

    /// A manager with no chunks.
    pub fn new() -> (r: ChunkManager)
        ensures
            r.wf(),
            r.chunks@.len() == 0,
    {
        ChunkManager { chunks: Vec::new() }
    }

    /// Empty chunks on every location with `x_start <= x < x_end` and
    /// `z_start <= z < z_end`, in order of X, then Z.
    pub fn from_range(x_start: i32, x_end: i32, z_start: i32, z_end: i32) -> (r: ChunkManager)
        requires
            origin_in_range(ChunkPos { x: x_start, z: z_start }),
            origin_in_range(ChunkPos { x: x_end, z: z_end }),
        ensures
            r.wf(),
            forall|o: ChunkPos|
                r.has(o) <==> (x_start <= o.x < x_end && z_start <= o.z < z_end),
            forall|i: int|
                0 <= i < r.chunks@.len() ==> forall|p: LocalPos|
                    local_in_range(p) ==> (#[trigger] r.chunks@[i]).block_at(p) == 0
                        && r.chunks@[i].light_at(p) == 0,
    {
        let mut chunks: Vec<Chunk> = Vec::new();
        let mut x = x_start;
        while x < x_end
            invariant
                x_start <= x,
                x_start < x_end ==> x <= x_end,
                x_start >= x_end ==> x == x_start,
                origin_in_range(ChunkPos { x: x_start, z: z_start }),
                origin_in_range(ChunkPos { x: x_end, z: z_end }),
                forall|i: int| 0 <= i < chunks@.len() ==> #[trigger] chunks@[i].wf(),
                forall|i: int, j: int|
                    0 <= i < j < chunks@.len() ==> origin_before(chunks@[i].origin, chunks@[j].origin),
                forall|i: int|
                    0 <= i < chunks@.len() ==> (#[trigger] chunks@[i]).origin.x < x,
                forall|o: ChunkPos|
                    #[trigger] seq_has(chunks@, o) <==> (x_start <= o.x < x && z_start <= o.z < z_end),
                forall|i: int|
                    0 <= i < chunks@.len() ==> forall|p: LocalPos|
                        local_in_range(p) ==> (#[trigger] chunks@[i]).block_at(p) == 0
                            && chunks@[i].light_at(p) == 0,
            decreases x_end - x,
        {
            let mut z = z_start;
            let ghost before = chunks@.len();
            while z < z_end
                invariant
                    x_start <= x < x_end,
                    z_start < z_end ==> z_start <= z <= z_end,
                    z_start >= z_end ==> z == z_start,
                    before <= chunks@.len(),
                    origin_in_range(ChunkPos { x: x_start, z: z_start }),
                    origin_in_range(ChunkPos { x: x_end, z: z_end }),
                    forall|i: int| 0 <= i < chunks@.len() ==> #[trigger] chunks@[i].wf(),
                    forall|i: int, j: int|
                        0 <= i < j < chunks@.len() ==> origin_before(
                            chunks@[i].origin,
                            chunks@[j].origin,
                        ),
                    forall|i: int|
                        0 <= i < chunks@.len() ==> origin_before(
                            (#[trigger] chunks@[i]).origin,
                            ChunkPos { x, z },
                        ),
                    forall|i: int|
                        0 <= i < chunks@.len() ==> (#[trigger] chunks@[i]).origin.x <= x,
                    forall|o: ChunkPos|
                        #[trigger] seq_has(chunks@, o) <==> ((x_start <= o.x < x && z_start <= o.z
                            < z_end) || (o.x == x && z_start <= o.z < z)),
                    forall|i: int|
                        0 <= i < chunks@.len() ==> forall|p: LocalPos|
                            local_in_range(p) ==> (#[trigger] chunks@[i]).block_at(p) == 0
                                && chunks@[i].light_at(p) == 0,
                decreases z_end - z,
            {
                let origin = ChunkPos { x, z };
                let chunk = Chunk::new(origin);
                let ghost old_chunks = chunks@;
                chunks.push(chunk);
                proof {
                    assert forall|o: ChunkPos|
                        #[trigger] seq_has(chunks@, o) <==> ((x_start <= o.x < x && z_start <= o.z
                            < z_end) || (o.x == x && z_start <= o.z < z + 1)) by {
                        if o == origin {
                            assert(chunks@[old_chunks.len() as int].origin == o);
                        } else if seq_has(old_chunks, o) {
                            let i = choose|i: int|
                                0 <= i < old_chunks.len() && #[trigger] old_chunks[i].origin == o;
                            assert(chunks@[i].origin == o);
                        }
                        if seq_has(chunks@, o) {
                            let i = choose|i: int|
                                0 <= i < chunks@.len() && #[trigger] chunks@[i].origin == o;
                            if i < old_chunks.len() {
                                assert(old_chunks[i].origin == o);
                            }
                        }
                    }
                }
                z = z + 1;
            }
            x = x + 1;
        }
        let r = ChunkManager { chunks };
        proof {
            assert forall|i: int, j: int|
                0 <= i < r.chunks@.len() && 0 <= j < r.chunks@.len() && i != j
                    implies r.chunks@[i].origin != r.chunks@[j].origin by {
                if i < j {
                    assert(origin_before(r.chunks@[i].origin, r.chunks@[j].origin));
                } else {
                    assert(origin_before(r.chunks@[j].origin, r.chunks@[i].origin));
                }
            }
            assert forall|o: ChunkPos| r.has(o) <==> (x_start <= o.x < x_end && z_start <= o.z < z_end) by {
                assert(seq_has(chunks@, o) <==> (x_start <= o.x < x && z_start <= o.z < z_end));
            }
        }
        r
    }

    /// Number of loaded chunks.
    pub fn len(&self) -> (r: usize)
        ensures
            r == self.chunks@.len(),
    {
        self.chunks.len()
    }

    /// Whether no chunk is loaded.
    pub fn is_empty(&self) -> (r: bool)
        ensures
            r == (self.chunks@.len() == 0),
    {
        self.chunks.len() == 0
    }

    /// The chunk-grid location that owns a world position.
    pub fn to_local(position: BlockPos) -> (r: ChunkPos)
        ensures
            r == chunk_of(position),
            origin_in_range(r),
    {
        ChunkPos { x: floor_div16(position.x), z: floor_div16(position.z) }
    }

    /// Position in `chunks` of the chunk at a location, if one is loaded there.
    pub fn chunk_index(&self, origin: ChunkPos) -> (r: Option<usize>)
        requires
            self.wf(),
        ensures
            r.is_some() <==> self.has(origin),
            r.is_some() ==> r.unwrap() == self.index_of(origin) && r.unwrap() < self.chunks@.len()
                && self.chunks@[r.unwrap() as int].origin == origin,
    {
        let mut i: usize = 0;
        while i < self.chunks.len()
            invariant
                self.wf(),
                i <= self.chunks@.len(),
                forall|j: int| 0 <= j < i ==> (#[trigger] self.chunks@[j]).origin != origin,
            decreases self.chunks@.len() - i,
        {
            if self.chunks[i].origin == origin {
                proof {
                    self.lemma_index_of(i as int);
                }
                return Some(i);
            }
            i += 1;
        }
        None
    }

    /// The chunk at a location, if one is loaded there.
    pub fn get_chunk(&self, origin: ChunkPos) -> (r: Option<&Chunk>)
        requires
            self.wf(),
        ensures
            r.is_some() <==> self.has(origin),
            r.is_some() ==> *r.unwrap() == self.chunk_at(origin) && r.unwrap().wf(),
    {
        match self.chunk_index(origin) {
            Some(i) => Some(&self.chunks[i]),
            None => None,
        }
    }

    /// Whether a chunk is loaded at the location that owns a world position.
    pub fn contains_chunk(&self, position: BlockPos) -> (r: bool)
        requires
            self.wf(),
        ensures
            r == self.has(chunk_of(position)),
    {
        self.chunk_index(Self::to_local(position)).is_some()
    }

    /// Block ID at a world position; `None` for air, an unloaded chunk, or a Y
    /// outside `0..256`.
    pub fn get_block(&self, position: BlockPos) -> (r: Option<u8>)
        requires
            self.wf(),
        ensures
            r == (if self.block_id_at(position) != 0 {
                Some(self.block_id_at(position))
            } else {
                None
            }),
    {
        match self.get_chunk(Self::to_local(position)) {
            Some(chunk) => {
                if position.y < 0 || position.y >= 256 {
                    return None;
                }
                let local = chunk.to_local(position);
                chunk.get_block(local)
            },
            None => None,
        }
    }

    /// Whether a non-air block stands at a world position.
    pub fn contains_block(&self, position: BlockPos) -> (r: bool)
        requires
            self.wf(),
        ensures
            r == (self.block_id_at(position) != 0),
    {
        self.get_block(position).is_some()
    }

    /// Packed light at a world position; 240 (sky light 15, block light 0) where no
    /// chunk is loaded or Y lies outside `0..256`.
    pub fn get_light(&self, position: BlockPos) -> (r: u8)
        requires
            self.wf(),
        ensures
            r == self.light_value_at(position),
    {
        match self.get_chunk(Self::to_local(position)) {
            Some(chunk) => {
                if position.y < 0 || position.y >= 256 {
                    return FULL_LIGHT;
                }
                let local = chunk.to_local(position);
                chunk.get_light_level(local)
            },
            None => FULL_LIGHT,
        }
    }

    /// Sky light (0..=15) at a world position; 15 where nothing is loaded.
    pub fn get_sun_light(&self, position: BlockPos) -> (r: u8)
        requires
            self.wf(),
        ensures
            r == sky_of(self.light_value_at(position)),
            r <= MAX_LIGHT,
    {
        self.get_light(position) / 16
    }

    /// Block light (0..=15) at a world position; 15 where nothing is loaded.
    pub fn get_block_light(&self, position: BlockPos) -> (r: u8)
        requires
            self.wf(),
        ensures
            r == (if self.loaded(position) {
                torch_of(self.light_value_at(position))
            } else {
                15
            }),
            r <= MAX_LIGHT,
    {
        match self.get_chunk(Self::to_local(position)) {
            Some(chunk) => {
                if position.y < 0 || position.y >= 256 {
                    return MAX_LIGHT;
                }
                let local = chunk.to_local(position);
                chunk.get_block_light(local)
            },
            None => MAX_LIGHT,
        }
    }

    /// Stores a block ID at a world position; positions outside the loaded
    /// world are left alone.
    pub fn set_block(&mut self, position: BlockPos, block: u8)
        requires
            old(self).wf(),
        ensures
            final(self).wf(),
            final(self).chunks@.len() == old(self).chunks@.len(),
            forall|j: int|
                0 <= j < old(self).chunks@.len() ==> (#[trigger] final(self).chunks@[j]).origin
                    == old(self).chunks@[j].origin,
            forall|o: ChunkPos| final(self).has(o) == old(self).has(o),
            forall|q: BlockPos|
                #[trigger] final(self).block_id_at(q) == (if q == position && old(self).loaded(
                    position,
                ) {
                    block
                } else {
                    old(self).block_id_at(q)
                }),
            forall|q: BlockPos| #[trigger]
                final(self).light_value_at(q) == old(self).light_value_at(q),
    {
        if position.y < 0 || position.y >= 256 {
            return;
        }
        match self.chunk_index(Self::to_local(position)) {
            Some(i) => {
                let ghost old_self = *self;
                let local = self.chunks[i].to_local(position);
                self.chunks[i].set_block_local(local, block);
                proof {
                    old_self.lemma_replace_chunk(*self, i as int);
                    assert forall|q: BlockPos|
                        #[trigger] self.block_id_at(q) == (if q == position && old_self.loaded(
                            position,
                        ) {
                            block
                        } else {
                            old_self.block_id_at(q)
                        }) by {
                        if self.loaded(q) {
                            assert(local_in_range(Chunk::local_of(q)));
                            if chunk_of(q) == chunk_of(position) && Chunk::local_of(q)
                                == Chunk::local_of(position) {
                                crate::chunk::lemma_local_of_injective(q, position);
                            }
                        }
                    }
                    assert forall|q: BlockPos| #[trigger] self.light_value_at(q)
                        == old_self.light_value_at(q) by {
                        if self.loaded(q) {
                            assert(local_in_range(Chunk::local_of(q)));
                        }
                    }
                }
            },
            None => {},
        }
    }

    /// Replaces the light channel at a world position inside the loaded world.
    pub fn set_light(&mut self, position: BlockPos, sky: bool, value: u8)
        requires
            old(self).wf(),
            value <= MAX_LIGHT,
        ensures
            final(self).wf(),
            forall|c: bool|
                #[trigger] world_dark(final(self).chunks@, c) == world_dark(old(self).chunks@, c) - (15
                    - crate::chunk::channel_of(old(self).light_value_at(position), c)) + (15
                    - crate::chunk::channel_of(final(self).light_value_at(position), c)),
            final(self).chunks@.len() == old(self).chunks@.len(),
            forall|j: int|
                0 <= j < old(self).chunks@.len() ==> (#[trigger] final(self).chunks@[j]).origin
                    == old(self).chunks@[j].origin,
            forall|o: ChunkPos| final(self).has(o) == old(self).has(o),
            forall|q: BlockPos| #[trigger]
                final(self).block_id_at(q) == old(self).block_id_at(q),
            old(self).loaded(position) ==> crate::chunk::channel_of(
                final(self).light_value_at(position),
                sky,
            ) == value && crate::chunk::channel_of(final(self).light_value_at(position), !sky)
                == crate::chunk::channel_of(old(self).light_value_at(position), !sky),
            forall|q: BlockPos|
                Chunk::local_of(q) != Chunk::local_of(position) || chunk_of(q) != chunk_of(position)
                    || !old(self).loaded(position) ==> #[trigger] final(self).light_value_at(q)
                    == old(self).light_value_at(q),
    {
        if position.y < 0 || position.y >= 256 {
            return;
        }
        match self.chunk_index(Self::to_local(position)) {
            Some(i) => {
                let ghost old_self = *self;
                let local = self.chunks[i].to_local(position);
                self.chunks[i].set_light(local, sky, value);
                proof {
                    old_self.lemma_replace_chunk(*self, i as int);
                    assert(self.chunks@ =~= old_self.chunks@.update(i as int, self.chunks@[i as int]));
                    assert forall|c: bool| #[trigger] world_dark(self.chunks@, c) == world_dark(old_self.chunks@, c) - (15
                        - crate::chunk::channel_of(old_self.light_value_at(position), c)) + (15
                        - crate::chunk::channel_of(self.light_value_at(position), c)) by {
                        lemma_world_dark_update(old_self.chunks@, i as int, self.chunks@[i as int], c);
                        assert(old_self.light_value_at(position) == old_self.chunks@[i as int].light_at(local));
                        assert(self.light_value_at(position) == self.chunks@[i as int].light_at(local));
                    }
                    assert forall|q: BlockPos| #[trigger] self.block_id_at(q) == old_self.block_id_at(q) by {
                        if self.loaded(q) {
                            assert(local_in_range(Chunk::local_of(q)));
                        }
                    }
                    assert forall|q: BlockPos|
                        Chunk::local_of(q) != Chunk::local_of(position) || chunk_of(q) != chunk_of(
                            position,
                        ) implies #[trigger] self.light_value_at(q) == old_self.light_value_at(q) by {
                        if self.loaded(q) {
                            assert(local_in_range(Chunk::local_of(q)));
                        }
                    }
                    assert(self.light_value_at(position) == self.chunks@[i as int].light_at(local));
                }
            },
            None => {},
        }
    }

    /// Smallest and largest chunk coordinates of the loaded chunks, each range
    /// widened to include 0.
    pub fn grid_extent(&self) -> (r: (ChunkPos, ChunkPos))
        requires
            self.wf(),
        ensures
            r.0.x <= 0 && r.0.z <= 0 && r.1.x >= 0 && r.1.z >= 0,
            origin_in_range(r.0) && origin_in_range(r.1),
            forall|i: int|
                0 <= i < self.chunks@.len() ==> r.0.x <= (#[trigger] self.chunks@[i]).origin.x <= r.1.x
                    && r.0.z <= self.chunks@[i].origin.z <= r.1.z,
            r.0.x == 0 || exists|i: int| 0 <= i < self.chunks@.len() && (#[trigger] self.chunks@[i]).origin.x == r.0.x,
            r.0.z == 0 || exists|i: int| 0 <= i < self.chunks@.len() && (#[trigger] self.chunks@[i]).origin.z == r.0.z,
            r.1.x == 0 || exists|i: int| 0 <= i < self.chunks@.len() && (#[trigger] self.chunks@[i]).origin.x == r.1.x,
            r.1.z == 0 || exists|i: int| 0 <= i < self.chunks@.len() && (#[trigger] self.chunks@[i]).origin.z == r.1.z,
    {
        let mut min = ChunkPos { x: 0, z: 0 };
        let mut max = ChunkPos { x: 0, z: 0 };
        let mut i: usize = 0;
        while i < self.chunks.len()
            invariant
                self.wf(),
                i <= self.chunks@.len(),
                min.x <= 0 && min.z <= 0 && max.x >= 0 && max.z >= 0,
                origin_in_range(min) && origin_in_range(max),
                forall|j: int|
                    0 <= j < i ==> min.x <= (#[trigger] self.chunks@[j]).origin.x <= max.x
                        && min.z <= self.chunks@[j].origin.z <= max.z,
                min.x == 0 || exists|j: int| 0 <= j < i && (#[trigger] self.chunks@[j]).origin.x == min.x,
                min.z == 0 || exists|j: int| 0 <= j < i && (#[trigger] self.chunks@[j]).origin.z == min.z,
                max.x == 0 || exists|j: int| 0 <= j < i && (#[trigger] self.chunks@[j]).origin.x == max.x,
                max.z == 0 || exists|j: int| 0 <= j < i && (#[trigger] self.chunks@[j]).origin.z == max.z,
            decreases self.chunks@.len() - i,
        {
            let o = self.chunks[i].origin;
            proof {
                assert(self.chunks@[i as int].wf());
            }
            if o.x < min.x {
                min.x = o.x;
            }
            if o.z < min.z {
                min.z = o.z;
            }
            if o.x > max.x {
                max.x = o.x;
            }
            if o.z > max.z {
                max.z = o.z;
            }
            i += 1;
        }
        (min, max)
    }

    /// Block coordinates of the corners of the chunk grid extent: the
    /// smallest and largest chunk coordinates (each range widened to include
    /// 0) times 16.
    pub fn bounds(&self) -> (r: ((i64, i64), (i64, i64)))
        requires
            self.wf(),
        ensures
            ({
                let (min, max) = self.spec_grid_extent();
                &&& r.0.0 == min.x * 16 && r.0.1 == min.z * 16
                &&& r.1.0 == max.x * 16 && r.1.1 == max.z * 16
            }),
    {
        let (min, max) = self.grid_extent();
        proof {
            self.lemma_grid_extent_unique(min, max);
        }
        ((min.x as i64 * 16, min.z as i64 * 16), (max.x as i64 * 16, max.z as i64 * 16))
    }

    /// Size in blocks of the box holding the loaded chunk grid extent (widened
    /// to include chunk 0, 0): width, height and depth.
    pub fn surface_size(&self) -> (r: (i64, i64, i64))
        requires
            self.wf(),
        ensures
            ({
                let (min, max) = self.spec_grid_extent();
                &&& r.0 == (max.x - min.x) * 16 + 16
                &&& r.1 == 256
                &&& r.2 == (max.z - min.z) * 16 + 16
            }),
    {
        let (min, max) = self.grid_extent();
        proof {
            self.lemma_grid_extent_unique(min, max);
        }
        (
            (max.x as i64 - min.x as i64) * 16 + 16,
            256,
            (max.z as i64 - min.z as i64) * 16 + 16,
        )
    }

    /// Whether `(min, max)` is the chunk grid extent: smallest and largest
    /// coordinates over the loaded chunks, each range widened to include 0.
    pub open spec fn is_grid_extent(&self, min: ChunkPos, max: ChunkPos) -> bool {
        &&& min.x <= 0 && min.z <= 0 && max.x >= 0 && max.z >= 0
        &&& forall|i: int|
            0 <= i < self.chunks@.len() ==> min.x <= (#[trigger] self.chunks@[i]).origin.x <= max.x
                && min.z <= self.chunks@[i].origin.z <= max.z
        &&& min.x == 0 || exists|i: int| 0 <= i < self.chunks@.len() && (#[trigger] self.chunks@[i]).origin.x == min.x
        &&& min.z == 0 || exists|i: int| 0 <= i < self.chunks@.len() && (#[trigger] self.chunks@[i]).origin.z == min.z
        &&& max.x == 0 || exists|i: int| 0 <= i < self.chunks@.len() && (#[trigger] self.chunks@[i]).origin.x == max.x
        &&& max.z == 0 || exists|i: int| 0 <= i < self.chunks@.len() && (#[trigger] self.chunks@[i]).origin.z == max.z
    }

    /// The chunk grid extent.
    pub open spec fn spec_grid_extent(&self) -> (ChunkPos, ChunkPos) {
        choose|e: (ChunkPos, ChunkPos)| self.is_grid_extent(e.0, e.1)
    }

    /// The chunk grid extent is unique.
    pub proof fn lemma_grid_extent_unique(&self, min: ChunkPos, max: ChunkPos)
        requires
            self.is_grid_extent(min, max),
        ensures
            self.spec_grid_extent() == (min, max),
    {
        let w = (min, max);
        assert(self.is_grid_extent(w.0, w.1));
        let e = self.spec_grid_extent();
        assert(self.is_grid_extent(e.0, e.1));
        if e.0.x != min.x {
            if min.x != 0 {
                let i = choose|i: int| 0 <= i < self.chunks@.len() && (#[trigger] self.chunks@[i]).origin.x == min.x;
            }
            if e.0.x != 0 {
                let i = choose|i: int| 0 <= i < self.chunks@.len() && (#[trigger] self.chunks@[i]).origin.x == e.0.x;
            }
        }
        if e.0.z != min.z {
            if min.z != 0 {
                let i = choose|i: int| 0 <= i < self.chunks@.len() && (#[trigger] self.chunks@[i]).origin.z == min.z;
            }
            if e.0.z != 0 {
                let i = choose|i: int| 0 <= i < self.chunks@.len() && (#[trigger] self.chunks@[i]).origin.z == e.0.z;
            }
        }
        if e.1.x != max.x {
            if max.x != 0 {
                let i = choose|i: int| 0 <= i < self.chunks@.len() && (#[trigger] self.chunks@[i]).origin.x == max.x;
            }
            if e.1.x != 0 {
                let i = choose|i: int| 0 <= i < self.chunks@.len() && (#[trigger] self.chunks@[i]).origin.x == e.1.x;
            }
        }
        if e.1.z != max.z {
            if max.z != 0 {
                let i = choose|i: int| 0 <= i < self.chunks@.len() && (#[trigger] self.chunks@[i]).origin.z == max.z;
            }
            if e.1.z != 0 {
                let i = choose|i: int| 0 <= i < self.chunks@.len() && (#[trigger] self.chunks@[i]).origin.z == e.1.z;
            }
        }
    }

    /// Whether the mesh of the chunk at `o` must be rebuilt after the block at
    /// `p` changed: `o` is loaded and is either the block's own chunk or the
    /// neighbour across a chunk border that the block touches.
    pub open spec fn needs_remesh(&self, p: BlockPos, o: ChunkPos) -> bool {
        let own = chunk_of(p);
        let local = Chunk::local_of(p);
        &&& self.has(o)
        &&& {
            ||| o == own
            ||| (local.x == 0 && o == ChunkPos { x: (own.x - 1) as i32, z: own.z })
            ||| (local.x == 15 && o == ChunkPos { x: (own.x + 1) as i32, z: own.z })
            ||| (local.z == 0 && o == ChunkPos { x: own.x, z: (own.z - 1) as i32 })
            ||| (local.z == 15 && o == ChunkPos { x: own.x, z: (own.z + 1) as i32 })
        }
    }

    /// The loaded chunks whose meshes depend on the block at `position`: its
    /// own chunk and, when the block lies on a chunk border, the neighbour
    /// across that border.
    pub fn chunks_to_remesh(&self, position: BlockPos) -> (r: Vec<ChunkPos>)
        requires
            self.wf(),
        ensures
            forall|o: ChunkPos| r@.contains(o) <==> self.needs_remesh(position, o),
    {
        let own = Self::to_local(position);
        let lx = crate::chunk::rem16(position.x);
        let lz = crate::chunk::rem16(position.z);
        let ghost local = Chunk::local_of(position);
        let mut r: Vec<ChunkPos> = Vec::new();
        let candidates = [
            own,
            ChunkPos { x: own.x - 1, z: own.z },
            ChunkPos { x: own.x + 1, z: own.z },
            ChunkPos { x: own.x, z: own.z - 1 },
            ChunkPos { x: own.x, z: own.z + 1 },
        ];
        let wanted = [true, lx == 0, lx == 15, lz == 0, lz == 15];
        let mut i: usize = 0;
        while i < 5
            invariant
                self.wf(),
                i <= 5,
                own == chunk_of(position),
                local == Chunk::local_of(position),
                lx == local.x,
                lz == local.z,
                candidates@ == seq![
                    own,
                    ChunkPos { x: (own.x - 1) as i32, z: own.z },
                    ChunkPos { x: (own.x + 1) as i32, z: own.z },
                    ChunkPos { x: own.x, z: (own.z - 1) as i32 },
                    ChunkPos { x: own.x, z: (own.z + 1) as i32 },
                ],
                wanted@ == seq![true, lx == 0, lx == 15, lz == 0, lz == 15],
                forall|o: ChunkPos|
                    r@.contains(o) <==> exists|j: int|
                        0 <= j < i && wanted@[j] && self.has(candidates@[j]) && #[trigger] candidates@[j] == o,
            decreases 5 - i,
        {
            let ghost before = r@;
            if wanted[i] && self.chunk_index(candidates[i]).is_some() {
                r.push(candidates[i]);
            }
            proof {
                assert forall|o: ChunkPos|
                    r@.contains(o) <==> exists|j: int|
                        0 <= j < i + 1 && wanted@[j] && self.has(candidates@[j]) && #[trigger] candidates@[j] == o by {
                    if r@.contains(o) && !before.contains(o) {
                        assert(candidates@[i as int] == o);
                    }
                    if before.contains(o) {
                        let k = choose|k: int| 0 <= k < before.len() && before[k] == o;
                        assert(r@[k] == o);
                    }
                    if exists|j: int| 0 <= j < i + 1 && wanted@[j] && self.has(candidates@[j]) && #[trigger] candidates@[j] == o {
                        let j = choose|j: int| 0 <= j < i + 1 && wanted@[j] && self.has(candidates@[j]) && #[trigger] candidates@[j] == o;
                        if j == i {
                            assert(r@[r@.len() - 1] == o);
                        } else {
                            assert(before.contains(o));
                            let k = choose|k: int| 0 <= k < before.len() && before[k] == o;
                            assert(r@[k] == o);
                        }
                    }
                }
            }
            i += 1;
        }
        proof {
            assert forall|o: ChunkPos| r@.contains(o) <==> self.needs_remesh(position, o) by {
                if self.needs_remesh(position, o) {
                    if o == own {
                        assert(candidates@[0] == o);
                    } else if local.x == 0 && o == (ChunkPos { x: (own.x - 1) as i32, z: own.z }) {
                        assert(candidates@[1] == o);
                    } else if local.x == 15 && o == (ChunkPos { x: (own.x + 1) as i32, z: own.z }) {
                        assert(candidates@[2] == o);
                    } else if local.z == 0 && o == (ChunkPos { x: own.x, z: (own.z - 1) as i32 }) {
                        assert(candidates@[3] == o);
                    } else {
                        assert(candidates@[4] == o);
                    }
                }
            }
        }
        r
    }

    /// A chunk found at position `i` is the one `index_of` names.
    pub proof fn lemma_index_of(&self, i: int)
        requires
            self.wf(),
            0 <= i < self.chunks@.len(),
        ensures
            self.has(self.chunks@[i].origin),
            self.index_of(self.chunks@[i].origin) == i,
    {
        let o = self.chunks@[i].origin;
        assert(self.chunks@[i].origin == o);
        let j = self.index_of(o);
        assert(0 <= j < self.chunks@.len() && self.chunks@[j].origin == o);
    }

    /// Replacing chunk `i` by one with the same origin keeps the manager
    /// well formed and changes only what that chunk holds.
    pub proof fn lemma_replace_chunk(&self, other: ChunkManager, i: int)
        requires
            self.wf(),
            0 <= i < self.chunks@.len(),
            other.chunks@.len() == self.chunks@.len(),
            other.chunks@[i].wf(),
            other.chunks@[i].origin == self.chunks@[i].origin,
            forall|j: int| 0 <= j < self.chunks@.len() && j != i ==> other.chunks@[j] == self.chunks@[j],
        ensures
            other.wf(),
            forall|o: ChunkPos| other.has(o) == self.has(o),
            forall|o: ChunkPos| self.has(o) ==> other.index_of(o) == self.index_of(o),
            forall|o: ChunkPos|
                self.has(o) && o != self.chunks@[i].origin ==> other.chunk_at(o) == self.chunk_at(o),
            other.chunk_at(self.chunks@[i].origin) == other.chunks@[i],
    {
        assert forall|j: int| 0 <= j < other.chunks@.len() implies #[trigger] other.chunks@[j].wf() by {
            if j != i {
                assert(self.chunks@[j].wf());
            }
        }
        assert forall|j: int, k: int|
            0 <= j < other.chunks@.len() && 0 <= k < other.chunks@.len() && j != k
                implies other.chunks@[j].origin != other.chunks@[k].origin by {
            assert(other.chunks@[j].origin == self.chunks@[j].origin);
            assert(other.chunks@[k].origin == self.chunks@[k].origin);
        }
        assert forall|o: ChunkPos| other.has(o) == self.has(o) by {
            if self.has(o) {
                let j = self.index_of(o);
                assert(other.chunks@[j].origin == o);
            }
            if other.has(o) {
                let j = other.index_of(o);
                assert(self.chunks@[j].origin == o);
            }
        }
        assert forall|o: ChunkPos| self.has(o) implies other.index_of(o) == self.index_of(o) by {
            let j = self.index_of(o);
            assert(other.chunks@[j].origin == o);
            other.lemma_index_of(j);
        }
        other.lemma_index_of(i);
    }
}

} // verus!
