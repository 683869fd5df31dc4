use vstd::prelude::*;

use crate::chunk::{
    channel_of, chunk_of, local_in_range, neighbour, origin_in_range, sky_of, step, step_in_range,
    BlockPos, Chunk, ChunkPos, LocalPos, MAX_LIGHT,
};
use crate::chunk_manager::{lemma_world_dark_nonneg, world_dark, ChunkManager};
use crate::face::{Face, FACE_COUNT};
use crate::model::ModelRegistry;

verus! {

/// Light of the selected channel at a world position, as the manager reports it.
pub open spec fn level_at(cm: ChunkManager, p: BlockPos, sky: bool) -> int {
    channel_of(cm.light_value_at(p), sky)
}

/// Whether two managers hold chunks at the same places with the same blocks.
pub open spec fn same_blocks(before: ChunkManager, after: ChunkManager) -> bool {
    &&& forall|o: ChunkPos| #[trigger] after.has(o) == before.has(o)
    &&& forall|q: BlockPos| #[trigger] after.block_id_at(q) == before.block_id_at(q)
}

/// Whether the selected channel only rose and the other one stayed.
pub open spec fn channel_raised(before: ChunkManager, after: ChunkManager, sky: bool) -> bool {
    &&& forall|q: BlockPos| #[trigger] level_at(after, q, sky) >= level_at(before, q, sky)
    &&& forall|q: BlockPos|
        channel_of(#[trigger] after.light_value_at(q), !sky) == channel_of(before.light_value_at(q), !sky)
}

/// What a light pass may change: only the selected channel, and only upwards.
pub open spec fn light_raised(before: ChunkManager, after: ChunkManager, sky: bool) -> bool {
    &&& after.wf()
    &&& same_blocks(before, after)
    &&& channel_raised(before, after, sky)
}

/// Raising light composes.
pub proof fn lemma_light_raised_trans(a: ChunkManager, b: ChunkManager, c: ChunkManager, sky: bool)
    requires
        light_raised(a, b, sky),
        light_raised(b, c, sky),
    ensures
        light_raised(a, c, sky),
{
    assert forall|o: ChunkPos| #[trigger] c.has(o) == a.has(o) by {
        assert(b.has(o) == a.has(o));
        assert(c.has(o) == b.has(o));
    }
    assert forall|q: BlockPos| #[trigger] c.block_id_at(q) == a.block_id_at(q) by {
        assert(b.block_id_at(q) == a.block_id_at(q));
    }
    assert forall|q: BlockPos| #[trigger] level_at(c, q, sky) >= level_at(a, q, sky) by {
        assert(level_at(b, q, sky) >= level_at(a, q, sky));
        assert(level_at(c, q, sky) >= level_at(b, q, sky));
    }
    assert forall|q: BlockPos|
        channel_of(#[trigger] c.light_value_at(q), !sky) == channel_of(a.light_value_at(q), !sky) by {
        assert(channel_of(b.light_value_at(q), !sky) == channel_of(a.light_value_at(q), !sky));
        assert(channel_of(c.light_value_at(q), !sky) == channel_of(b.light_value_at(q), !sky));
    }
    assert(c.wf());
    assert(same_blocks(a, c));
    assert(channel_raised(a, c, sky));
}

/// Whether every loaded cell has no sky light.
pub open spec fn sky_dark(cm: ChunkManager) -> bool {
    forall|q: BlockPos| cm.loaded(q) ==> #[trigger] level_at(cm, q, true) == 0
}

/// A cell waiting to pass its light on: a local position and the chunk it belongs to.
#[derive(Debug, Clone, Copy, PartialEq, Eq, Structural)]
pub struct LightNode {
    pub position: LocalPos,
    pub origin: ChunkPos,
}

impl LightNode {
    /// The local position of the node.
    pub fn get_position(&self) -> (r: LocalPos)
        ensures
            r == self.position,
    {
        self.position
    }
}

/// World position of a queued cell.
pub open spec fn node_pos(n: LightNode) -> BlockPos {
    BlockPos {
        x: (n.origin.x * 16 + n.position.x) as i32,
        y: n.position.y as i32,
        z: (n.origin.z * 16 + n.position.z) as i32,
    }
}

/// Whether a world position waits in the work list.
pub open spec fn queued(q: Seq<LightNode>, a: BlockPos) -> bool {
    exists|i: int| 0 <= i < q.len() && #[trigger] node_pos(q[i]) == a
}

/// The level a neighbour across `f` receives from a cell at `level`: one
/// less, except that full sky light going straight down keeps its level.
pub open spec fn spread_level(level: int, f: Face, sky: bool) -> int {
    if sky && f == Face::Bottom && level == 15 {
        15
    } else {
        level - 1
    }
}

/// Whether the light at `a` has been passed on across face `f`: a loaded,
/// non-opaque neighbour there is at least as bright as `spread_level`.
pub open spec fn passed_on(cm: ChunkManager, reg: ModelRegistry, sky: bool, a: BlockPos, f: Face) -> bool {
    step_in_range(a, f) && cm.loaded(step(a, f)) && !reg.opaque_id(cm.block_id_at(step(a, f)))
        ==> level_at(cm, step(a, f), sky) >= spread_level(level_at(cm, a, sky), f, sky)
}

/// Whether cell `a` is opaque or has passed its light on across every face.
pub open spec fn settled_at(cm: ChunkManager, reg: ModelRegistry, sky: bool, a: BlockPos) -> bool {
    reg.opaque_id(cm.block_id_at(a)) || forall|f: Face| #[trigger] passed_on(cm, reg, sky, a, f)
}

/// Whether every loaded cell has passed its light on.
pub open spec fn all_settled(cm: ChunkManager, reg: ModelRegistry, sky: bool) -> bool {
    forall|a: BlockPos| cm.loaded(a) ==> #[trigger] settled_at(cm, reg, sky, a)
}

/// Whether every loaded cell that does not wait in `q` has passed its light on.
pub open spec fn settled_except(cm: ChunkManager, reg: ModelRegistry, sky: bool, q: Seq<LightNode>) -> bool {
    forall|a: BlockPos| cm.loaded(a) && !queued(q, a) ==> #[trigger] settled_at(cm, reg, sky, a)
}

/// A cell that passed its light on keeps that property while only other
/// cells get brighter.
pub proof fn lemma_settled_kept(
    before: ChunkManager,
    after: ChunkManager,
    reg: ModelRegistry,
    sky: bool,
    a: BlockPos,
)
    requires
        light_raised(before, after, sky),
        level_at(after, a, sky) == level_at(before, a, sky),
        settled_at(before, reg, sky, a),
    ensures
        settled_at(after, reg, sky, a),
{
    assert(after.block_id_at(a) == before.block_id_at(a));
    if !reg.opaque_id(before.block_id_at(a)) {
        assert forall|f: Face| #[trigger] passed_on(after, reg, sky, a, f) by {
            assert(passed_on(before, reg, sky, a, f));
            if step_in_range(a, f) {
                let b = step(a, f);
                assert(after.block_id_at(b) == before.block_id_at(b));
                assert(after.has(chunk_of(b)) == before.has(chunk_of(b)));
                assert(level_at(after, b, sky) >= level_at(before, b, sky));
            }
        }
    }
}

/// A cell that passed its light on keeps that property when only a cell
/// other than it and its neighbours changes.
pub proof fn lemma_settled_away(
    before: ChunkManager,
    after: ChunkManager,
    reg: ModelRegistry,
    sky: bool,
    p: BlockPos,
    a: BlockPos,
)
    requires
        settled_at(before, reg, sky, a),
        a != p,
        forall|f: Face| !#[trigger] beside(p, f, a),
        forall|o: ChunkPos| after.has(o) == before.has(o),
        forall|q: BlockPos|
            q != p ==> after.block_id_at(q) == before.block_id_at(q) && after.light_value_at(q)
                == before.light_value_at(q),
    ensures
        settled_at(after, reg, sky, a),
{
    assert(after.block_id_at(a) == before.block_id_at(a));
    if !reg.opaque_id(before.block_id_at(a)) {
        assert forall|f: Face| #[trigger] passed_on(after, reg, sky, a, f) by {
            assert(passed_on(before, reg, sky, a, f));
            if step_in_range(a, f) {
                let b = step(a, f);
                lemma_step_back(a, f);
                if b == p {
                    assert(beside(p, f.opposite_of(), a));
                }
                assert(after.has(chunk_of(b)) == before.has(chunk_of(b)));
            }
        }
    }
}

/// Once every loaded cell has passed its sky light on, full sky light goes
/// straight down undiminished: an open cell below an open cell at level 15
/// is at level 15 too.
pub proof fn lemma_settled_sky_column(cm: ChunkManager, reg: ModelRegistry, a: BlockPos)
    requires
        all_settled(cm, reg, true),
        cm.loaded(a),
        !reg.opaque_id(cm.block_id_at(a)),
        level_at(cm, a, true) == 15,
        step_in_range(a, Face::Bottom),
        cm.loaded(step(a, Face::Bottom)),
        !reg.opaque_id(cm.block_id_at(step(a, Face::Bottom))),
    ensures
        level_at(cm, step(a, Face::Bottom), true) == 15,
{
    assert(settled_at(cm, reg, true, a));
    assert(passed_on(cm, reg, true, a, Face::Bottom));
    crate::chunk::lemma_light_bounds(cm.light_value_at(step(a, Face::Bottom)));
}

/// Stepping across a face and back returns to the start.
pub proof fn lemma_step_back(a: BlockPos, f: Face)
    requires
        step_in_range(a, f),
    ensures
        step_in_range(step(a, f), f.opposite_of()),
        step(step(a, f), f.opposite_of()) == a,
{
}

/// Once every loaded cell has passed its light on, the light of any two
/// face-adjacent loaded cells that are not opaque differs by at most one
/// level (full sky light going straight down keeps its level, which this
/// allows).
pub proof fn lemma_settled_light_is_smooth(
    cm: ChunkManager,
    reg: ModelRegistry,
    sky: bool,
    a: BlockPos,
    f: Face,
)
    requires
        forall|c: BlockPos| cm.loaded(c) ==> #[trigger] settled_at(cm, reg, sky, c),
        step_in_range(a, f),
        cm.loaded(a),
        cm.loaded(step(a, f)),
        !reg.opaque_id(cm.block_id_at(a)),
        !reg.opaque_id(cm.block_id_at(step(a, f))),
    ensures
        -1 <= level_at(cm, a, sky) - level_at(cm, step(a, f), sky) <= 1,
{
    let b = step(a, f);
    lemma_step_back(a, f);
    assert(settled_at(cm, reg, sky, a));
    assert(passed_on(cm, reg, sky, a, f));
    assert(settled_at(cm, reg, sky, b));
    assert(passed_on(cm, reg, sky, b, f.opposite_of()));
}

/// Work list of a breadth-first light flood fill (used as a stack).
pub struct BfsLight {
    pub queue: Vec<LightNode>,
}

impl BfsLight {
    pub open spec fn wf(&self) -> bool {
        forall|i: int|
            0 <= i < self.queue@.len() ==> local_in_range(#[trigger] self.queue@[i].position)
                && origin_in_range(self.queue@[i].origin)
    }

    /// An empty work list.
    pub fn new() -> (r: BfsLight)
        ensures
            r.wf(),
            r.queue@.len() == 0,
    {
        BfsLight { queue: Vec::new() }
    }

    /// Adds a cell whose light should spread.
    pub fn push(&mut self, node: LightNode)
        requires
            old(self).wf(),
            local_in_range(node.position),
            origin_in_range(node.origin),
        ensures
            final(self).wf(),
            final(self).queue@ == old(self).queue@.push(node),
    {
        self.queue.push(node);
    }

    /// Spreads light from the queued cells until the work list is empty.
    ///
    /// A neighbour across any face that lies in a loaded chunk within the
    /// world's height and is not opaque is offered `spread_level`: one level
    /// less than the cell, or 15 for full sky light going straight down. It
    /// takes that level and is queued itself when it is darker; away from
    /// sky columns this is when it is at least two levels below the cell.
    /// Every such step raises one cell's level, so the list empties. Opaque
    /// cells keep their light.
    ///
    /// When every loaded cell outside the work list has passed its light on
    /// beforehand, every loaded cell has done so once the list is empty.
    pub fn calculate(&mut self, chunk_manager: &mut ChunkManager, models: &ModelRegistry, sky: bool)
        requires
            old(self).wf(),
            old(chunk_manager).wf(),
            models.wf(),
        ensures
            final(self).wf(),
            final(self).queue@.len() == 0,
            light_raised(*old(chunk_manager), *final(chunk_manager), sky),
            forall|c: BlockPos|
                models.opaque_id(#[trigger] old(chunk_manager).block_id_at(c)) ==> level_at(
                    *final(chunk_manager),
                    c,
                    sky,
                ) == level_at(*old(chunk_manager), c, sky),
            settled_except(*old(chunk_manager), *models, sky, old(self).queue@) ==> settled_except(
                *final(chunk_manager),
                *models,
                sky,
                final(self).queue@,
            ),
    {
        let ghost start = *chunk_manager;
        let ghost tracking = settled_except(*chunk_manager, *models, sky, self.queue@);
        proof {
            lemma_world_dark_nonneg(chunk_manager.chunks@, sky);
        }
        while self.queue.len() > 0
            invariant
                self.wf(),
                models.wf(),
                light_raised(start, *chunk_manager, sky),
                tracking ==> settled_except(*chunk_manager, *models, sky, self.queue@),
                world_dark(chunk_manager.chunks@, sky) >= 0,
                forall|c: BlockPos|
                    models.opaque_id(#[trigger] start.block_id_at(c)) ==> level_at(*chunk_manager, c, sky)
                        == level_at(start, c, sky),
            decreases 7 * world_dark(chunk_manager.chunks@, sky) + self.queue@.len(),
        {
            let ghost measure = 7 * world_dark(chunk_manager.chunks@, sky) + self.queue@.len();
            let ghost waiting = self.queue@;
            let node = self.queue.pop().unwrap();
            proof {
                assert(waiting[waiting.len() - 1] == node);
                assert(local_in_range(node.position) && origin_in_range(node.origin));
                assert forall|c: BlockPos| queued(self.queue@, c) implies queued(waiting, c) by {
                    let i = choose|i: int| 0 <= i < self.queue@.len() && #[trigger] node_pos(self.queue@[i]) == c;
                    assert(node_pos(waiting[i]) == c);
                }
                assert forall|c: BlockPos| queued(waiting, c) && c != node_pos(node) implies queued(self.queue@, c) by {
                    let i = choose|i: int| 0 <= i < waiting.len() && #[trigger] node_pos(waiting[i]) == c;
                    assert(i < waiting.len() - 1);
                    assert(node_pos(self.queue@[i]) == c);
                }
                if tracking {
                    assert forall|c: BlockPos|
                        chunk_manager.loaded(c) && !queued(self.queue@, c) && c != node_pos(node)
                            implies #[trigger] settled_at(*chunk_manager, *models, sky, c) by {
                        assert(!queued(waiting, c));
                    }
                }
            }
            match chunk_manager.get_chunk(node.origin) {
                Some(chunk) => {
                    let world = chunk.to_world(node.position);
                    let level = chunk.get_light(node.position, sky);
                    let ghost cm0 = *chunk_manager;
                    proof {
                        assert(world == node_pos(node));
                        crate::chunk::lemma_world_local_round_trip(*chunk, node.position);
                        chunk_manager.lemma_index_of(chunk_manager.index_of(node.origin));
                        assert(chunk_manager.loaded(world));
                        assert(level_at(*chunk_manager, world, sky) == level as int);
                    }
                    let mut i: usize = 0;
                    while i < FACE_COUNT
                        invariant
                            self.wf(),
                            models.wf(),
                            light_raised(start, *chunk_manager, sky),
                            light_raised(cm0, *chunk_manager, sky),
                            level <= MAX_LIGHT,
                            i <= FACE_COUNT,
                            level_at(*chunk_manager, world, sky) == level as int,
                            forall|c: BlockPos|
                                models.opaque_id(#[trigger] start.block_id_at(c)) ==> level_at(*chunk_manager, c, sky)
                                    == level_at(start, c, sky),
                            7 * world_dark(chunk_manager.chunks@, sky) + self.queue@.len() < measure,
                            tracking ==> forall|c: BlockPos|
                                chunk_manager.loaded(c) && !queued(self.queue@, c) && c != world
                                    ==> #[trigger] settled_at(*chunk_manager, *models, sky, c),
                            tracking ==> forall|f: Face|
                                f.index_of() < i ==> #[trigger] passed_on(*chunk_manager, *models, sky, world, f),
                        decreases FACE_COUNT - i,
                    {
                        let face = Face::from_normal_index(i);
                        let ghost cm1 = *chunk_manager;
                        let ghost q1 = self.queue@;
                        self.spread_to(chunk_manager, models, sky, world, face, level);
                        proof {
                            assert forall|c: BlockPos|
                                models.opaque_id(#[trigger] start.block_id_at(c)) implies level_at(*chunk_manager, c, sky)
                                    == level_at(start, c, sky) by {
                                assert(cm1.block_id_at(c) == start.block_id_at(c));
                                assert(models.opaque_id(cm1.block_id_at(c)));
                            }
                            lemma_world_dark_nonneg(chunk_manager.chunks@, sky);
                            lemma_light_raised_trans(cm0, cm1, *chunk_manager, sky);
                            lemma_light_raised_trans(start, cm1, *chunk_manager, sky);
                            if tracking {
                                assert(level_at(*chunk_manager, world, sky) == level as int) by {
                                    if step_in_range(world, face) {
                                        assert(world != step(world, face));
                                    }
                                }
                                assert forall|c: BlockPos|
                                    chunk_manager.loaded(c) && !queued(self.queue@, c) && c != world
                                        implies #[trigger] settled_at(*chunk_manager, *models, sky, c) by {
                                    if self.queue@ != q1 {
                                        assert(node_pos(self.queue@[self.queue@.len() - 1]) == step(world, face));
                                        assert(c != step(world, face));
                                    }
                                    assert forall|j: int| 0 <= j < q1.len() implies self.queue@[j] == q1[j] by {}
                                    if queued(q1, c) {
                                        let j = choose|j: int| 0 <= j < q1.len() && #[trigger] node_pos(q1[j]) == c;
                                        assert(node_pos(self.queue@[j]) == c);
                                    }
                                    assert(cm1.loaded(c));
                                    assert(settled_at(cm1, *models, sky, c));
                                    lemma_settled_kept(cm1, *chunk_manager, *models, sky, c);
                                }
                                assert forall|f: Face|
                                    f.index_of() < i + 1 implies #[trigger] passed_on(*chunk_manager, *models, sky, world, f) by {
                                    if f.index_of() < i {
                                        assert(passed_on(cm1, *models, sky, world, f));
                                        if step_in_range(world, f) {
                                            let b = step(world, f);
                                            assert(chunk_manager.block_id_at(b) == cm1.block_id_at(b));
                                            assert(chunk_manager.has(chunk_of(b)) == cm1.has(chunk_of(b)));
                                            assert(level_at(*chunk_manager, b, sky) >= level_at(cm1, b, sky));
                                        }
                                    } else {
                                        assert(f == face);
                                    }
                                }
                            }
                        }
                        i += 1;
                    }
                    proof {
                        if tracking {
                            assert(settled_at(*chunk_manager, *models, sky, world)) by {
                                assert forall|f: Face| #[trigger] passed_on(*chunk_manager, *models, sky, world, f) by {
                                    assert(f.index_of() < 6);
                                }
                            }
                            assert forall|c: BlockPos|
                                chunk_manager.loaded(c) && !queued(self.queue@, c)
                                    implies #[trigger] settled_at(*chunk_manager, *models, sky, c) by {
                                if c != world {
                                }
                            }
                        }
                    }
                },
                None => {
                    proof {
                        if tracking {
                            assert(!chunk_manager.loaded(node_pos(node))) by {
                                assert(chunk_of(node_pos(node)) == node.origin) by {
                                    let w = node_pos(node);
                                    assert(w.x as int == 16 * node.origin.x + node.position.x);
                                    assert(w.z as int == 16 * node.origin.z + node.position.z);
                                }
                            }
                            assert forall|c: BlockPos|
                                chunk_manager.loaded(c) && !queued(self.queue@, c)
                                    implies #[trigger] settled_at(*chunk_manager, *models, sky, c) by {
                                assert(c != node_pos(node));
                            }
                        }
                    }
                },
            }
            proof {
                lemma_world_dark_nonneg(chunk_manager.chunks@, sky);
            }
        }
    }

    /// Passes light at `level` from `from` to its neighbour across `face`.
    fn spread_to(
        &mut self,
        chunk_manager: &mut ChunkManager,
        models: &ModelRegistry,
        sky: bool,
        from: BlockPos,
        face: Face,
        level: u8,
    )
        requires
            old(self).wf(),
            old(chunk_manager).wf(),
            models.wf(),
            level <= MAX_LIGHT,
        ensures
            final(self).wf(),
            light_raised(*old(chunk_manager), *final(chunk_manager), sky),
            step_in_range(from, face) && final(chunk_manager).loaded(step(from, face))
                && !models.opaque_id(final(chunk_manager).block_id_at(step(from, face))) ==> level_at(
                *final(chunk_manager),
                step(from, face),
                sky,
            ) >= spread_level(level as int, face, sky),
            forall|c: BlockPos|
                models.opaque_id(#[trigger] old(chunk_manager).block_id_at(c)) ==> level_at(
                    *final(chunk_manager),
                    c,
                    sky,
                ) == level_at(*old(chunk_manager), c, sky),
            final(self).queue@ == old(self).queue@ || (step_in_range(from, face)
                && final(self).queue@ == old(self).queue@.push(final(self).queue@.last())
                && node_pos(final(self).queue@.last()) == step(from, face)),
            final(self).queue@ == old(self).queue@ ==> world_dark(final(chunk_manager).chunks@, sky)
                == world_dark(old(chunk_manager).chunks@, sky),
            final(self).queue@ != old(self).queue@ ==> world_dark(final(chunk_manager).chunks@, sky)
                < world_dark(old(chunk_manager).chunks@, sky),
            forall|c: BlockPos|
                (c != step(from, face) || final(self).queue@ == old(self).queue@) ==> #[trigger] level_at(
                    *final(chunk_manager),
                    c,
                    sky,
                ) == level_at(*old(chunk_manager), c, sky),
    {
        let ghost before = *chunk_manager;
        if let Some(target) = neighbour(from, face) {
            if target.y < 0 || target.y >= 256 || !chunk_manager.contains_chunk(target) {
                return;
            }
            let block = chunk_manager.get_block(target);
            let current = chunk_manager.get_light(target);
            let current_level = if sky {
                current / 16
            } else {
                current % 16
            };
            let new_level = if sky && face == Face::Bottom && level == 15 {
                level
            } else if level > 0 {
                level - 1
            } else {
                0
            };
            if !models.is_opaque_block(block) && current_level < new_level {
                chunk_manager.set_light(target, sky, new_level);
                let origin = ChunkManager::to_local(target);
                let local = LocalPos {
                    x: crate::chunk::rem16(target.x),
                    y: target.y as u16,
                    z: crate::chunk::rem16(target.z),
                };
                let node = LightNode { position: local, origin };
                proof {
                    assert(target.x as int == 16 * (target.x as int / 16) + target.x as int % 16);
                    assert(target.z as int == 16 * (target.z as int / 16) + target.z as int % 16);
                    assert(node_pos(node) == target);
                }
                self.push(node);
                proof {
                    assert forall|q: BlockPos| #[trigger]
                        level_at(*chunk_manager, q, sky) >= level_at(before, q, sky) && level_at(
                            *chunk_manager,
                            q,
                            !sky,
                        ) == level_at(before, q, !sky) && (q != target ==> level_at(*chunk_manager, q, sky)
                            == level_at(before, q, sky)) by {
                        if Chunk::local_of(q) == Chunk::local_of(target) && chunk_of(q) == chunk_of(
                            target,
                        ) && before.loaded(target) {
                            if before.loaded(q) {
                                crate::chunk::lemma_local_of_injective(q, target);
                            } else {
                                assert(chunk_manager.light_value_at(q) == before.light_value_at(q));
                            }
                        }
                    }
                    assert(level_at(*chunk_manager, target, sky) == new_level as int);
                    assert(level_at(before, target, sky) == current_level as int);
                    assert(world_dark(chunk_manager.chunks@, sky) == world_dark(before.chunks@, sky) - (15
                        - channel_of(before.light_value_at(target), sky)) + (15
                        - channel_of(chunk_manager.light_value_at(target), sky)));
                    assert(self.queue@.len() == old(self).queue@.len() + 1);
                }
            }
        }
    }
}

/// Seeds sky light: every column's top cell (Y = 255) that is not opaque gets
/// full sky light and spreads it through the loaded world.
pub fn generate_lights(chunk_manager: &mut ChunkManager, models: &ModelRegistry)
    requires
        old(chunk_manager).wf(),
        models.wf(),
    ensures
        final(chunk_manager).wf(),
        forall|o: ChunkPos| final(chunk_manager).has(o) == old(chunk_manager).has(o),
        forall|q: BlockPos| #[trigger]
            final(chunk_manager).block_id_at(q) == old(chunk_manager).block_id_at(q),
        forall|q: BlockPos|
            #![trigger final(chunk_manager).light_value_at(q)]
            old(chunk_manager).loaded(q) && q.y == 255 && !models.opaque_id(
                old(chunk_manager).block_id_at(q),
            ) ==> sky_of(final(chunk_manager).light_value_at(q)) == 15,
        forall|q: BlockPos|
            channel_of(#[trigger] final(chunk_manager).light_value_at(q), false) == channel_of(
                old(chunk_manager).light_value_at(q),
                false,
            ),
        sky_dark(*old(chunk_manager)) ==> forall|a: BlockPos|
            final(chunk_manager).loaded(a) ==> #[trigger] settled_at(*final(chunk_manager), *models, true, a),
{
    let mut bfs = BfsLight::new();
    let ghost start = *chunk_manager;
    let ghost dark = sky_dark(*chunk_manager);
    let mut ci: usize = 0;
    while ci < chunk_manager.len()
        invariant
            bfs.wf(),
            models.wf(),
            start.wf(),
            chunk_manager.wf(),
            chunk_manager.chunks@.len() == start.chunks@.len(),
            forall|j: int|
                0 <= j < start.chunks@.len() ==> (#[trigger] chunk_manager.chunks@[j]).origin
                    == start.chunks@[j].origin,
            forall|o: ChunkPos| chunk_manager.has(o) == start.has(o),
            forall|q: BlockPos| #[trigger] chunk_manager.block_id_at(q) == start.block_id_at(q),
            forall|q: BlockPos|
                channel_of(#[trigger] chunk_manager.light_value_at(q), false) == channel_of(start.light_value_at(q), false),
            dark ==> forall|q: BlockPos|
                chunk_manager.loaded(q) && !queued(bfs.queue@, q) ==> #[trigger] level_at(*chunk_manager, q, true) == 0,
            forall|q: BlockPos|
                #![trigger chunk_manager.light_value_at(q)]
                start.loaded(q) && q.y == 255 && !models.opaque_id(start.block_id_at(q))
                    && start.index_of(chunk_of(q)) < ci ==> sky_of(chunk_manager.light_value_at(q))
                    == 15,
        decreases start.chunks@.len() - ci,
    {
        let origin = chunk_manager.chunks[ci].origin;
        let mut z: u16 = 0;
        while z < 16
            invariant
                bfs.wf(),
                models.wf(),
                start.wf(),
                chunk_manager.wf(),
                ci < chunk_manager.chunks@.len(),
                chunk_manager.chunks@.len() == start.chunks@.len(),
                origin == start.chunks@[ci as int].origin,
                forall|j: int|
                    0 <= j < start.chunks@.len() ==> (#[trigger] chunk_manager.chunks@[j]).origin
                        == start.chunks@[j].origin,
                forall|o: ChunkPos| chunk_manager.has(o) == start.has(o),
                forall|q: BlockPos| #[trigger] chunk_manager.block_id_at(q) == start.block_id_at(q),
                forall|q: BlockPos|
                    channel_of(#[trigger] chunk_manager.light_value_at(q), false) == channel_of(start.light_value_at(q), false),
                dark ==> forall|q: BlockPos|
                    chunk_manager.loaded(q) && !queued(bfs.queue@, q) ==> #[trigger] level_at(*chunk_manager, q, true) == 0,
                forall|q: BlockPos|
                    #![trigger chunk_manager.light_value_at(q)]
                    start.loaded(q) && q.y == 255 && !models.opaque_id(start.block_id_at(q)) && (
                    start.index_of(chunk_of(q)) < ci || (start.index_of(chunk_of(q)) == ci
                        && Chunk::local_of(q).z < z)) ==> sky_of(chunk_manager.light_value_at(q))
                        == 15,
            decreases 16 - z,
        {
            let mut x: u16 = 0;
            while x < 16
                invariant
                    bfs.wf(),
                    models.wf(),
                    start.wf(),
                    chunk_manager.wf(),
                    z < 16,
                    ci < chunk_manager.chunks@.len(),
                    chunk_manager.chunks@.len() == start.chunks@.len(),
                    origin == start.chunks@[ci as int].origin,
                    forall|j: int|
                        0 <= j < start.chunks@.len() ==> (#[trigger] chunk_manager.chunks@[j]).origin
                            == start.chunks@[j].origin,
                    forall|o: ChunkPos| chunk_manager.has(o) == start.has(o),
                    forall|q: BlockPos| #[trigger] chunk_manager.block_id_at(q) == start.block_id_at(q),
                    forall|q: BlockPos|
                        channel_of(#[trigger] chunk_manager.light_value_at(q), false) == channel_of(start.light_value_at(q), false),
                    dark ==> forall|q: BlockPos|
                        chunk_manager.loaded(q) && !queued(bfs.queue@, q) ==> #[trigger] level_at(*chunk_manager, q, true) == 0,
                    forall|q: BlockPos|
                        #![trigger chunk_manager.light_value_at(q)]
                        start.loaded(q) && q.y == 255 && !models.opaque_id(start.block_id_at(q)) && (
                        start.index_of(chunk_of(q)) < ci || (start.index_of(chunk_of(q)) == ci && (
                        Chunk::local_of(q).z < z || (Chunk::local_of(q).z == z && Chunk::local_of(
                            q,
                        ).x < x)))) ==> sky_of(chunk_manager.light_value_at(q)) == 15,
                decreases 16 - x,
            {
                let local = LocalPos { x, y: 255, z };
                let world = chunk_manager.chunks[ci].to_world(local);
                proof {
                    assert(chunk_manager.chunks@[ci as int].wf());
                    crate::chunk::lemma_world_local_round_trip(chunk_manager.chunks@[ci as int], local);
                    chunk_manager.lemma_index_of(ci as int);
                }
                let block = chunk_manager.get_block(world);
                if !models.is_opaque_block(block) {
                    let ghost before = *chunk_manager;
                    let ghost q0 = bfs.queue@;
                    chunk_manager.set_light(world, true, MAX_LIGHT);
                    let node = LightNode { position: local, origin };
                    bfs.push(node);
                    proof {
                        assert forall|q: BlockPos|
                            channel_of(#[trigger] chunk_manager.light_value_at(q), false) == channel_of(start.light_value_at(q), false) by {
                            if before.loaded(q) && chunk_of(q) == chunk_of(world) && Chunk::local_of(q) == Chunk::local_of(world) {
                                crate::chunk::lemma_local_of_injective(q, world);
                            }
                            assert(channel_of(before.light_value_at(q), false) == channel_of(start.light_value_at(q), false));
                        }
                        assert(node_pos(node) == world);
                        assert(node_pos(bfs.queue@[bfs.queue@.len() - 1]) == world);
                        if dark {
                            assert forall|q: BlockPos|
                                chunk_manager.loaded(q) && !queued(bfs.queue@, q) implies #[trigger] level_at(*chunk_manager, q, true) == 0 by {
                                assert(q != world);
                                if queued(q0, q) {
                                    let j = choose|j: int| 0 <= j < q0.len() && #[trigger] node_pos(q0[j]) == q;
                                    assert(node_pos(bfs.queue@[j]) == q);
                                }
                                if before.loaded(q) && chunk_of(q) == chunk_of(world) && Chunk::local_of(q) == Chunk::local_of(world) {
                                    crate::chunk::lemma_local_of_injective(q, world);
                                }
                                assert(chunk_manager.light_value_at(q) == before.light_value_at(q));
                                assert(before.loaded(q));
                                assert(!queued(q0, q));
                                assert(level_at(before, q, true) == 0);
                            }
                        }
                        start.lemma_index_of(ci as int);
                        assert forall|q: BlockPos|
                            #![trigger chunk_manager.light_value_at(q)]
                            start.loaded(q) && q.y == 255 && !models.opaque_id(start.block_id_at(q))
                                && (start.index_of(chunk_of(q)) < ci || (start.index_of(chunk_of(q))
                                == ci && (Chunk::local_of(q).z < z || (Chunk::local_of(q).z == z
                                && Chunk::local_of(q).x < x + 1)))) implies sky_of(
                            chunk_manager.light_value_at(q),
                        ) == 15 by {
                            if start.index_of(chunk_of(q)) == ci && Chunk::local_of(q).z == z
                                && Chunk::local_of(q).x == x {
                                crate::chunk::lemma_local_of_injective(q, world);
                            } else if before.loaded(q) && chunk_of(q) == chunk_of(world)
                                && Chunk::local_of(q) == Chunk::local_of(world) {
                                crate::chunk::lemma_local_of_injective(q, world);
                            }
                        }
                    }
                }
                x += 1;
            }
            z += 1;
        }
        ci += 1;
    }
    let ghost seeded = *chunk_manager;
    proof {
        if dark {
            assert forall|a: BlockPos| chunk_manager.loaded(a) && !queued(bfs.queue@, a) implies #[trigger] settled_at(*chunk_manager, *models, true, a) by {
                assert(level_at(*chunk_manager, a, true) == 0);
                assert forall|f: Face| #[trigger] passed_on(*chunk_manager, *models, true, a, f) by {
                    if step_in_range(a, f) {
                        crate::chunk::lemma_light_bounds(chunk_manager.light_value_at(step(a, f)));
                    }
                }
            }
        }
    }
    bfs.calculate(chunk_manager, models, true);
    proof {
        assert forall|q: BlockPos|
            channel_of(#[trigger] chunk_manager.light_value_at(q), false) == channel_of(start.light_value_at(q), false) by {
            assert(channel_of(chunk_manager.light_value_at(q), !true) == channel_of(seeded.light_value_at(q), !true));
        }
        if dark {
            assert forall|a: BlockPos| chunk_manager.loaded(a) implies #[trigger] settled_at(*chunk_manager, *models, true, a) by {
                assert(!queued(bfs.queue@, a));
            }
        }
        assert forall|q: BlockPos|
            #![trigger chunk_manager.light_value_at(q)]
            start.loaded(q) && q.y == 255 && !models.opaque_id(start.block_id_at(q)) implies sky_of(
            chunk_manager.light_value_at(q),
        ) == 15 by {
            assert(level_at(*chunk_manager, q, true) >= level_at(seeded, q, true));
        }
    }
}

/// Places a block-light source: the cell at `position` gets block light
/// `level`, which then spreads through the loaded world. Nothing happens
/// outside the loaded world.
pub fn set_block_light(
    chunk_manager: &mut ChunkManager,
    models: &ModelRegistry,
    position: BlockPos,
    level: u8,
)
    requires
        old(chunk_manager).wf(),
        models.wf(),
        level <= MAX_LIGHT,
    ensures
        final(chunk_manager).wf(),
        forall|o: ChunkPos| final(chunk_manager).has(o) == old(chunk_manager).has(o),
        forall|q: BlockPos| #[trigger]
            final(chunk_manager).block_id_at(q) == old(chunk_manager).block_id_at(q),
        forall|q: BlockPos| #[trigger]
            level_at(*final(chunk_manager), q, true) == level_at(*old(chunk_manager), q, true),
        old(chunk_manager).loaded(position) ==> level_at(*final(chunk_manager), position, false)
            >= level,
        forall|q: BlockPos|
            q != position ==> #[trigger] level_at(*final(chunk_manager), q, false) >= level_at(
                *old(chunk_manager),
                q,
                false,
            ),
        all_settled(*old(chunk_manager), *models, false) && level >= level_at(
            *old(chunk_manager),
            position,
            false,
        ) ==> all_settled(*final(chunk_manager), *models, false),
{
    let ghost start = *chunk_manager;
    let ghost tracking = all_settled(start, *models, false) && level >= level_at(start, position, false);
    let mut bfs = BfsLight::new();
    if 0 <= position.y && position.y < 256 && chunk_manager.contains_chunk(position) {
        chunk_manager.set_light(position, false, level);
        let origin = ChunkManager::to_local(position);
        let local = LocalPos {
            x: crate::chunk::rem16(position.x),
            y: position.y as u16,
            z: crate::chunk::rem16(position.z),
        };
        let node = LightNode { position: local, origin };
        bfs.push(node);
        proof {
            assert forall|q: BlockPos| q != position implies #[trigger] level_at(*chunk_manager, q, false)
                == level_at(start, q, false) && level_at(*chunk_manager, q, true) == level_at(start, q, true) by {
                if start.loaded(q) && chunk_of(q) == chunk_of(position) && Chunk::local_of(q)
                    == Chunk::local_of(position) {
                    crate::chunk::lemma_local_of_injective(q, position);
                }
            }
            assert(position.x as int == 16 * (position.x as int / 16) + position.x as int % 16);
            assert(position.z as int == 16 * (position.z as int / 16) + position.z as int % 16);
            assert(node_pos(node) == position);
            assert(node_pos(bfs.queue@[0]) == position);
            if tracking {
                assert(channel_raised(start, *chunk_manager, false)) by {
                    assert forall|q: BlockPos| #[trigger] level_at(*chunk_manager, q, false) >= level_at(start, q, false) by {
                        if q != position {
                            assert(level_at(*chunk_manager, q, true) == level_at(start, q, true));
                        }
                    }
                    assert forall|q: BlockPos|
                        channel_of(#[trigger] chunk_manager.light_value_at(q), !false) == channel_of(start.light_value_at(q), !false) by {
                        if q != position {
                            assert(level_at(*chunk_manager, q, true) == level_at(start, q, true));
                        }
                    }
                }
                assert(light_raised(start, *chunk_manager, false));
                assert forall|a: BlockPos| chunk_manager.loaded(a) && !queued(bfs.queue@, a)
                    implies #[trigger] settled_at(*chunk_manager, *models, false, a) by {
                    if a == position {
                        assert(queued(bfs.queue@, a));
                    }
                    assert(start.loaded(a));
                    assert(level_at(*chunk_manager, a, false) == level_at(start, a, false));
                    lemma_settled_kept(start, *chunk_manager, *models, false, a);
                }
            }
        }
    } else {
        proof {
            if tracking {
                assert forall|a: BlockPos| chunk_manager.loaded(a) && !queued(bfs.queue@, a)
                    implies #[trigger] settled_at(*chunk_manager, *models, false, a) by {}
            }
        }
    }
    let ghost seeded = *chunk_manager;
    bfs.calculate(chunk_manager, models, false);
    proof {
        assert(level_at(*chunk_manager, position, false) >= level_at(seeded, position, false));
        assert forall|q: BlockPos| #[trigger] level_at(*chunk_manager, q, true) == level_at(start, q, true) by {
            assert(level_at(*chunk_manager, q, false) >= level_at(seeded, q, false));
            assert(level_at(*chunk_manager, q, true) == level_at(seeded, q, true));
        }
        assert forall|q: BlockPos| q != position implies #[trigger] level_at(*chunk_manager, q, false)
            >= level_at(start, q, false) by {
            assert(level_at(*chunk_manager, q, false) >= level_at(seeded, q, false));
        }
        if tracking {
            assert forall|a: BlockPos| chunk_manager.loaded(a) implies #[trigger] settled_at(*chunk_manager, *models, false, a) by {
                assert(!queued(bfs.queue@, a));
            }
        }
    }
}

/// Whether `a` is the neighbour of `p` across face `f`.
pub open spec fn beside(p: BlockPos, f: Face, a: BlockPos) -> bool {
    step_in_range(p, f) && step(p, f) == a
}

/// Whether every loaded cell has passed its light on, except possibly `p`
/// and its six neighbours.
pub open spec fn settled_around(cm: ChunkManager, reg: ModelRegistry, sky: bool, p: BlockPos) -> bool {
    forall|a: BlockPos|
        cm.loaded(a) && a != p && (forall|f: Face| !#[trigger] beside(p, f, a)) ==> #[trigger] settled_at(
            cm,
            reg,
            sky,
            a,
        )
}

/// Queues a loaded, non-opaque cell.
fn queue_if_open(bfs: &mut BfsLight, chunk_manager: &ChunkManager, models: &ModelRegistry, p: BlockPos)
    requires
        old(bfs).wf(),
        chunk_manager.wf(),
        models.wf(),
    ensures
        final(bfs).wf(),
        forall|a: BlockPos| queued(old(bfs).queue@, a) ==> queued(final(bfs).queue@, a),
        chunk_manager.loaded(p) && !models.opaque_id(chunk_manager.block_id_at(p)) ==> queued(
            final(bfs).queue@,
            p,
        ),
{
    if 0 <= p.y && p.y < 256 && chunk_manager.contains_chunk(p) && !models.is_opaque_block(
        chunk_manager.get_block(p),
    ) {
        let ghost q0 = bfs.queue@;
        let origin = ChunkManager::to_local(p);
        let local = LocalPos {
            x: crate::chunk::rem16(p.x),
            y: p.y as u16,
            z: crate::chunk::rem16(p.z),
        };
        let node = LightNode { position: local, origin };
        proof {
            assert(p.x as int == 16 * (p.x as int / 16) + p.x as int % 16);
            assert(p.z as int == 16 * (p.z as int / 16) + p.z as int % 16);
            assert(node_pos(node) == p);
        }
        bfs.push(node);
        proof {
            assert(node_pos(bfs.queue@[bfs.queue@.len() - 1]) == p);
            assert forall|a: BlockPos| queued(q0, a) implies queued(bfs.queue@, a) by {
                let j = choose|j: int| 0 <= j < q0.len() && #[trigger] node_pos(q0[j]) == a;
                assert(node_pos(bfs.queue@[j]) == a);
            }
        }
    }
}

/// Re-spreads sky light after the block at `position` changed: the cell and
/// its loaded neighbours that are not opaque pass their sky light on again.
/// When every other loaded cell had passed its sky light on before, every
/// loaded cell has afterwards.
pub fn update_block_sky_light(
    chunk_manager: &mut ChunkManager,
    models: &ModelRegistry,
    position: BlockPos,
)
    requires
        old(chunk_manager).wf(),
        models.wf(),
    ensures
        light_raised(*old(chunk_manager), *final(chunk_manager), true),
        settled_around(*old(chunk_manager), *models, true, position) ==> all_settled(
            *final(chunk_manager),
            *models,
            true,
        ),
{
    let ghost start = *chunk_manager;
    let mut bfs = BfsLight::new();
    queue_if_open(&mut bfs, chunk_manager, models, position);
    let mut i: usize = 0;
    while i < FACE_COUNT
        invariant
            bfs.wf(),
            models.wf(),
            chunk_manager.wf(),
            *chunk_manager == start,
            i <= FACE_COUNT,
            start.loaded(position) && !models.opaque_id(start.block_id_at(position)) ==> queued(
                bfs.queue@,
                position,
            ),
            forall|f: Face, a: BlockPos|
                f.index_of() < i && #[trigger] beside(position, f, a) && start.loaded(a)
                    && !models.opaque_id(start.block_id_at(a)) ==> queued(bfs.queue@, a),
        decreases FACE_COUNT - i,
    {
        let face = Face::from_normal_index(i);
        let ghost q0 = bfs.queue@;
        if let Some(next) = neighbour(position, face) {
            queue_if_open(&mut bfs, chunk_manager, models, next);
        }
        proof {
            assert forall|f: Face, a: BlockPos|
                f.index_of() < i + 1 && #[trigger] beside(position, f, a) && start.loaded(a)
                    && !models.opaque_id(start.block_id_at(a)) implies queued(bfs.queue@, a) by {
                if f.index_of() < i {
                    assert(queued(q0, a));
                } else {
                    assert(f == face);
                }
            }
        }
        i += 1;
    }
    proof {
        if settled_around(start, *models, true, position) {
            assert forall|a: BlockPos| chunk_manager.loaded(a) && !queued(bfs.queue@, a)
                implies #[trigger] settled_at(*chunk_manager, *models, true, a) by {
                if a != position && (forall|f: Face| !#[trigger] beside(position, f, a)) {
                } else if a == position {
                    assert(models.opaque_id(start.block_id_at(a)));
                } else {
                    let f = choose|f: Face| #[trigger] beside(position, f, a);
                    assert(f.index_of() < 6);
                    assert(models.opaque_id(start.block_id_at(a)));
                }
            }
        }
    }
    bfs.calculate(chunk_manager, models, true);
    proof {
        if settled_around(start, *models, true, position) {
            assert forall|a: BlockPos| chunk_manager.loaded(a) implies #[trigger] settled_at(*chunk_manager, *models, true, a) by {
                assert(!queued(bfs.queue@, a));
            }
        }
    }
}

/// Removes the block at `position`: the cell becomes air, a cell at the
/// world's ceiling gets full sky light, sky light flows back in from the
/// neighbouring air cells, and the chunks whose meshes depend on the cell are
/// returned. Nothing happens outside the loaded world.
pub fn remove_block(chunk_manager: &mut ChunkManager, models: &ModelRegistry, position: BlockPos) -> (r: Vec<ChunkPos>)
    requires
        old(chunk_manager).wf(),
        models.wf(),
    ensures
        final(chunk_manager).wf(),
        forall|o: ChunkPos| final(chunk_manager).has(o) == old(chunk_manager).has(o),
        forall|q: BlockPos| #[trigger]
            final(chunk_manager).block_id_at(q) == (if q == position {
                0
            } else {
                old(chunk_manager).block_id_at(q)
            }),
        forall|q: BlockPos| #[trigger]
            level_at(*final(chunk_manager), q, true) >= level_at(*old(chunk_manager), q, true),
        forall|q: BlockPos|
            channel_of(#[trigger] final(chunk_manager).light_value_at(q), false) == channel_of(
                old(chunk_manager).light_value_at(q),
                false,
            ),
        old(chunk_manager).loaded(position) && position.y == 255 ==> level_at(
            *final(chunk_manager),
            position,
            true,
        ) == 15,
        !old(chunk_manager).loaded(position) ==> r@.len() == 0,
        old(chunk_manager).loaded(position) ==> forall|o: ChunkPos|
            r@.contains(o) <==> old(chunk_manager).needs_remesh(position, o),
        all_settled(*old(chunk_manager), *models, true) ==> all_settled(
            *final(chunk_manager),
            *models,
            true,
        ),
{
    let ghost start = *chunk_manager;
    if position.y < 0 || position.y >= 256 || !chunk_manager.contains_chunk(position) {
        return Vec::new();
    }
    chunk_manager.set_block(position, 0);
    let ghost cleared = *chunk_manager;
    proof {
        assert forall|q: BlockPos| #[trigger] level_at(cleared, q, true) == level_at(start, q, true) by {}
    }
    if position.y == 255 {
        chunk_manager.set_light(position, true, MAX_LIGHT);
        proof {
            assert forall|q: BlockPos| #[trigger] level_at(*chunk_manager, q, true) >= level_at(start, q, true)
                && channel_of(chunk_manager.light_value_at(q), false) == channel_of(start.light_value_at(q), false) by {
                if cleared.loaded(q) && chunk_of(q) == chunk_of(position) && Chunk::local_of(q) == Chunk::local_of(position) {
                    crate::chunk::lemma_local_of_injective(q, position);
                }
                crate::chunk::lemma_light_bounds(start.light_value_at(q));
            }
        }
    }
    let ghost lit = *chunk_manager;
    proof {
        if all_settled(start, *models, true) {
            assert forall|q: BlockPos| q != position implies lit.block_id_at(q) == start.block_id_at(q)
                && lit.light_value_at(q) == start.light_value_at(q) by {
                assert(lit.block_id_at(q) == start.block_id_at(q));
                if cleared.loaded(q) && cleared.loaded(position) && chunk_of(q) == chunk_of(position)
                    && Chunk::local_of(q) == Chunk::local_of(position) {
                    crate::chunk::lemma_local_of_injective(q, position);
                }
                assert(cleared.light_value_at(q) == start.light_value_at(q));
            }
            assert forall|a: BlockPos|
                lit.loaded(a) && a != position && (forall|f: Face| !#[trigger] beside(position, f, a))
                    implies #[trigger] settled_at(lit, *models, true, a) by {
                assert(start.loaded(a));
                lemma_settled_away(start, lit, *models, true, position, a);
            }
        }
    }
    update_block_sky_light(chunk_manager, models, position);
    proof {
        assert forall|q: BlockPos| #[trigger] level_at(*chunk_manager, q, true) >= level_at(start, q, true) by {
            assert(level_at(*chunk_manager, q, true) >= level_at(lit, q, true));
        }
        assert forall|q: BlockPos|
            channel_of(#[trigger] chunk_manager.light_value_at(q), false) == channel_of(start.light_value_at(q), false) by {
            assert(channel_of(chunk_manager.light_value_at(q), false) == channel_of(lit.light_value_at(q), false));
        }
        assert forall|q: BlockPos| #[trigger] chunk_manager.block_id_at(q) == (if q == position {
            0
        } else {
            start.block_id_at(q)
        }) by {
            assert(chunk_manager.block_id_at(q) == lit.block_id_at(q));
        }
        if position.y == 255 {
            assert(level_at(*chunk_manager, position, true) >= level_at(lit, position, true));
            crate::chunk::lemma_light_bounds(chunk_manager.light_value_at(position));
        }
    }
    let r = chunk_manager.chunks_to_remesh(position);
    proof {
        assert forall|o: ChunkPos| r@.contains(o) <==> start.needs_remesh(position, o) by {
            assert(chunk_manager.has(o) == start.has(o));
        }
    }
    r
}

} // verus!
