use vstd::prelude::*;

use crate::chunk::BlockPos;
use crate::chunk_manager::ChunkManager;
use crate::color::Color;
use crate::face::{Axis, Face, FACE_COUNT};

verus! {

/// Model coordinates are in sixteenths of a block: the unit cube spans `0..=16`.
pub const MODEL_UNIT: i32 = 16;

/// Largest magnitude of a model coordinate, in sixteenths.
pub const MODEL_EXTENT: i32 = 1024;

/// Number of distinct block IDs.
pub const BLOCK_ID_COUNT: usize = 256;

/// An axis-aligned box in model space (sixteenths of a block).
#[derive(Debug, Clone, Copy, PartialEq, Eq, Structural)]
pub struct Cuboid {
    pub x: i32,
    pub y: i32,
    pub z: i32,
    pub width: i32,
    pub height: i32,
    pub depth: i32,
}

impl Cuboid {
    pub open spec fn wf(&self) -> bool {
        &&& -MODEL_EXTENT <= self.x <= MODEL_EXTENT
        &&& -MODEL_EXTENT <= self.y <= MODEL_EXTENT
        &&& -MODEL_EXTENT <= self.z <= MODEL_EXTENT
        &&& 0 <= self.width <= MODEL_EXTENT
        &&& 0 <= self.height <= MODEL_EXTENT
        &&& 0 <= self.depth <= MODEL_EXTENT
    }

    /// Whether the box is exactly the unit cube.
    pub open spec fn is_unit(&self) -> bool {
        self.x == 0 && self.y == 0 && self.z == 0 && self.width == MODEL_UNIT && self.height
            == MODEL_UNIT && self.depth == MODEL_UNIT
    }

    /// The unit cube.
    pub fn unit() -> (r: Cuboid)
        ensures
            r.wf(),
            r.is_unit(),
    {
        Cuboid { x: 0, y: 0, z: 0, width: MODEL_UNIT, height: MODEL_UNIT, depth: MODEL_UNIT }
    }

    /// Whether the box is exactly the unit cube.
    pub fn is_full_cube(&self) -> (r: bool)
        ensures
            r == self.is_unit(),
    {
        self.x == 0 && self.y == 0 && self.z == 0 && self.width == MODEL_UNIT && self.height
            == MODEL_UNIT && self.depth == MODEL_UNIT
    }
}

/// A rotation of an element about one axis through a pivot (model space).
#[derive(Debug, Clone, Copy, PartialEq, Eq, Structural)]
pub struct ElementRotation {
    pub axis: Axis,
    /// Angle in degrees.
    pub angle: i32,
    pub origin_x: i32,
    pub origin_y: i32,
    pub origin_z: i32,
}

/// Texture coordinates of one quad corner, in atlas pixels.
#[derive(Debug, Clone, Copy, PartialEq, Eq, Structural)]
pub struct Uv {
    pub u: u32,
    pub v: u32,
}

/// One face of an element, already resolved against the texture atlas.
#[derive(Debug, Clone, Copy, PartialEq, Eq)]
pub struct ElementFace {
    /// Direction the face points in.
    pub face: Face,
    /// When set, the face is also hidden by a neighbour that occludes it in this direction.
    pub cull_face: Option<Face>,
    /// Whether the model's tint colour applies to the face.
    pub tint: bool,
    /// Opaque faces go to the opaque bucket, the others to the translucent one.
    pub is_opaque: bool,
    /// Atlas coordinates of the four quad corners.
    pub uv: [Uv; 4],
}

/// A box of a block model with up to one face per direction.
#[derive(Debug, Clone)]
pub struct Element {
    pub cube: Cuboid,
    pub rotation: Option<ElementRotation>,
    /// Faces by direction, at `Face::normal_index`.
    pub faces: Vec<Option<ElementFace>>,
}

impl Element {
    pub open spec fn wf(&self) -> bool {
        &&& self.cube.wf()
        &&& self.faces@.len() == FACE_COUNT
        &&& forall|i: int|
            0 <= i < FACE_COUNT ==> (#[trigger] self.faces@[i]).is_some() ==> self.faces@[i].unwrap().face.index_of()
                == i
    }

    /// An element with no faces.
    pub fn new(cube: Cuboid, rotation: Option<ElementRotation>) -> (r: Element)
        requires
            cube.wf(),
        ensures
            r.wf(),
            r.cube == cube,
            r.rotation == rotation,
            forall|i: int| 0 <= i < FACE_COUNT ==> (#[trigger] r.faces@[i]).is_none(),
    {
        let mut faces: Vec<Option<ElementFace>> = Vec::new();
        let mut i: usize = 0;
        while i < FACE_COUNT
            invariant
                i <= FACE_COUNT,
                faces@.len() == i,
                forall|j: int| 0 <= j < i ==> (#[trigger] faces@[j]).is_none(),
            decreases FACE_COUNT - i,
        {
            faces.push(None);
            i += 1;
        }
        Element { cube, rotation, faces }
    }

    /// Sets the face in the slot of its direction.
    pub fn set_face(&mut self, face: ElementFace)
        requires
            old(self).wf(),
        ensures
            final(self).wf(),
            final(self).cube == old(self).cube,
            final(self).rotation == old(self).rotation,
            final(self).faces@ == old(self).faces@.update(face.face.index_of(), Some(face)),
    {
        let i = face.face.normal_index();
        self.faces.set(i, Some(face));
    }

    /// The face of the element pointing in `face`, if it has one.
    pub fn get_face(&self, face: Face) -> (r: Option<ElementFace>)
        requires
            self.wf(),
        ensures
            r == self.faces@[face.index_of()],
    {
        self.faces[face.normal_index()]
    }
}

/// Geometry and rendering data of one block type.
#[derive(Debug, Clone)]
pub struct BlockModel {
    /// Box used for collision and ray intercepts.
    pub bounding_box: Cuboid,
    /// Whether the block darkens the corners of faces next to it.
    pub ambient_occlusion: bool,
    /// Colour applied to faces with `tint` set; untinted faces stay white.
    pub tint: Option<Color>,
    pub elements: Vec<Element>,
}

/// Whether some element of the model is exactly the unit cube.
pub open spec fn model_opaque(m: BlockModel) -> bool {
    exists|i: int| 0 <= i < m.elements@.len() && (#[trigger] m.elements@[i]).cube.is_unit()
}

impl BlockModel {
    pub open spec fn wf(&self) -> bool {
        &&& self.bounding_box.wf()
        &&& forall|i: int| 0 <= i < self.elements@.len() ==> (#[trigger] self.elements@[i]).wf()
    }

    /// Whether some element of the model is exactly the unit cube; such a
    /// model blocks light and hides its neighbours' faces.
    pub fn is_opaque(&self) -> (r: bool)
        ensures
            r == model_opaque(*self),
    {
        let mut i: usize = 0;
        while i < self.elements.len()
            invariant
                i <= self.elements@.len(),
                forall|j: int| 0 <= j < i ==> !(#[trigger] self.elements@[j]).cube.is_unit(),
            decreases self.elements@.len() - i,
        {
            if self.elements[i].cube.is_full_cube() {
                return true;
            }
            i += 1;
        }
        false
    }
}

/// Block models by block ID.
pub struct ModelRegistry {
    /// Slot `id` holds the model of block `id`; always 256 slots.
    pub models: Vec<Option<BlockModel>>,
}

impl ModelRegistry {
    pub open spec fn wf(&self) -> bool {
        &&& self.models@.len() == BLOCK_ID_COUNT
        &&& forall|i: int|
            0 <= i < BLOCK_ID_COUNT ==> (#[trigger] self.models@[i]).is_some()
                ==> self.models@[i].unwrap().wf()
    }

    /// The model registered for a block ID.
    pub open spec fn model_of(&self, id: u8) -> Option<BlockModel> {
        self.models@[id as int]
    }

    /// Whether a block ID has an opaque model; air and IDs without a model are not opaque.
    pub open spec fn opaque_id(&self, id: u8) -> bool {
        id != 0 && self.model_of(id).is_some() && model_opaque(self.model_of(id).unwrap())
    }

    /// Whether a block ID's model casts ambient occlusion; false for air and
    /// IDs without a model.
    pub open spec fn occluding_id(&self, id: u8) -> bool {
        id != 0 && self.model_of(id).is_some() && self.model_of(id).unwrap().ambient_occlusion
    }

    /// A registry with no models.
    pub fn new() -> (r: ModelRegistry)
        ensures
            r.wf(),
            forall|id: u8| (#[trigger] r.model_of(id)).is_none(),
    {
        let mut models: Vec<Option<BlockModel>> = Vec::new();
        let mut i: usize = 0;
        while i < BLOCK_ID_COUNT
            invariant
                i <= BLOCK_ID_COUNT,
                models@.len() == i,
                forall|j: int| 0 <= j < i ==> (#[trigger] models@[j]).is_none(),
            decreases BLOCK_ID_COUNT - i,
        {
            models.push(None);
            i += 1;
        }
        ModelRegistry { models }
    }

    /// Registers the model of a block ID, replacing any earlier one.
    pub fn register(&mut self, id: u8, model: BlockModel)
        requires
            old(self).wf(),
            model.wf(),
        ensures
            final(self).wf(),
            final(self).models@ == old(self).models@.update(id as int, Some(model)),
    {
        self.models.set(id as usize, Some(model));
    }

    /// The model registered for a block ID.
    pub fn get(&self, id: u8) -> (r: Option<&BlockModel>)
        requires
            self.wf(),
        ensures
            r.is_some() == self.model_of(id).is_some(),
            r.is_some() ==> *r.unwrap() == self.model_of(id).unwrap() && r.unwrap().wf(),
    {
        match &self.models[id as usize] {
            Some(m) => Some(m),
            None => None,
        }
    }

    /// Whether the block (if any) has an opaque model.
    pub fn is_opaque_block(&self, block: Option<u8>) -> (r: bool)
        requires
            self.wf(),
            block != Some(0u8),
        ensures
            r == (block.is_some() && self.opaque_id(block.unwrap())),
    {
        match block {
            Some(id) => match self.get(id) {
                Some(m) => m.is_opaque(),
                None => false,
            },
            None => false,
        }
    }

    /// Whether the block (if any) has a model that casts ambient occlusion.
    pub fn is_occluding_block(&self, block: Option<u8>) -> (r: bool)
        requires
            self.wf(),
            block != Some(0u8),
        ensures
            r == (block.is_some() && self.occluding_id(block.unwrap())),
    {
        match block {
            Some(id) => match self.get(id) {
                Some(m) => m.ambient_occlusion,
                None => false,
            },
            None => false,
        }
    }
}

/// The model of the block at a world position, if a block with a model stands there.
pub fn get_model_for<'a>(
    cm: &ChunkManager,
    reg: &'a ModelRegistry,
    position: BlockPos,
) -> (r: Option<&'a BlockModel>)
    requires
        cm.wf(),
        reg.wf(),
    ensures
        r.is_some() == (cm.block_id_at(position) != 0 && reg.model_of(cm.block_id_at(position)).is_some()),
        r.is_some() ==> *r.unwrap() == reg.model_of(cm.block_id_at(position)).unwrap(),
{
    match cm.get_block(position) {
        Some(id) => reg.get(id),
        None => None,
    }
}

/// Smaller of two integers.
pub open spec fn min_of(a: i32, b: i32) -> i32 {
    if a <= b {
        a
    } else {
        b
    }
}

/// Larger of two integers.
pub open spec fn max_of(a: i32, b: i32) -> i32 {
    if a >= b {
        a
    } else {
        b
    }
}

/// The bounds so far widened by one element: an unrotated element's box
/// lowers the origin to the smaller corner and raises each size to the larger
/// one; rotated elements are left out.
pub open spec fn merge_bounds(acc: Option<Cuboid>, el: Element) -> Option<Cuboid> {
    if el.rotation.is_some() {
        acc
    } else {
        match acc {
            None => Some(el.cube),
            Some(b) => Some(
                Cuboid {
                    x: min_of(b.x, el.cube.x),
                    y: min_of(b.y, el.cube.y),
                    z: min_of(b.z, el.cube.z),
                    width: max_of(b.width, el.cube.width),
                    height: max_of(b.height, el.cube.height),
                    depth: max_of(b.depth, el.cube.depth),
                },
            ),
        }
    }
}

/// The bounds of a sequence of elements, merged in order; `None` when no
/// element is unrotated.
pub open spec fn bounds_of(s: Seq<Element>) -> Option<Cuboid>
    decreases s.len(),
{
    if s.len() == 0 {
        None
    } else {
        merge_bounds(bounds_of(s.drop_last()), s.last())
    }
}

/// The bounding box of a model's elements: built from the unrotated elements
/// as `bounds_of` describes, the unit cube when there are none.
pub fn bounding_box_of(elements: &Vec<Element>) -> (r: Cuboid)
    requires
        forall|i: int| 0 <= i < elements@.len() ==> (#[trigger] elements@[i]).wf(),
    ensures
        r == (match bounds_of(elements@) {
            Some(b) => b,
            None => Cuboid {
                x: 0,
                y: 0,
                z: 0,
                width: MODEL_UNIT,
                height: MODEL_UNIT,
                depth: MODEL_UNIT,
            },
        }),
        r.wf(),
{
    let mut acc: Option<Cuboid> = None;
    let mut i: usize = 0;
    while i < elements.len()
        invariant
            i <= elements@.len(),
            forall|j: int| 0 <= j < elements@.len() ==> (#[trigger] elements@[j]).wf(),
            acc == bounds_of(elements@.subrange(0, i as int)),
            acc.is_some() ==> acc.unwrap().wf(),
        decreases elements@.len() - i,
    {
        let el = &elements[i];
        proof {
            assert(elements@.subrange(0, i as int + 1).drop_last() =~= elements@.subrange(0, i as int));
            assert(el.wf());
        }
        if el.rotation.is_none() {
            let c = el.cube;
            acc = match acc {
                None => Some(c),
                Some(b) => Some(
                    Cuboid {
                        x: if b.x <= c.x { b.x } else { c.x },
                        y: if b.y <= c.y { b.y } else { c.y },
                        z: if b.z <= c.z { b.z } else { c.z },
                        width: if b.width >= c.width { b.width } else { c.width },
                        height: if b.height >= c.height { b.height } else { c.height },
                        depth: if b.depth >= c.depth { b.depth } else { c.depth },
                    },
                ),
            };
        }
        i += 1;
    }
    proof {
        assert(elements@.subrange(0, elements@.len() as int) =~= elements@);
    }
    match acc {
        Some(b) => b,
        None => Cuboid::unit(),
    }
}

} // verus!
