use vstd::prelude::*;

verus! {

/// Number of faces of a cube.
pub const FACE_COUNT: usize = 6;

/// One of the six axis-aligned directions a block face can point in.
///
/// `Top`/`Bottom` point along +Y/-Y, `Right`/`Left` along +X/-X and
/// `Front`/`Back` along +Z/-Z.
#[derive(Debug, Clone, Copy, PartialEq, Eq, Structural, Hash)]
pub enum Face {
    Top,
    Bottom,
    Left,
    Right,
    Front,
    Back,
}

/// A world axis.
#[derive(Debug, Clone, Copy, PartialEq, Eq, Structural)]
pub enum Axis {
    X,
    Y,
    Z,
}

/// Coordinates of corner `i` (0..8) of the unit cube, each component 0 or 1.
///
/// Corners 0..4 lie on the front plane (z = 1), corners 4..8 on the back
/// plane (z = 0); bit 0 selects x and bit 1 selects y.
pub open spec fn unit_vertex(i: int) -> (int, int, int) {
    if i == 0 {
        (0, 0, 1)
    } else if i == 1 {
        (1, 0, 1)
    } else if i == 2 {
        (0, 1, 1)
    } else if i == 3 {
        (1, 1, 1)
    } else if i == 4 {
        (0, 0, 0)
    } else if i == 5 {
        (1, 0, 0)
    } else if i == 6 {
        (0, 1, 0)
    } else {
        (1, 1, 0)
    }
}

/// Executable form of the unit-cube vertex table.
pub fn unit_vertex_at(i: usize) -> (r: (u8, u8, u8))
    requires
        i < 8,
    ensures
        (r.0 as int, r.1 as int, r.2 as int) == unit_vertex(i as int),
{
    match i {
        0 => (0, 0, 1),
        1 => (1, 0, 1),
        2 => (0, 1, 1),
        3 => (1, 1, 1),
        4 => (0, 0, 0),
        5 => (1, 0, 0),
        6 => (0, 1, 0),
        _ => (1, 1, 0),
    }
}

impl Face {
    /// Position of the face in per-direction tables (mesh buckets, element faces).
    pub open spec fn index_of(self) -> int {
        match self {
            Face::Left => 0,
            Face::Right => 1,
            Face::Bottom => 2,
            Face::Top => 3,
            Face::Front => 4,
            Face::Back => 5,
        }
    }

    /// The unit step from a block to its neighbour across this face.
    pub open spec fn offset(self) -> (int, int, int) {
        match self {
            Face::Top => (0, 1, 0),
            Face::Bottom => (0, -1, 0),
            Face::Right => (1, 0, 0),
            Face::Left => (-1, 0, 0),
            Face::Front => (0, 0, 1),
            Face::Back => (0, 0, -1),
        }
    }

    /// The face pointing the other way.
    pub open spec fn opposite_of(self) -> Face {
        match self {
            Face::Top => Face::Bottom,
            Face::Bottom => Face::Top,
            Face::Left => Face::Right,
            Face::Right => Face::Left,
            Face::Front => Face::Back,
            Face::Back => Face::Front,
        }
    }

    /// Corner `k` (0..4) of the face's quad, as an index into the unit-cube table.
    pub open spec fn quad_corner(self, k: int) -> usize {
        let q: (usize, usize, usize, usize) = match self {
            Face::Top => (2, 6, 7, 3),
            Face::Bottom => (1, 5, 4, 0),
            Face::Left => (4, 6, 2, 0),
            Face::Right => (1, 3, 7, 5),
            Face::Front => (1, 3, 2, 0),
            Face::Back => (5, 7, 6, 4),
        };
        if k == 0 {
            q.0
        } else if k == 1 {
            q.1
        } else if k == 2 {
            q.2
        } else {
            q.3
        }
    }

    /// Texture coordinate of quad corner `k`, each component 0 or 1.
    pub open spec fn quad_uv(self, k: int) -> (u8, u8) {
        match self {
            Face::Top => if k == 0 {
                (0u8, 0u8)
            } else if k == 1 {
                (1, 0)
            } else if k == 2 {
                (1, 1)
            } else {
                (0, 1)
            },
            Face::Bottom => if k == 0 {
                (0u8, 1u8)
            } else if k == 1 {
                (1, 1)
            } else if k == 2 {
                (1, 0)
            } else {
                (0, 0)
            },
            _ => if k == 0 {
                (0u8, 1u8)
            } else if k == 1 {
                (0, 0)
            } else if k == 2 {
                (1, 0)
            } else {
                (1, 1)
            },
        }
    }

    /// The face at a table position.
    pub open spec fn from_index_spec(i: int) -> Face {
        if i == 0 {
            Face::Left
        } else if i == 1 {
            Face::Right
        } else if i == 2 {
            Face::Bottom
        } else if i == 3 {
            Face::Top
        } else if i == 4 {
            Face::Front
        } else {
            Face::Back
        }
    }

    /// The face with the given table position.
    pub fn from_normal_index(i: usize) -> (r: Face)
        requires
            i < FACE_COUNT,
        ensures
            r.index_of() == i,
            r == Face::from_index_spec(i as int),
    {
        match i {
            0 => Face::Left,
            1 => Face::Right,
            2 => Face::Bottom,
            3 => Face::Top,
            4 => Face::Front,
            _ => Face::Back,
        }
    }

    /// Position of the face in per-direction tables.
    pub fn normal_index(self) -> (r: usize)
        ensures
            r == self.index_of(),
            r < FACE_COUNT,
    {
        match self {
            Face::Left => 0,
            Face::Right => 1,
            Face::Bottom => 2,
            Face::Top => 3,
            Face::Front => 4,
            Face::Back => 5,
        }
    }

    /// Whether the face's quad is wound in reverse (faces pointing along a positive axis).
    pub fn reverse_order(&self) -> (r: bool)
        ensures
            r == (*self == Face::Top || *self == Face::Right || *self == Face::Front),
    {
        match self {
            Face::Top | Face::Right | Face::Front => true,
            _ => false,
        }
    }

    /// The face pointing the other way.
    pub fn opposite(self) -> (r: Face)
        ensures
            r == self.opposite_of(),
            r.offset().0 == -self.offset().0,
            r.offset().1 == -self.offset().1,
            r.offset().2 == -self.offset().2,
    {
        match self {
            Face::Top => Face::Bottom,
            Face::Bottom => Face::Top,
            Face::Left => Face::Right,
            Face::Right => Face::Left,
            Face::Front => Face::Back,
            Face::Back => Face::Front,
        }
    }

    /// The unit step from a block to its neighbour across this face.
    pub fn as_normal(self) -> (r: (i32, i32, i32))
        ensures
            (r.0 as int, r.1 as int, r.2 as int) == self.offset(),
    {
        match self {
            Face::Top => (0, 1, 0),
            Face::Bottom => (0, -1, 0),
            Face::Right => (1, 0, 0),
            Face::Left => (-1, 0, 0),
            Face::Front => (0, 0, 1),
            Face::Back => (0, 0, -1),
        }
    }

    /// The neighbouring local position across this face; steps below zero
    /// stay at zero.
    pub fn add_position(self, position: crate::chunk::LocalPos) -> (r: crate::chunk::LocalPos)
        requires
            position.x < u16::MAX && position.y < u16::MAX && position.z < u16::MAX,
        ensures
            r.x == (if self == Face::Right {
                position.x + 1
            } else if self == Face::Left && position.x > 0 {
                position.x - 1
            } else {
                position.x as int
            }),
            r.y == (if self == Face::Top {
                position.y + 1
            } else if self == Face::Bottom && position.y > 0 {
                position.y - 1
            } else {
                position.y as int
            }),
            r.z == (if self == Face::Front {
                position.z + 1
            } else if self == Face::Back && position.z > 0 {
                position.z - 1
            } else {
                position.z as int
            }),
    {
        let mut p = position;
        match self {
            Face::Top => p.y = p.y + 1,
            Face::Bottom => p.y = p.y.saturating_sub(1),
            Face::Right => p.x = p.x + 1,
            Face::Left => p.x = p.x.saturating_sub(1),
            Face::Front => p.z = p.z + 1,
            Face::Back => p.z = p.z.saturating_sub(1),
        }
        p
    }

    /// The face on the given axis: the positive one for `value == 1`, the
    /// negative one for `value == 0`.
    pub fn from_axis_value(axis: Axis, value: u8) -> (r: Face)
        requires
            value <= 1,
        ensures
            axis == Axis::X ==> r == (if value == 1 { Face::Right } else { Face::Left }),
            axis == Axis::Y ==> r == (if value == 1 { Face::Top } else { Face::Bottom }),
            axis == Axis::Z ==> r == (if value == 1 { Face::Front } else { Face::Back }),
    {
        match axis {
            Axis::X => if value == 1 {
                Face::Right
            } else {
                Face::Left
            },
            Axis::Y => if value == 1 {
                Face::Top
            } else {
                Face::Bottom
            },
            Axis::Z => if value == 1 {
                Face::Front
            } else {
                Face::Back
            },
        }
    }

    /// The cell sampled for this face in a 2D slice at depth `axis`, with
    /// in-plane coordinates `x` and `y`.
    pub fn world_to_sample(&self, axis: i32, x: i32, y: i32) -> (r: (i32, i32, i32))
        requires
            axis < i32::MAX,
        ensures
            r == (match *self {
                Face::Top => (x, (axis + 1) as i32, y),
                Face::Bottom => (x, axis, y),
                Face::Left => (axis, y, x),
                Face::Right => ((axis + 1) as i32, y, x),
                Face::Front => (x, y, axis),
                Face::Back => (x, y, (axis + 1) as i32),
            }),
    {
        match self {
            Face::Top => (x, axis + 1, y),
            Face::Bottom => (x, axis, y),
            Face::Left => (axis, y, x),
            Face::Right => (axis + 1, y, x),
            Face::Front => (x, y, axis),
            Face::Back => (x, y, axis + 1),
        }
    }

    /// The four corners of the face's quad, as indices into the unit-cube table.
    pub fn as_vertices(self) -> (r: [usize; 4])
        ensures
            forall|k: int| 0 <= k < 4 ==> r[k] == self.quad_corner(k),
            forall|k: int| 0 <= k < 4 ==> r[k] < 8,
    {
        match self {
            Face::Top => [2, 6, 7, 3],
            Face::Bottom => [1, 5, 4, 0],
            Face::Left => [4, 6, 2, 0],
            Face::Right => [1, 3, 7, 5],
            Face::Front => [1, 3, 2, 0],
            Face::Back => [5, 7, 6, 4],
        }
    }

    /// The quad's corners split into two triangles with the pattern `0,1,2,2,3,0`.
    pub fn as_full_vertices(self) -> (r: [usize; 6])
        ensures
            r[0] == self.quad_corner(0),
            r[1] == self.quad_corner(1),
            r[2] == self.quad_corner(2),
            r[3] == self.quad_corner(2),
            r[4] == self.quad_corner(3),
            r[5] == self.quad_corner(0),
    {
        let q = self.as_vertices();
        [q[0], q[1], q[2], q[2], q[3], q[0]]
    }

    /// Texture coordinates of the quad's four corners.
    pub fn as_uv(self) -> (r: [(u8, u8); 4])
        ensures
            forall|k: int| 0 <= k < 4 ==> r[k] == self.quad_uv(k),
    {
        match self {
            Face::Top => [(0, 0), (1, 0), (1, 1), (0, 1)],
            Face::Bottom => [(0, 1), (1, 1), (1, 0), (0, 0)],
            _ => [(0, 1), (0, 0), (1, 0), (1, 1)],
        }
    }
}

} // verus!
