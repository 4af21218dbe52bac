//! The six faces of a cubic tile.

use vstd::prelude::*;

verus! {

/// A face of a 3D tile.
///
/// `Left`/`Right` look along the x axis, `Front`/`Back` along the y axis and
/// `Down`/`Up` along the z axis.
#[derive(Debug, PartialEq, Eq, Hash, Clone, Copy, Structural)]
pub enum Face {
    Left,
    Right,
    Front,
    Back,
    Down,
    Up,
}

/// Number of faces of a tile.
pub const FACE_COUNT: usize = 6;

impl Face {
    /// The face that touches `self` when two tiles are put next to each other.
    pub open spec fn spec_opposite(self) -> Face {
        match self {
            Face::Left => Face::Right,
            Face::Right => Face::Left,
            Face::Front => Face::Back,
            Face::Back => Face::Front,
            Face::Down => Face::Up,
            Face::Up => Face::Down,
        }
    }

    /// Position of the face in the fixed order `Left, Right, Front, Back, Down, Up`.
    pub open spec fn spec_index(self) -> int {
        match self {
            Face::Left => 0,
            Face::Right => 1,
            Face::Front => 2,
            Face::Back => 3,
            Face::Down => 4,
            Face::Up => 5,
        }
    }

    /// The face at position `i` of the fixed order; `Up` for every `i` above 4.
    pub open spec fn spec_from_index(i: int) -> Face {
        if i == 0 {
            Face::Left
        } else if i == 1 {
            Face::Right
        } else if i == 2 {
            Face::Front
        } else if i == 3 {
            Face::Back
        } else if i == 4 {
            Face::Down
        } else {
            Face::Up
        }
    }

    /// Whether the face looks along the z axis.
    pub open spec fn spec_is_vertical(self) -> bool {
        self == Face::Down || self == Face::Up
    }

    /// Returns the opposite face.
    pub fn opposite(self) -> (r: Face)
        ensures
            r == self.spec_opposite(),
    {
        match self {
            Face::Left => Face::Right,
            Face::Right => Face::Left,
            Face::Front => Face::Back,
            Face::Back => Face::Front,
            Face::Down => Face::Up,
            Face::Up => Face::Down,
        }
    }

    /// Returns the position of the face in the fixed order.
    pub fn index(self) -> (r: usize)
        ensures
            r == self.spec_index(),
            r < FACE_COUNT,
    {
        match self {
            Face::Left => 0,
            Face::Right => 1,
            Face::Front => 2,
            Face::Back => 3,
            Face::Down => 4,
            Face::Up => 5,
        }
    }

    /// Returns the face at position `i` of the fixed order, if there is one.
    pub fn from_index(i: usize) -> (r: Option<Face>)
        ensures
            i < FACE_COUNT ==> r == Some(Face::spec_from_index(i as int)),
            i >= FACE_COUNT ==> r is None,
    {
        if i == 0 {
            Some(Face::Left)
        } else if i == 1 {
            Some(Face::Right)
        } else if i == 2 {
            Some(Face::Front)
        } else if i == 3 {
            Some(Face::Back)
        } else if i == 4 {
            Some(Face::Down)
        } else if i == 5 {
            Some(Face::Up)
        } else {
            None
        }
    }

    /// Returns whether the face looks along the z axis.
    pub fn is_vertical(self) -> (r: bool)
        ensures
            r == self.spec_is_vertical(),
    {
        match self {
            Face::Down => true,
            Face::Up => true,
            _ => false,
        }
    }

    /// Taking the opposite twice gives the face back, and a face is never its
    /// own opposite.
    pub proof fn lemma_opposite_involutive(self)
        ensures
            self.spec_opposite().spec_opposite() == self,
            self.spec_opposite() != self,
            self.spec_opposite().spec_is_vertical() == self.spec_is_vertical(),
    {
    }

    /// `spec_index` and `spec_from_index` are inverse to each other.
    pub proof fn lemma_index_round_trip(self)
        ensures
            0 <= self.spec_index() < 6,
            Face::spec_from_index(self.spec_index()) == self,
    {
    }
}

} // verus!
