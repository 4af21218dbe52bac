//! Connectors: the labels on the faces of a tile, and what rotations and
//! reflections do to them.

use vstd::prelude::*;
use crate::face::Face;

verus! {

/// Whether the pattern on a face changes when it is mirrored.
#[derive(Debug, PartialEq, Eq, Hash, Clone, Copy, Structural)]
pub enum Symmetry {
    Normal,
    Inverse,
    Symmetrical,
}

/// A rotation about the z axis following the right-hand rule.
#[derive(Debug, PartialEq, Eq, Hash, Clone, Copy, Structural)]
pub enum Rotation {
    R0,
    R90,
    R180,
    R270,
}

/// An axis for specifying a reflection.
///
/// Reflecting across `X` exchanges front and back, reflecting across `Y`
/// exchanges left and right.
#[derive(Debug, PartialEq, Eq, Hash, Clone, Copy, Structural)]
pub enum Axis {
    X,
    Y,
}

/// The label on a horizontal face of a tile.
#[derive(Debug, PartialEq, Eq, Hash, Clone, Copy, Structural)]
pub struct Connector {
    pub id: i64,
    pub symmetry: Symmetry,
}

/// The label on the lower or upper face of a tile. Besides id and symmetry it
/// carries a rotation index, which counts quarter turns.
#[derive(Debug, PartialEq, Eq, Hash, Clone, Copy, Structural)]
pub struct VerticalConnector {
    pub id: i64,
    pub symmetry: Symmetry,
    pub rotation: u8,
}

/// One connector for each face of a tile.
#[derive(Debug, PartialEq, Eq, Hash, Clone, Copy, Structural)]
pub struct Connectors {
    pub left: Connector,
    pub right: Connector,
    pub front: Connector,
    pub back: Connector,
    pub down: VerticalConnector,
    pub up: VerticalConnector,
}

impl Symmetry {
    /// The symmetry of the mirrored pattern.
    pub open spec fn spec_inverse(self) -> Symmetry {
        match self {
            Symmetry::Normal => Symmetry::Inverse,
            Symmetry::Inverse => Symmetry::Normal,
            Symmetry::Symmetrical => Symmetry::Symmetrical,
        }
    }

    /// Two patterns can face each other when one is the mirror image of the
    /// other: `Normal` meets `Inverse`, `Symmetrical` meets `Symmetrical`.
    pub open spec fn spec_meets(self, other: Symmetry) -> bool {
        other == self.spec_inverse()
    }

    /// Returns the symmetry of the mirrored pattern.
    pub fn inverse(self) -> (r: Symmetry)
        ensures
            r == self.spec_inverse(),
    {
        match self {
            Symmetry::Normal => Symmetry::Inverse,
            Symmetry::Inverse => Symmetry::Normal,
            Symmetry::Symmetrical => Symmetry::Symmetrical,
        }
    }

    /// Returns whether a face of this symmetry can touch one of symmetry `other`.
    pub fn meets(self, other: Symmetry) -> (r: bool)
        ensures
            r == self.spec_meets(other),
    {
        match self {
            Symmetry::Normal => other == Symmetry::Inverse,
            Symmetry::Inverse => other == Symmetry::Normal,
            Symmetry::Symmetrical => other == Symmetry::Symmetrical,
        }
    }
}

impl Rotation {
    /// Number of quarter turns.
    pub open spec fn spec_quarter_turns(self) -> int {
        match self {
            Rotation::R0 => 0,
            Rotation::R90 => 1,
            Rotation::R180 => 2,
            Rotation::R270 => 3,
        }
    }

    /// Returns the number of quarter turns.
    pub fn quarter_turns(self) -> (r: u8)
        ensures
            r == self.spec_quarter_turns(),
    {
        match self {
            Rotation::R0 => 0,
            Rotation::R90 => 1,
            Rotation::R180 => 2,
            Rotation::R270 => 3,
        }
    }
}

impl Connector {
    /// The connector of the mirrored face: same id, inverse symmetry.
    pub open spec fn spec_inverse(self) -> Connector {
        Connector { id: self.id, symmetry: self.symmetry.spec_inverse() }
    }

    /// Two horizontal faces fit when their ids are equal and their symmetries
    /// meet.
    pub open spec fn spec_fits(self, other: Connector) -> bool {
        self.id == other.id && self.symmetry.spec_meets(other.symmetry)
    }

    /// Returns the connector of the mirrored face.
    pub fn inverse(&self) -> (r: Connector)
        ensures
            r == self.spec_inverse(),
    {
        Connector { id: self.id, symmetry: self.symmetry.inverse() }
    }

    /// Returns whether a face with this connector can touch one with `other`.
    pub fn fits(&self, other: &Connector) -> (r: bool)
        ensures
            r == self.spec_fits(*other),
    {
        self.id == other.id && self.symmetry.meets(other.symmetry)
    }
}

impl VerticalConnector {
    /// A rotation index counts quarter turns, so it is below 4.
    pub open spec fn wf(self) -> bool {
        self.rotation < 4
    }

    /// The connector after `turns` quarter turns about the z axis: the
    /// rotation index advances by `turns` modulo 4.
    pub open spec fn spec_turned(self, turns: int) -> VerticalConnector {
        VerticalConnector {
            id: self.id,
            symmetry: self.symmetry,
            rotation: ((self.rotation + turns) % 4) as u8,
        }
    }

    /// Two vertical faces fit when their ids are equal, their symmetries meet
    /// and their rotation indices are equal.
    pub open spec fn spec_fits(self, other: VerticalConnector) -> bool {
        self.id == other.id && self.symmetry.spec_meets(other.symmetry) && self.rotation
            == other.rotation
    }

    /// The id and symmetry of the connector, without its rotation index.
    pub open spec fn spec_label(self) -> Connector {
        Connector { id: self.id, symmetry: self.symmetry }
    }

    /// Returns whether the rotation index is in range.
    pub fn is_valid(&self) -> (r: bool)
        ensures
            r == self.wf(),
    {
        self.rotation < 4
    }

    /// Returns the connector after `rotation`.
    pub fn turned(&self, rotation: Rotation) -> (r: VerticalConnector)
        ensures
            r == self.spec_turned(rotation.spec_quarter_turns()),
            r.wf(),
    {
        let turns: u8 = rotation.quarter_turns();
        VerticalConnector {
            id: self.id,
            symmetry: self.symmetry,
            rotation: (self.rotation % 4 + turns) % 4,
        }
    }

    /// Returns whether a face with this connector can touch one with `other`.
    pub fn fits(&self, other: &VerticalConnector) -> (r: bool)
        ensures
            r == self.spec_fits(*other),
    {
        self.id == other.id && self.symmetry.meets(other.symmetry) && self.rotation
            == other.rotation
    }

    /// Returns the id and symmetry of the connector.
    pub fn label(&self) -> (r: Connector)
        ensures
            r == self.spec_label(),
    {
        Connector { id: self.id, symmetry: self.symmetry }
    }
}

impl Connectors {
    /// Both rotation indices are in range.
    pub open spec fn wf(self) -> bool {
        self.down.wf() && self.up.wf()
    }

    /// The connectors of the tile turned by a quarter turn: what was at the
    /// back is now on the left, the front went to the right, the left to the
    /// front and the right to the back; the rotation indices of the vertical
    /// faces advance by one.
    pub open spec fn spec_quarter_turn(self) -> Connectors {
        Connectors {
            left: self.back,
            right: self.front,
            front: self.left,
            back: self.right,
            down: self.down.spec_turned(1),
            up: self.up.spec_turned(1),
        }
    }

    /// The connectors of the tile after `rotation`, that is after as many
    /// quarter turns as the rotation has.
    pub open spec fn spec_rotated(self, rotation: Rotation) -> Connectors {
        match rotation {
            Rotation::R0 => Connectors {
                left: self.left,
                right: self.right,
                front: self.front,
                back: self.back,
                down: self.down.spec_turned(0),
                up: self.up.spec_turned(0),
            },
            Rotation::R90 => self.spec_quarter_turn(),
            Rotation::R180 => Connectors {
                left: self.right,
                right: self.left,
                front: self.back,
                back: self.front,
                down: self.down.spec_turned(2),
                up: self.up.spec_turned(2),
            },
            Rotation::R270 => Connectors {
                left: self.front,
                right: self.back,
                front: self.right,
                back: self.left,
                down: self.down.spec_turned(3),
                up: self.up.spec_turned(3),
            },
        }
    }

    /// The connectors of the mirrored tile. Across `X` front and back change
    /// places while left and right stay and show the mirrored pattern; across
    /// `Y` left and right change places while front and back stay and show the
    /// mirrored pattern. The vertical faces keep their connectors.
    pub open spec fn spec_reflected(self, axis: Axis) -> Connectors {
        match axis {
            Axis::X => Connectors {
                left: self.left.spec_inverse(),
                right: self.right.spec_inverse(),
                front: self.back,
                back: self.front,
                down: self.down,
                up: self.up,
            },
            Axis::Y => Connectors {
                left: self.right,
                right: self.left,
                front: self.front.spec_inverse(),
                back: self.back.spec_inverse(),
                down: self.down,
                up: self.up,
            },
        }
    }

    /// Id and symmetry of the connector on `face`.
    pub open spec fn spec_get(self, face: Face) -> Connector {
        match face {
            Face::Left => self.left,
            Face::Right => self.right,
            Face::Front => self.front,
            Face::Back => self.back,
            Face::Down => self.down.spec_label(),
            Face::Up => self.up.spec_label(),
        }
    }

    /// Rotation index of the connector on `face`; horizontal faces have none.
    pub open spec fn spec_rotation(self, face: Face) -> Option<u8> {
        match face {
            Face::Down => Some(self.down.rotation),
            Face::Up => Some(self.up.rotation),
            _ => None,
        }
    }

    /// Whether a tile with connectors `other` may stand on the `face` side of
    /// a tile with these connectors: the connector on `face` and the one on
    /// the opposite face of `other` have equal ids, symmetries that meet and,
    /// on vertical faces, equal rotation indices.
    pub open spec fn spec_accepts(self, face: Face, other: Connectors) -> bool {
        self.spec_get(face).spec_fits(other.spec_get(face.spec_opposite()))
            && self.spec_rotation(face) == other.spec_rotation(face.spec_opposite())
    }

    /// Returns whether both rotation indices are in range.
    pub fn is_valid(&self) -> (r: bool)
        ensures
            r == self.wf(),
    {
        self.down.is_valid() && self.up.is_valid()
    }

    /// Returns a new `Connectors` rotated `rotation` degrees about the z axis.
    pub fn rotated(&self, rotation: &Rotation) -> (r: Connectors)
        ensures
            r == self.spec_rotated(*rotation),
            r.wf(),
    {
        let down = self.down.turned(*rotation);
        let up = self.up.turned(*rotation);
        match rotation {
            Rotation::R0 => Connectors {
                left: self.left,
                right: self.right,
                front: self.front,
                back: self.back,
                down,
                up,
            },
            Rotation::R90 => Connectors {
                left: self.back,
                right: self.front,
                front: self.left,
                back: self.right,
                down,
                up,
            },
            Rotation::R180 => Connectors {
                left: self.right,
                right: self.left,
                front: self.back,
                back: self.front,
                down,
                up,
            },
            Rotation::R270 => Connectors {
                left: self.front,
                right: self.back,
                front: self.right,
                back: self.left,
                down,
                up,
            },
        }
    }

    /// Returns a new `Connectors` reflected across `axis`.
    pub fn reflected(&self, axis: &Axis) -> (r: Connectors)
        ensures
            r == self.spec_reflected(*axis),
            self.wf() ==> r.wf(),
    {
        match axis {
            Axis::X => Connectors {
                left: self.left.inverse(),
                right: self.right.inverse(),
                front: self.back,
                back: self.front,
                down: self.down,
                up: self.up,
            },
            Axis::Y => Connectors {
                left: self.right,
                right: self.left,
                front: self.front.inverse(),
                back: self.back.inverse(),
                down: self.down,
                up: self.up,
            },
        }
    }

    /// Returns id and symmetry of the connector on `face`.
    pub fn get(&self, face: &Face) -> (r: Connector)
        ensures
            r == self.spec_get(*face),
    {
        match face {
            Face::Left => self.left,
            Face::Right => self.right,
            Face::Front => self.front,
            Face::Back => self.back,
            Face::Down => self.down.label(),
            Face::Up => self.up.label(),
        }
    }

    /// Returns the rotation index of the connector on `face`, if it has one.
    pub fn rotation(&self, face: &Face) -> (r: Option<u8>)
        ensures
            r == self.spec_rotation(*face),
    {
        match face {
            Face::Down => Some(self.down.rotation),
            Face::Up => Some(self.up.rotation),
            _ => None,
        }
    }

    /// Returns whether a tile with connectors `other` may stand on the `face`
    /// side of a tile with these connectors.
    pub fn accepts(&self, face: &Face, other: &Connectors) -> (r: bool)
        ensures
            r == self.spec_accepts(*face, *other),
    {
        match face {
            Face::Left => self.left.fits(&other.right),
            Face::Right => self.right.fits(&other.left),
            Face::Front => self.front.fits(&other.back),
            Face::Back => self.back.fits(&other.front),
            Face::Down => self.down.fits(&other.up),
            Face::Up => self.up.fits(&other.down),
        }
    }
}

/// Mirroring a pattern twice gives the pattern back.
pub proof fn lemma_inverse_involutive(c: Connector)
    ensures
        c.spec_inverse().spec_inverse() == c,
{
}

/// Fitting is symmetric: if `a` can touch `b`, then `b` can touch `a`.
pub proof fn lemma_fits_symmetric(a: Connector, b: Connector)
    ensures
        a.spec_fits(b) == b.spec_fits(a),
{
}

/// A tile accepts another on one of its faces exactly when the other accepts
/// it on the opposite face.
pub proof fn lemma_accepts_symmetric(a: Connectors, face: Face, b: Connectors)
    ensures
        a.spec_accepts(face, b) == b.spec_accepts(face.spec_opposite(), a),
{
}

/// Turning by `a` and then by `b` quarter turns is turning by `a + b`, four
/// quarter turns change nothing, and no turn leaves a valid connector as it
/// is.
pub proof fn lemma_turned(v: VerticalConnector, a: int, b: int)
    requires
        0 <= a,
        0 <= b,
    ensures
        v.spec_turned(a).spec_turned(b) == v.spec_turned(a + b),
        v.spec_turned(a + 4) == v.spec_turned(a),
        v.wf() ==> v.spec_turned(0) == v,
{
    let r = v.rotation as int;
    assert(((r + a) % 4 + b) % 4 == (r + a + b) % 4);
    assert((r + a + 4) % 4 == (r + a) % 4);
    assert(0 <= (r + a) % 4 < 4);
}

/// Four quarter turns bring every connector back to where it was.
pub proof fn lemma_four_quarter_turns(c: Connectors)
    requires
        c.wf(),
    ensures
        c.spec_rotated(Rotation::R90).spec_rotated(Rotation::R90).spec_rotated(
            Rotation::R90,
        ).spec_rotated(Rotation::R90) == c,
{
    lemma_rotations_compose(c);
    let half = c.spec_rotated(Rotation::R180);
    lemma_rotations_compose(half);
    lemma_turned(c.down, 2, 2);
    lemma_turned(c.up, 2, 2);
    lemma_turned(c.down, 0, 0);
    lemma_turned(c.up, 0, 0);
    assert(half.spec_rotated(Rotation::R180) == c);
}

/// A rotation is as many quarter turns as its name says, and no rotation at
/// all leaves valid connectors as they are.
pub proof fn lemma_rotations_compose(c: Connectors)
    ensures
        c.wf() ==> c.spec_rotated(Rotation::R0) == c,
        c.spec_rotated(Rotation::R180) == c.spec_rotated(Rotation::R90).spec_rotated(
            Rotation::R90,
        ),
        c.spec_rotated(Rotation::R270) == c.spec_rotated(Rotation::R90).spec_rotated(
            Rotation::R90,
        ).spec_rotated(Rotation::R90),
{
    lemma_turned(c.down, 0, 0);
    lemma_turned(c.up, 0, 0);
    lemma_turned(c.down, 1, 1);
    lemma_turned(c.up, 1, 1);
    lemma_turned(c.down, 2, 1);
    lemma_turned(c.up, 2, 1);
}

/// Reflecting twice across the same axis gives the connectors back.
pub proof fn lemma_reflection_involutive(c: Connectors, axis: Axis)
    ensures
        c.spec_reflected(axis).spec_reflected(axis) == c,
{
}

/// A quarter turn never leaves connectors as they are: it moves the rotation
/// indices of the vertical faces.
pub proof fn lemma_quarter_turn_moves(c: Connectors)
    ensures
        c.spec_rotated(Rotation::R90) != c,
{
    let r = c.down.rotation as int;
    assert((r + 1) % 4 != r);
}

} // verus!
