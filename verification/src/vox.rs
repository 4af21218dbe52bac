//! Voxel grids with a palette: rotations about the vertical axis and
//! reflections across the horizontal axes.

use vstd::prelude::*;
use crate::connector::{Axis, Rotation};

verus! {

/// Number of palette entries of a voxel grid.
pub const PALETTE_RGBA_COUNT: usize = 256;

/// Largest size of a grid along one axis: a coordinate is one byte.
pub const MAX_SIZE: i32 = 256;

/// Largest number of voxels of a grid: with more of them the size of the
/// chunks would not fit the 32 bits that a file has for it.
pub const MAX_VOXELS: usize = 536870642;

/// The version of the file format.
pub const VERSION: i32 = 150;

/// One filled cell of a voxel grid: its coordinates and its palette index.
#[derive(Debug, PartialEq, Eq, Hash, Clone, Copy, Structural)]
pub struct Voxel {
    pub x: u8,
    pub y: u8,
    pub z: u8,
    pub i: u8,
}

/// One colour of the palette.
#[derive(Debug, PartialEq, Eq, Hash, Clone, Copy, Structural)]
pub struct Rgba {
    pub r: u8,
    pub g: u8,
    pub b: u8,
    pub a: u8,
}

/// What a voxel grid holds: its size along each axis, its filled cells in
/// file order, and its palette.
pub struct VoxModel {
    pub x_size: int,
    pub y_size: int,
    pub z_size: int,
    pub voxels: Seq<Voxel>,
    pub palette: Seq<Rgba>,
}

impl VoxModel {
    /// The sizes are between 0 and 256, every voxel lies inside the grid,
    /// there are no more voxels than a file can hold, and the palette has 256
    /// entries, of which entry 0 is unused and zero.
    pub open spec fn wf(self) -> bool {
        &&& self.voxels.len() <= MAX_VOXELS
        &&& 0 <= self.x_size <= 256
        &&& 0 <= self.y_size <= 256
        &&& 0 <= self.z_size <= 256
        &&& forall|k: int|
            0 <= k < self.voxels.len() ==> {
                let v = #[trigger] self.voxels[k];
                v.x < self.x_size && v.y < self.y_size && v.z < self.z_size
            }
        &&& self.palette.len() == 256
        &&& self.palette[0] == Rgba { r: 0, g: 0, b: 0, a: 0 }
    }

    /// Where the quarter turn takes a voxel: the column at `y` becomes the
    /// row `y_size - 1 - y` counted along x, and the row at `x` becomes the
    /// column `x`.
    pub open spec fn spec_quarter_turn_voxel(self, v: Voxel) -> Voxel {
        Voxel { x: (self.y_size - 1 - v.y) as u8, y: v.x, z: v.z, i: v.i }
    }

    /// The grid turned by a quarter turn about the vertical axis through its
    /// centre. Width and depth change places.
    pub open spec fn spec_quarter_turn(self) -> VoxModel {
        VoxModel {
            x_size: self.y_size,
            y_size: self.x_size,
            z_size: self.z_size,
            voxels: self.voxels.map_values(|v: Voxel| self.spec_quarter_turn_voxel(v)),
            palette: self.palette,
        }
    }

    /// Where the half turn takes a voxel.
    pub open spec fn spec_half_turn_voxel(self, v: Voxel) -> Voxel {
        Voxel { x: (self.x_size - 1 - v.x) as u8, y: (self.y_size - 1 - v.y) as u8, z: v.z, i: v.i }
    }

    /// Where three quarter turns take a voxel.
    pub open spec fn spec_three_quarter_turn_voxel(self, v: Voxel) -> Voxel {
        Voxel { x: v.y, y: (self.x_size - 1 - v.x) as u8, z: v.z, i: v.i }
    }

    /// The grid after `rotation` about the vertical axis through its centre:
    /// a coordinate `p` along a reflected axis of size `s` becomes
    /// `s - 1 - p`.
    pub open spec fn spec_rotated(self, rotation: Rotation) -> VoxModel {
        match rotation {
            Rotation::R0 => self,
            Rotation::R90 => self.spec_quarter_turn(),
            Rotation::R180 => VoxModel {
                x_size: self.x_size,
                y_size: self.y_size,
                z_size: self.z_size,
                voxels: self.voxels.map_values(|v: Voxel| self.spec_half_turn_voxel(v)),
                palette: self.palette,
            },
            Rotation::R270 => VoxModel {
                x_size: self.y_size,
                y_size: self.x_size,
                z_size: self.z_size,
                voxels: self.voxels.map_values(
                    |v: Voxel| self.spec_three_quarter_turn_voxel(v),
                ),
                palette: self.palette,
            },
        }
    }

    /// Where the reflection across `axis` takes a voxel.
    pub open spec fn spec_reflected_voxel(self, axis: Axis, v: Voxel) -> Voxel {
        match axis {
            Axis::X => Voxel { x: v.x, y: (self.y_size - 1 - v.y) as u8, z: v.z, i: v.i },
            Axis::Y => Voxel { x: (self.x_size - 1 - v.x) as u8, y: v.y, z: v.z, i: v.i },
        }
    }

    /// The grid mirrored across `axis`: across `X` front and back change
    /// places, across `Y` left and right.
    pub open spec fn spec_reflected(self, axis: Axis) -> VoxModel {
        VoxModel {
            x_size: self.x_size,
            y_size: self.y_size,
            z_size: self.z_size,
            voxels: self.voxels.map_values(|v: Voxel| self.spec_reflected_voxel(axis, v)),
            palette: self.palette,
        }
    }

    /// No rotation leaves the grid as it is.
    pub proof fn lemma_no_rotation(self)
        ensures
            self.spec_rotated(Rotation::R0) == self,
    {
    }

    /// Rotations and reflections of a valid grid are valid grids.
    pub proof fn lemma_transformed_wf(self, rotation: Rotation, axis: Axis)
        requires
            self.wf(),
        ensures
            self.spec_rotated(rotation).wf(),
            self.spec_reflected(axis).wf(),
    {
    }

    /// A half turn is two quarter turns, and the rotation by 270 degrees is
    /// three.
    pub proof fn lemma_rotations_compose(self)
        requires
            self.wf(),
        ensures
            self.spec_rotated(Rotation::R180) == self.spec_rotated(Rotation::R90).spec_rotated(
                Rotation::R90,
            ),
            self.spec_rotated(Rotation::R270) == self.spec_rotated(Rotation::R180).spec_rotated(
                Rotation::R90,
            ),
    {
        let quarter = self.spec_rotated(Rotation::R90);
        let half = self.spec_rotated(Rotation::R180);
        assert(quarter.spec_rotated(Rotation::R90).voxels =~= half.voxels);
        assert(half.spec_rotated(Rotation::R90).voxels =~= self.spec_rotated(
            Rotation::R270,
        ).voxels);
    }

    /// Four quarter turns bring every voxel back to where it was.
    pub proof fn lemma_four_quarter_turns(self)
        requires
            self.wf(),
        ensures
            self.spec_rotated(Rotation::R90).spec_rotated(Rotation::R90).spec_rotated(
                Rotation::R90,
            ).spec_rotated(Rotation::R90) == self,
    {
        self.lemma_rotations_compose();
        let turned = self.spec_rotated(Rotation::R270);
        self.lemma_transformed_wf(Rotation::R270, Axis::X);
        assert(turned.spec_rotated(Rotation::R90).voxels =~= self.voxels);
    }

    /// Reflecting twice across the same axis gives the grid back.
    pub proof fn lemma_reflection_involutive(self, axis: Axis)
        requires
            self.wf(),
        ensures
            self.spec_reflected(axis).spec_reflected(axis) == self,
    {
        assert(self.spec_reflected(axis).spec_reflected(axis).voxels =~= self.voxels);
    }
}

/// A cubic voxel grid with a palette.
pub struct Vox {
    x_size: i32,
    y_size: i32,
    z_size: i32,
    xyzis: Vec<Voxel>,
    palette: [Rgba; 256],
}

impl View for Vox {
    type V = VoxModel;

    closed spec fn view(&self) -> VoxModel {
        VoxModel {
            x_size: self.x_size as int,
            y_size: self.y_size as int,
            z_size: self.z_size as int,
            voxels: self.xyzis@,
            palette: self.palette@,
        }
    }
}

/// Returns whether the given sizes, voxels and palette make a valid grid.
fn valid_grid(x_size: i32, y_size: i32, z_size: i32, xyzis: &Vec<Voxel>, palette: &[Rgba; 256]) -> (r:
    bool)
    ensures
        r == (VoxModel {
            x_size: x_size as int,
            y_size: y_size as int,
            z_size: z_size as int,
            voxels: xyzis@,
            palette: palette@,
        }).wf(),
{
    if x_size < 0 || x_size > MAX_SIZE || y_size < 0 || y_size > MAX_SIZE || z_size < 0 || z_size
        > MAX_SIZE || xyzis.len() > MAX_VOXELS {
        return false;
    }
    let first = palette[0];
    if first.r != 0 || first.g != 0 || first.b != 0 || first.a != 0 {
        return false;
    }
    for k in 0..xyzis.len()
        invariant
            forall|j: int|
                0 <= j < k ==> {
                    let v = #[trigger] xyzis@[j];
                    v.x < x_size && v.y < y_size && v.z < z_size
                },
    {
        let v = xyzis[k];
        if v.x as i32 >= x_size || v.y as i32 >= y_size || v.z as i32 >= z_size {
            assert(xyzis@[k as int] == v);
            return false;
        }
    }
    true
}

impl Vox {
    /// Whether the grid is a valid one, as every grid that the program holds
    /// is.
    #[verifier::type_invariant]
    pub open spec fn wf(&self) -> bool {
        self@.wf()
    }

    /// Makes a grid of the given size with the given voxels and palette, if
    /// they make a valid grid.
    pub fn new(x_size: i32, y_size: i32, z_size: i32, xyzis: Vec<Voxel>, palette: [Rgba; 256]) -> (r:
        Option<Vox>)
        ensures
            r matches Some(vox) ==> vox.wf() && vox@ == (VoxModel {
                x_size: x_size as int,
                y_size: y_size as int,
                z_size: z_size as int,
                voxels: xyzis@,
                palette: palette@,
            }),
            r is Some <==> (VoxModel {
                x_size: x_size as int,
                y_size: y_size as int,
                z_size: z_size as int,
                voxels: xyzis@,
                palette: palette@,
            }).wf(),
    {
        if valid_grid(x_size, y_size, z_size, &xyzis, &palette) {
            Some(Vox { x_size, y_size, z_size, xyzis, palette })
        } else {
            None
        }
    }

    /// Returns the size of the grid along the x axis.
    pub fn x_size(&self) -> (r: i32)
        ensures
            r == self@.x_size,
    {
        self.x_size
    }

    /// Returns the size of the grid along the y axis.
    pub fn y_size(&self) -> (r: i32)
        ensures
            r == self@.y_size,
    {
        self.y_size
    }

    /// Returns the size of the grid along the z axis.
    pub fn z_size(&self) -> (r: i32)
        ensures
            r == self@.z_size,
    {
        self.z_size
    }

    /// Returns the voxels of the grid.
    pub fn voxels(&self) -> (r: &Vec<Voxel>)
        ensures
            r@ == self@.voxels,
    {
        &self.xyzis
    }

    /// Returns the palette of the grid.
    pub fn palette(&self) -> (r: &[Rgba; 256])
        ensures
            r@ == self@.palette,
    {
        &self.palette
    }

    /// Return a new `Vox` rotated `rotation` degrees about the z axis.
    pub fn rotated(&self, rotation: &Rotation) -> (r: Vox)
        ensures
            r@ == self@.spec_rotated(*rotation),
            r.wf(),
    {
        proof {
            use_type_invariant(self);
            self@.lemma_transformed_wf(*rotation, Axis::X);
        }
        let mut rotated_xyzis: Vec<Voxel> = Vec::new();
        let last_x: i32 = self.x_size - 1;
        let last_y: i32 = self.y_size - 1;
        for k in 0..self.xyzis.len()
            invariant
                self.wf(),
                last_x == self.x_size - 1,
                last_y == self.y_size - 1,
                rotated_xyzis@.len() == k,
                forall|j: int|
                    0 <= j < k ==> #[trigger] rotated_xyzis@[j] == self@.spec_rotated(
                        *rotation,
                    ).voxels[j],
        {
            let v = self.xyzis[k];
            assert(v == self@.voxels[k as int]);
            let turned = match rotation {
                Rotation::R0 => v,
                Rotation::R90 => Voxel { x: (last_y - v.y as i32) as u8, y: v.x, z: v.z, i: v.i },
                Rotation::R180 => Voxel {
                    x: (last_x - v.x as i32) as u8,
                    y: (last_y - v.y as i32) as u8,
                    z: v.z,
                    i: v.i,
                },
                Rotation::R270 => Voxel { x: v.y, y: (last_x - v.x as i32) as u8, z: v.z, i: v.i },
            };
            rotated_xyzis.push(turned);
        }
        let (x_size, y_size) = match rotation {
            Rotation::R0 => (self.x_size, self.y_size),
            Rotation::R90 => (self.y_size, self.x_size),
            Rotation::R180 => (self.x_size, self.y_size),
            Rotation::R270 => (self.y_size, self.x_size),
        };
        assert(rotated_xyzis@ =~= self@.spec_rotated(*rotation).voxels);
        Vox { x_size, y_size, z_size: self.z_size, xyzis: rotated_xyzis, palette: self.palette }
    }

    /// Return a new `Vox` mirrored across `axis`.
    pub fn reflected(&self, axis: &Axis) -> (r: Vox)
        ensures
            r@ == self@.spec_reflected(*axis),
            r.wf(),
    {
        proof {
            use_type_invariant(self);
            self@.lemma_transformed_wf(Rotation::R0, *axis);
        }
        let mut reflected_xyzis: Vec<Voxel> = Vec::new();
        let last_x: i32 = self.x_size - 1;
        let last_y: i32 = self.y_size - 1;
        for k in 0..self.xyzis.len()
            invariant
                self.wf(),
                last_x == self.x_size - 1,
                last_y == self.y_size - 1,
                reflected_xyzis@.len() == k,
                forall|j: int|
                    0 <= j < k ==> #[trigger] reflected_xyzis@[j] == self@.spec_reflected(
                        *axis,
                    ).voxels[j],
        {
            let v = self.xyzis[k];
            assert(v == self@.voxels[k as int]);
            let mirrored = match axis {
                Axis::X => Voxel { x: v.x, y: (last_y - v.y as i32) as u8, z: v.z, i: v.i },
                Axis::Y => Voxel { x: (last_x - v.x as i32) as u8, y: v.y, z: v.z, i: v.i },
            };
            reflected_xyzis.push(mirrored);
        }
        assert(reflected_xyzis@ =~= self@.spec_reflected(*axis).voxels);
        Vox {
            x_size: self.x_size,
            y_size: self.y_size,
            z_size: self.z_size,
            xyzis: reflected_xyzis,
            palette: self.palette,
        }
    }
}

impl Clone for Vox {
    /// Returns a grid that holds the same as this one.
    fn clone(&self) -> (r: Self)
        ensures
            r@ == self@,
            r.wf(),
    {
        proof {
            use_type_invariant(self);
        }
        let mut xyzis: Vec<Voxel> = Vec::new();
        for k in 0..self.xyzis.len()
            invariant
                xyzis@ == self.xyzis@.subrange(0, k as int),
        {
            xyzis.push(self.xyzis[k]);
            assert(xyzis@ =~= self.xyzis@.subrange(0, k + 1));
        }
        assert(xyzis@ =~= self.xyzis@);
        Vox {
            x_size: self.x_size,
            y_size: self.y_size,
            z_size: self.z_size,
            xyzis,
            palette: self.palette,
        }
    }
}

} // verus!
