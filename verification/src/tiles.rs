//! Flat tiles with plain connectors: the graphics of a manifest and the
//! tiles that their quarter turns make.

use vstd::prelude::*;
use vstd::string::*;

verus! {

/// A side of a square graphic.
#[derive(Debug, Eq, PartialEq, Hash, Clone, Copy, Structural)]
pub enum Direction {
    Left,
    Right,
    Up,
    Down,
}

/// How a tile comes of its graphic.
#[derive(Debug, Eq, PartialEq, Hash, Clone, Copy, Structural)]
pub enum Transformation {
    Identity,
    Rotate90,
    Rotate180,
    Rotate270,
}

/// One graphic of a manifest: its name, how many quarter turns make further
/// tiles of it, and the connector on each of its sides.
pub struct Graphic {
    pub name: String,
    pub rotation_count: usize,
    pub left: usize,
    pub right: usize,
    pub up: usize,
    pub down: usize,
}

/// A manifest of graphics: the edge length of a graphic in pixels, the
/// extension of the image files, and the graphics.
pub struct Config {
    pub size: usize,
    pub extension: String,
    pub graphics: Vec<Graphic>,
}

/// The connectors on the four sides of a tile.
pub struct Sides {
    pub left: usize,
    pub right: usize,
    pub up: usize,
    pub down: usize,
}

/// What one tile is: the name of its graphic, how it comes of the graphic,
/// and its connectors.
pub struct TileModel {
    pub graphic: Seq<char>,
    pub transformation: Transformation,
    pub sides: Sides,
}

impl Direction {
    /// The side that touches this one when two tiles are put next to each
    /// other.
    pub open spec fn spec_reverse(self) -> Direction {
        match self {
            Direction::Left => Direction::Right,
            Direction::Right => Direction::Left,
            Direction::Up => Direction::Down,
            Direction::Down => Direction::Up,
        }
    }

    /// Returns the side that touches this one when two tiles are put next to
    /// each other.
    pub fn reverse(self) -> (r: Direction)
        ensures
            r == self.spec_reverse(),
    {
        match self {
            Direction::Left => Direction::Right,
            Direction::Right => Direction::Left,
            Direction::Up => Direction::Down,
            Direction::Down => Direction::Up,
        }
    }
}

impl Transformation {
    /// The transformation that makes the tile after `turns` quarter turns;
    /// `Rotate270` for every number of turns above 2.
    pub open spec fn spec_of_turns(turns: int) -> Transformation {
        if turns == 0 {
            Transformation::Identity
        } else if turns == 1 {
            Transformation::Rotate90
        } else if turns == 2 {
            Transformation::Rotate180
        } else {
            Transformation::Rotate270
        }
    }

    /// Returns the transformation that makes the tile after `turns` quarter
    /// turns.
    pub fn of_turns(turns: usize) -> (r: Transformation)
        requires
            turns <= 3,
        ensures
            r == Transformation::spec_of_turns(turns as int),
    {
        if turns == 0 {
            Transformation::Identity
        } else if turns == 1 {
            Transformation::Rotate90
        } else if turns == 2 {
            Transformation::Rotate180
        } else {
            Transformation::Rotate270
        }
    }
}

impl Sides {
    /// The connectors after a quarter turn: what was below is now on the
    /// left, what was above on the right, the left went up and the right
    /// down.
    pub open spec fn spec_rotate90(self) -> Sides {
        Sides { left: self.down, right: self.up, up: self.left, down: self.right }
    }

    /// The connectors after `turns` quarter turns.
    pub open spec fn spec_rotated(self, turns: nat) -> Sides
        decreases turns,
    {
        if turns == 0 {
            self
        } else {
            self.spec_rotated((turns - 1) as nat).spec_rotate90()
        }
    }

    /// The connector on the side `direction`.
    pub open spec fn spec_get(self, direction: Direction) -> usize {
        match direction {
            Direction::Left => self.left,
            Direction::Right => self.right,
            Direction::Up => self.up,
            Direction::Down => self.down,
        }
    }
}

impl Graphic {
    /// The connectors of the graphic.
    pub open spec fn spec_sides(self) -> Sides {
        Sides { left: self.left, right: self.right, up: self.up, down: self.down }
    }

    /// The tiles that the graphic makes: itself and its first
    /// `rotation_count` quarter turns.
    pub open spec fn spec_tiles(self) -> Seq<TileModel> {
        Seq::new(
            self.rotation_count as nat + 1,
            |turns: int|
                TileModel {
                    graphic: self.name@,
                    transformation: Transformation::spec_of_turns(turns),
                    sides: self.spec_sides().spec_rotated(turns as nat),
                },
        )
    }

    /// Turns the graphic by a quarter turn and counts down the quarter turns
    /// that are left to make.
    pub fn rotate90(&mut self)
        requires
            old(self).rotation_count > 0,
        ensures
            final(self).spec_sides() == old(self).spec_sides().spec_rotate90(),
            final(self).rotation_count == old(self).rotation_count - 1,
            final(self).name == old(self).name,
    {
        let new_up = self.left;
        let new_down = self.right;
        self.left = self.down;
        self.right = self.up;
        self.up = new_up;
        self.down = new_down;
        self.rotation_count -= 1;
    }
}

/// The tiles that the first `count` graphics make.
pub open spec fn spec_tiles(graphics: Seq<Graphic>, count: int) -> Seq<TileModel>
    decreases count,
{
    if count <= 0 {
        Seq::empty()
    } else {
        spec_tiles(graphics, count - 1) + graphics[count - 1].spec_tiles()
    }
}

/// Whether no graphic asks for more than the three quarter turns that there
/// are.
pub open spec fn spec_valid(config: Config) -> bool {
    forall|i: int|
        0 <= i < config.graphics@.len() ==> (#[trigger] config.graphics@[i]).rotation_count <= 3
}

/// For each side, the connector that each tile has on that side.
pub struct Connectors {
    pub left: Vec<usize>,
    pub right: Vec<usize>,
    pub up: Vec<usize>,
    pub down: Vec<usize>,
}

impl Connectors {
    /// Returns the connectors on the side `direction`.
    pub fn get(&self, direction: Direction) -> (r: &Vec<usize>)
        ensures
            r@ == match direction {
                Direction::Left => self.left@,
                Direction::Right => self.right@,
                Direction::Up => self.up@,
                Direction::Down => self.down@,
            },
    {
        match direction {
            Direction::Left => &self.left,
            Direction::Right => &self.right,
            Direction::Up => &self.up,
            Direction::Down => &self.down,
        }
    }
}

/// The tiles of a sample directory.
pub struct Tiles {
    pub len: usize,
    pub path: String,
    pub size: usize,
    pub extension: String,
    pub connectors: Connectors,
    pub graphics: Vec<String>,
    pub transformations: Vec<Transformation>,
}

impl Tiles {
    /// Whether the lists of the tile set hold the tiles `tiles`, entry by
    /// entry.
    pub open spec fn holds(&self, tiles: Seq<TileModel>) -> bool {
        &&& self.graphics@.len() == tiles.len()
        &&& self.transformations@.len() == tiles.len()
        &&& self.connectors.left@.len() == tiles.len()
        &&& self.connectors.right@.len() == tiles.len()
        &&& self.connectors.up@.len() == tiles.len()
        &&& self.connectors.down@.len() == tiles.len()
        &&& forall|i: int|
            0 <= i < tiles.len() ==> {
                &&& self.graphics@[i]@ == (#[trigger] tiles[i]).graphic
                &&& self.transformations@[i] == tiles[i].transformation
                &&& self.connectors.left@[i] == tiles[i].sides.left
                &&& self.connectors.right@[i] == tiles[i].sides.right
                &&& self.connectors.up@[i] == tiles[i].sides.up
                &&& self.connectors.down@[i] == tiles[i].sides.down
            }
    }

    /// Appends a tile of the graphic `graphic`.
    fn push(&mut self, graphic: &Graphic, transformation: Transformation, Ghost(tiles): Ghost<Seq<TileModel>>)
        requires
            old(self).holds(tiles),
        ensures
            final(self).holds(
                tiles.push(
                    TileModel {
                        graphic: graphic.name@,
                        transformation,
                        sides: graphic.spec_sides(),
                    },
                ),
            ),
            final(self).len == old(self).len,
            final(self).path == old(self).path,
            final(self).size == old(self).size,
            final(self).extension == old(self).extension,
    {
        self.graphics.push(graphic.name.clone());
        self.connectors.left.push(graphic.left);
        self.connectors.right.push(graphic.right);
        self.connectors.up.push(graphic.up);
        self.connectors.down.push(graphic.down);
        self.transformations.push(transformation);
    }

    /// Returns the tiles of the manifest `config` of the directory
    /// `sample_dir`: each graphic, followed by as many of its quarter turns as
    /// the manifest asks for.
    pub fn new(sample_dir: &str, config: Config) -> (r: Self)
        requires
            spec_valid(config),
        ensures
            r.holds(spec_tiles(config.graphics@, config.graphics@.len() as int)),
            r.len == spec_tiles(config.graphics@, config.graphics@.len() as int).len(),
            r.path@ == sample_dir@,
            r.size == config.size,
            r.extension@ == config.extension@,
    {
        let mut config = config;
        let ghost graphics = config.graphics@;
        let mut tiles = Tiles {
            len: 0,
            path: String::from_str(sample_dir),
            size: config.size,
            extension: config.extension.clone(),
            connectors: Connectors {
                left: Vec::new(),
                right: Vec::new(),
                up: Vec::new(),
                down: Vec::new(),
            },
            graphics: Vec::new(),
            transformations: Vec::new(),
        };
        let count = config.graphics.len();
        for g in 0..count
            invariant
                count == graphics.len(),
                config.graphics@.len() == count,
                forall|i: int| g <= i < count ==> config.graphics@[i] == graphics[i],
                forall|i: int| 0 <= i < count ==> (#[trigger] graphics[i]).rotation_count <= 3,
                tiles.holds(spec_tiles(graphics, g as int)),
                tiles.path@ == sample_dir@,
                tiles.size == config.size,
                tiles.extension@ == config.extension@,
        {
            let ghost base = graphics[g as int];
            let ghost earlier = spec_tiles(graphics, g as int);
            let mut graphic = Graphic {
                name: config.graphics[g].name.clone(),
                rotation_count: config.graphics[g].rotation_count,
                left: config.graphics[g].left,
                right: config.graphics[g].right,
                up: config.graphics[g].up,
                down: config.graphics[g].down,
            };
            tiles.push(&graphic, Transformation::Identity, Ghost(earlier));
            let rotation_count = graphic.rotation_count;
            let mut current_transformation: usize = 0;
            assert(earlier.push(base.spec_tiles()[0]) =~= earlier
                + base.spec_tiles().subrange(0, 1));
            while graphic.rotation_count > 0
                invariant
                    rotation_count == base.rotation_count,
                    rotation_count <= 3,
                    graphic.name@ == base.name@,
                    current_transformation + graphic.rotation_count == rotation_count,
                    graphic.spec_sides() == base.spec_sides().spec_rotated(
                        current_transformation as nat,
                    ),
                    tiles.holds(
                        earlier + base.spec_tiles().subrange(0, current_transformation + 1),
                    ),
                    tiles.path@ == sample_dir@,
                    tiles.size == config.size,
                    tiles.extension@ == config.extension@,
                decreases graphic.rotation_count,
            {
                let ghost listed = earlier + base.spec_tiles().subrange(
                    0,
                    current_transformation + 1,
                );
                graphic.rotate90();
                current_transformation += 1;
                tiles.push(
                    &graphic,
                    Transformation::of_turns(current_transformation),
                    Ghost(listed),
                );
                assert(listed.push(base.spec_tiles()[current_transformation as int]) =~= earlier
                    + base.spec_tiles().subrange(0, current_transformation + 1));
            }
            assert(base.spec_tiles().subrange(0, rotation_count + 1) =~= base.spec_tiles());
        }
        let len = tiles.transformations.len();
        tiles.len = len;
        tiles
    }

    /// Returns the name of the graphic of each tile.
    pub fn graphics(&self) -> (r: &Vec<String>)
        ensures
            r@ == self.graphics@,
    {
        &self.graphics
    }

    /// Returns how each tile comes of its graphic.
    pub fn transformations(&self) -> (r: &Vec<Transformation>)
        ensures
            r@ == self.transformations@,
    {
        &self.transformations
    }
}

/// Returns whether no graphic of the manifest asks for more than three
/// quarter turns.
pub fn is_valid(config: &Config) -> (r: bool)
    ensures
        r == spec_valid(*config),
{
    for i in 0..config.graphics.len()
        invariant
            forall|j: int| 0 <= j < i ==> (#[trigger] config.graphics@[j]).rotation_count <= 3,
    {
        if config.graphics[i].rotation_count > 3 {
            return false;
        }
    }
    true
}

} // verus!
