//! Flat tiles: the connectors of square graphics under quarter turns and
//! reflections.

use vstd::prelude::*;

verus! {

/// A side of a square graphic.
#[derive(Debug, Eq, PartialEq, Hash, Clone, Copy, Structural)]
pub enum Direction {
    Left,
    Right,
    Up,
    Down,
}

/// Number of sides of a graphic.
pub const DIRECTION_COUNT: usize = 4;

/// The connector on a side of a graphic: an id and a rotation, where the
/// rotation -1 marks a connector that looks the same however it is turned.
pub type Connector = (usize, i8);

impl Direction {
    /// Position of the side in the fixed order `Left, Right, Up, Down`.
    pub open spec fn spec_index(self) -> int {
        match self {
            Direction::Left => 0,
            Direction::Right => 1,
            Direction::Up => 2,
            Direction::Down => 3,
        }
    }

    /// The side at position `value` of the fixed order; `Down` for every
    /// `value` above 2.
    pub open spec fn spec_from_usize(value: int) -> Direction {
        if value == 0 {
            Direction::Left
        } else if value == 1 {
            Direction::Right
        } else if value == 2 {
            Direction::Up
        } else {
            Direction::Down
        }
    }

    /// Returns the side at position `value` of the fixed order.
    pub fn from_usize(value: usize) -> (r: Direction)
        requires
            value < DIRECTION_COUNT,
        ensures
            r == Direction::spec_from_usize(value as int),
            r.spec_index() == value,
    {
        if value == 0 {
            Direction::Left
        } else if value == 1 {
            Direction::Right
        } else if value == 2 {
            Direction::Up
        } else {
            Direction::Down
        }
    }

    /// Returns the position of the side in the fixed order.
    pub fn index(self) -> (r: usize)
        ensures
            r == self.spec_index(),
            r < DIRECTION_COUNT,
    {
        match self {
            Direction::Left => 0,
            Direction::Right => 1,
            Direction::Up => 2,
            Direction::Down => 3,
        }
    }
}

/// One graphic of a manifest: its name, how many quarter turns and which
/// reflections make further tiles of it, and the connectors of its sides in
/// the order left, right, up, down.
pub struct Graphic {
    pub name: String,
    pub rotation_count: usize,
    pub reflect_x: bool,
    pub reflect_y: bool,
    pub connector_spec: [Connector; 4],
}

/// A manifest of graphics: the edge length of a graphic in pixels, the
/// extension of the image files, and the graphics.
pub struct Config {
    pub size: usize,
    pub extension: String,
    pub graphics: Vec<Graphic>,
}

/// The rotation `rotation` advanced by `by` quarter turns: the remainder of
/// their sum by 4, with the sign of the sum.
pub open spec fn spec_advanced(rotation: i8, by: int) -> i8 {
    let sum = rotation + by;
    if sum >= 0 {
        (sum % 4) as i8
    } else {
        (-((-sum) % 4)) as i8
    }
}

/// The connector after a quarter turn: its rotation advances by one, unless
/// it is -1.
pub open spec fn spec_turned(connector: Connector) -> Connector {
    if connector.1 == -1 {
        connector
    } else {
        (connector.0, spec_advanced(connector.1, 1))
    }
}

/// The connectors of a graphic after a quarter turn: what was below is now on
/// the left, what was above on the right, the left went up and the right
/// down, and every connector is turned.
pub open spec fn spec_rotate90(connector_spec: Seq<Connector>) -> Seq<Connector> {
    seq![
        spec_turned(connector_spec[3]),
        spec_turned(connector_spec[2]),
        spec_turned(connector_spec[0]),
        spec_turned(connector_spec[1]),
    ]
}

/// The connectors of a graphic mirrored top to bottom: up and down change
/// places, left and right advance by two quarter turns.
pub open spec fn spec_reflect_x(connector_spec: Seq<Connector>) -> Seq<Connector> {
    seq![
        (connector_spec[0].0, spec_advanced(connector_spec[0].1, 2)),
        (connector_spec[1].0, spec_advanced(connector_spec[1].1, 2)),
        connector_spec[3],
        connector_spec[2],
    ]
}

/// The connectors of a graphic mirrored left to right: left and right change
/// places, up and down advance by two quarter turns.
pub open spec fn spec_reflect_y(connector_spec: Seq<Connector>) -> Seq<Connector> {
    seq![
        connector_spec[1],
        connector_spec[0],
        (connector_spec[2].0, spec_advanced(connector_spec[2].1, 2)),
        (connector_spec[3].0, spec_advanced(connector_spec[3].1, 2)),
    ]
}

/// The connectors of a graphic after `turns` quarter turns.
pub open spec fn spec_rotated(connector_spec: Seq<Connector>, turns: nat) -> Seq<Connector>
    decreases turns,
{
    if turns == 0 {
        connector_spec
    } else {
        spec_rotate90(spec_rotated(connector_spec, (turns - 1) as nat))
    }
}

/// The connectors of a graphic and of its first `rotation_count` quarter
/// turns, one after the other.
pub open spec fn spec_rotations(connector_spec: Seq<Connector>, rotation_count: nat) -> Seq<
    Seq<Connector>,
> {
    Seq::new(rotation_count + 1, |turns: int| spec_rotated(connector_spec, turns as nat))
}

/// The connectors of all tiles that a graphic makes: the graphic and its
/// quarter turns, then the same of its reflection top to bottom and of its
/// reflection left to right, where the manifest asks for them.
pub open spec fn spec_graphic_tiles(graphic: Graphic) -> Seq<Seq<Connector>> {
    spec_rotations(graphic.connector_spec@, graphic.rotation_count as nat) + (if graphic.reflect_x {
        spec_rotations(spec_reflect_x(graphic.connector_spec@), graphic.rotation_count as nat)
    } else {
        Seq::empty()
    }) + (if graphic.reflect_y {
        spec_rotations(spec_reflect_y(graphic.connector_spec@), graphic.rotation_count as nat)
    } else {
        Seq::empty()
    })
}

/// The connectors of all tiles that the first `count` graphics make.
pub open spec fn spec_tiles(graphics: Seq<Graphic>, count: int) -> Seq<Seq<Connector>>
    decreases count,
{
    if count <= 0 {
        Seq::empty()
    } else {
        spec_tiles(graphics, count - 1) + spec_graphic_tiles(graphics[count - 1])
    }
}

/// The connectors that the tiles `tiles` have on the side at position `side`.
pub open spec fn spec_side(tiles: Seq<Seq<Connector>>, side: int) -> Seq<Connector> {
    Seq::new(tiles.len(), |i: int| tiles[i][side])
}

/// For each side, the connector that each tile has on that side.
pub struct ConnectorMap {
    pub left: Vec<Connector>,
    pub right: Vec<Connector>,
    pub up: Vec<Connector>,
    pub down: Vec<Connector>,
}

impl ConnectorMap {
    /// The connectors on the side `direction`.
    pub open spec fn spec_get(self, direction: Direction) -> Seq<Connector> {
        match direction {
            Direction::Left => self.left@,
            Direction::Right => self.right@,
            Direction::Up => self.up@,
            Direction::Down => self.down@,
        }
    }

    /// Whether the map holds the connectors of `earlier` followed by those of
    /// the tiles `tiles`, side by side.
    pub open spec fn extends(self, earlier: ConnectorMap, tiles: Seq<Seq<Connector>>) -> bool {
        &&& self.left@ == earlier.left@ + spec_side(tiles, 0)
        &&& self.right@ == earlier.right@ + spec_side(tiles, 1)
        &&& self.up@ == earlier.up@ + spec_side(tiles, 2)
        &&& self.down@ == earlier.down@ + spec_side(tiles, 3)
    }

    /// Whether the map holds the connectors of the tiles `tiles`, side by
    /// side.
    pub open spec fn holds(self, tiles: Seq<Seq<Connector>>) -> bool {
        &&& self.left@ == spec_side(tiles, 0)
        &&& self.right@ == spec_side(tiles, 1)
        &&& self.up@ == spec_side(tiles, 2)
        &&& self.down@ == spec_side(tiles, 3)
    }

    /// Returns the connectors on the side `direction`.
    pub fn get(&self, direction: Direction) -> (r: &Vec<Connector>)
        ensures
            r@ == self.spec_get(direction),
    {
        match direction {
            Direction::Left => &self.left,
            Direction::Right => &self.right,
            Direction::Up => &self.up,
            Direction::Down => &self.down,
        }
    }
}

/// The connectors on one side of two lists of tiles, one after the other,
/// are those of the first list followed by those of the second.
pub proof fn lemma_side_of_both(
    tiles: Seq<Seq<Connector>>,
    more: Seq<Seq<Connector>>,
    side: int,
)
    ensures
        spec_side(tiles + more, side) == spec_side(tiles, side) + spec_side(more, side),
{
    assert(spec_side(tiles + more, side) =~= spec_side(tiles, side) + spec_side(more, side));
}

/// Returns the rotation advanced by `by` quarter turns.
fn advanced(rotation: i8, by: i8) -> (r: i8)
    requires
        0 <= by <= 2,
    ensures
        r == spec_advanced(rotation, by as int),
{
    let sum: i16 = rotation as i16 + by as i16;
    if sum >= 0 {
        let remainder: u16 = (sum as u16) % 4;
        remainder as i8
    } else {
        let remainder: u16 = ((-sum) as u16) % 4;
        -(remainder as i8)
    }
}

/// Returns the connector after a quarter turn.
fn turned(connector: Connector) -> (r: Connector)
    ensures
        r == spec_turned(connector),
{
    if connector.1 == -1 {
        connector
    } else {
        (connector.0, advanced(connector.1, 1))
    }
}

/// Returns the connectors of a graphic after a quarter turn.
pub fn rotate90(connector_spec: [Connector; 4]) -> (r: [Connector; 4])
    ensures
        r@ == spec_rotate90(connector_spec@),
{
    let output: [Connector; 4] = [
        turned(connector_spec[3]),
        turned(connector_spec[2]),
        turned(connector_spec[0]),
        turned(connector_spec[1]),
    ];
    assert(output@ =~= spec_rotate90(connector_spec@));
    output
}

/// Returns the connectors of a graphic mirrored top to bottom.
pub fn reflect_x(connector_spec: [Connector; 4]) -> (r: [Connector; 4])
    ensures
        r@ == spec_reflect_x(connector_spec@),
{
    let output: [Connector; 4] = [
        (connector_spec[0].0, advanced(connector_spec[0].1, 2)),
        (connector_spec[1].0, advanced(connector_spec[1].1, 2)),
        connector_spec[3],
        connector_spec[2],
    ];
    assert(output@ =~= spec_reflect_x(connector_spec@));
    output
}

/// Returns the connectors of a graphic mirrored left to right.
pub fn reflect_y(connector_spec: [Connector; 4]) -> (r: [Connector; 4])
    ensures
        r@ == spec_reflect_y(connector_spec@),
{
    let output: [Connector; 4] = [
        connector_spec[1],
        connector_spec[0],
        (connector_spec[2].0, advanced(connector_spec[2].1, 2)),
        (connector_spec[3].0, advanced(connector_spec[3].1, 2)),
    ];
    assert(output@ =~= spec_reflect_y(connector_spec@));
    output
}

/// Appends the connectors of one tile to the map.
pub fn insert(connector_map: &mut ConnectorMap, connector_spec: [Connector; 4])
    ensures
        final(connector_map).extends(*old(connector_map), seq![connector_spec@]),
{
    connector_map.left.push(connector_spec[0]);
    connector_map.right.push(connector_spec[1]);
    connector_map.up.push(connector_spec[2]);
    connector_map.down.push(connector_spec[3]);
    proof {
        let tiles = seq![connector_spec@];
        assert(connector_map.left@ =~= old(connector_map).left@ + spec_side(tiles, 0));
        assert(connector_map.right@ =~= old(connector_map).right@ + spec_side(tiles, 1));
        assert(connector_map.up@ =~= old(connector_map).up@ + spec_side(tiles, 2));
        assert(connector_map.down@ =~= old(connector_map).down@ + spec_side(tiles, 3));
    }
}

/// Appends the connectors of a graphic and of its first `rotation_count`
/// quarter turns to the map.
pub fn insert_connections(
    connector_map: &mut ConnectorMap,
    connector_spec: [Connector; 4],
    rotation_count: usize,
)
    ensures
        final(connector_map).extends(
            *old(connector_map),
            spec_rotations(connector_spec@, rotation_count as nat),
        ),
{
    let ghost first = connector_spec@;
    let mut connector_spec = connector_spec;
    insert(connector_map, connector_spec);
    assert(seq![first] =~= spec_rotations(first, 0));
    for turn in 0..rotation_count
        invariant
            connector_spec@ == spec_rotated(first, turn as nat),
            connector_map.extends(*old(connector_map), spec_rotations(first, turn as nat)),
    {
        let ghost earlier = spec_rotations(first, turn as nat);
        connector_spec = rotate90(connector_spec);
        insert(connector_map, connector_spec);
        proof {
            assert(spec_rotations(first, (turn + 1) as nat) =~= earlier + seq![connector_spec@]);
            lemma_side_of_both(earlier, seq![connector_spec@], 0);
            lemma_side_of_both(earlier, seq![connector_spec@], 1);
            lemma_side_of_both(earlier, seq![connector_spec@], 2);
            lemma_side_of_both(earlier, seq![connector_spec@], 3);
            let later = spec_rotations(first, (turn + 1) as nat);
            assert(connector_map.left@ =~= old(connector_map).left@ + spec_side(later, 0));
            assert(connector_map.right@ =~= old(connector_map).right@ + spec_side(later, 1));
            assert(connector_map.up@ =~= old(connector_map).up@ + spec_side(later, 2));
            assert(connector_map.down@ =~= old(connector_map).down@ + spec_side(later, 3));
        }
    }
}

/// Returns, for each side, the connector that each tile of the manifest has
/// on that side.
pub fn connector_map(config: &Config) -> (r: ConnectorMap)
    ensures
        r.holds(spec_tiles(config.graphics@, config.graphics@.len() as int)),
{
    let mut connector_map = ConnectorMap {
        left: Vec::new(),
        right: Vec::new(),
        up: Vec::new(),
        down: Vec::new(),
    };
    proof {
        let none = spec_tiles(config.graphics@, 0);
        assert(connector_map.left@ =~= spec_side(none, 0));
        assert(connector_map.right@ =~= spec_side(none, 1));
        assert(connector_map.up@ =~= spec_side(none, 2));
        assert(connector_map.down@ =~= spec_side(none, 3));
    }
    for g in 0..config.graphics.len()
        invariant
            connector_map.holds(spec_tiles(config.graphics@, g as int)),
    {
        let graphic = &config.graphics[g];
        let connector_spec = graphic.connector_spec;
        let ghost mut listed = spec_tiles(config.graphics@, g as int);
        let ghost plain = spec_rotations(connector_spec@, graphic.rotation_count as nat);
        insert_connections(&mut connector_map, connector_spec, graphic.rotation_count);
        proof {
            lemma_sides_of_both(listed, plain);
            listed = listed + plain;
        }
        if graphic.reflect_x {
            let reflected = reflect_x(connector_spec);
            insert_connections(&mut connector_map, reflected, graphic.rotation_count);
            proof {
                let more = spec_rotations(reflected@, graphic.rotation_count as nat);
                lemma_sides_of_both(listed, more);
                listed = listed + more;
            }
        }
        if graphic.reflect_y {
            let reflected = reflect_y(connector_spec);
            insert_connections(&mut connector_map, reflected, graphic.rotation_count);
            proof {
                let more = spec_rotations(reflected@, graphic.rotation_count as nat);
                lemma_sides_of_both(listed, more);
                listed = listed + more;
            }
        }
        assert(listed =~= spec_tiles(config.graphics@, g as int) + spec_graphic_tiles(*graphic));
    }
    connector_map
}

/// On every side, the connectors of two lists of tiles, one after the other,
/// are those of the first list followed by those of the second.
proof fn lemma_sides_of_both(tiles: Seq<Seq<Connector>>, more: Seq<Seq<Connector>>)
    ensures
        spec_side(tiles + more, 0) == spec_side(tiles, 0) + spec_side(more, 0),
        spec_side(tiles + more, 1) == spec_side(tiles, 1) + spec_side(more, 1),
        spec_side(tiles + more, 2) == spec_side(tiles, 2) + spec_side(more, 2),
        spec_side(tiles + more, 3) == spec_side(tiles, 3) + spec_side(more, 3),
{
    lemma_side_of_both(tiles, more, 0);
    lemma_side_of_both(tiles, more, 1);
    lemma_side_of_both(tiles, more, 2);
    lemma_side_of_both(tiles, more, 3);
}

/// Returns where the graphic of the slot `slot` goes in a picture that is
/// `width` slots wide, in pixels from the left and from the top: slots fill
/// the picture row by row, and every slot is `size` pixels wide and high.
pub fn position(slot: usize, width: usize, size: usize) -> (r: (usize, usize))
    requires
        width > 0,
        (slot % width) * size <= usize::MAX,
        (slot / width) * size <= usize::MAX,
    ensures
        r.0 == (slot % width) * size,
        r.1 == (slot / width) * size,
{
    ((slot % width) * size, (slot / width) * size)
}

} // verus!
