//! The driver: it builds the grid, runs the solver until every cell holds
//! one tile or a contradiction ends the attempt, and writes down the result
//! for the viewer.

use vstd::prelude::*;
use vstd::string::*;
use crate::connector::Connectors;
use crate::constraints::Constraints;
use crate::coordinate::{
    edge_wave, edges, graph_closed, graph_symmetric, lemma_edge_at, lemma_edge_present,
    lemma_neighbour_exists,
    lemma_single_cell, spec_edge_wave, spec_edges, spec_step, spec_volume, Coordinates,
};
use crate::face::Face;
use crate::propagation::{
    count, edge_cell, edge_face, lemma_all_collapsed, lemma_count_witness, lemma_solved,
    lemma_zeros_bounds, only, propagated, starved_at, supported, ContradictionModel, WavesModel,
};
use crate::text::{decimal, spec_decimal};
use crate::tile::{spec_built_from, Tiles};
use crate::wave::{Contradiction, Waves};

verus! {

/// Why an attempt to fill the grid ended without a result.
#[derive(Debug)]
pub enum WfcError {
    /// There are cells to fill and no tiles to fill them with.
    NoTiles,
    /// Propagation left some cell without a candidate.
    Contradiction(Contradiction),
}

/// Whether the cell at `(x, y, z)` lies inside a grid of the given size.
pub open spec fn in_grid(w: int, d: int, h: int, x: int, y: int, z: int) -> bool {
    0 <= x < w && 0 <= y < d && 0 <= z < h
}

/// Whether tile `t` is one of the tiles that `rows` leaves to the cell at
/// `(x, y, z)`.
pub open spec fn holds(rows: Seq<Vec<bool>>, w: int, d: int, x: int, y: int, z: int, t: int) -> bool {
    let c = spec_edge_wave(w, d, x, y, z);
    0 <= c < rows.len() && 0 <= t < rows[c]@.len() && rows[c]@[t]
}

/// Whether tile `u` is one of the tiles that `rows` leaves to the neighbour
/// of the cell at `(x, y, z)` across `face`.
pub open spec fn neighbour_holds(
    rows: Seq<Vec<bool>>,
    w: int,
    d: int,
    x: int,
    y: int,
    z: int,
    face: Face,
    u: int,
) -> bool {
    holds(rows, w, d, x + spec_step(face).0, y + spec_step(face).1, z + spec_step(face).2, u)
}

/// Whether `rows` is a solution for a grid of the given size and the tiles
/// with the given connectors: every cell holds exactly one tile, and wherever
/// two cells touch, the connectors on the faces that they share fit.
pub open spec fn solved(w: int, d: int, h: int, connectors: Seq<Connectors>, rows: Seq<Vec<bool>>) -> bool {
    &&& rows.len() == spec_volume(w, d, h)
    &&& forall|c: int| 0 <= c < rows.len() ==> (#[trigger] rows[c])@.len() == connectors.len()
    &&& forall|c: int| 0 <= c < rows.len() ==> count((#[trigger] rows[c])@) == 1
    &&& forall|x: int, y: int, z: int, face: Face, t: int, u: int|
        #![trigger holds(rows, w, d, x, y, z, t), neighbour_holds(rows, w, d, x, y, z, face, u)]
        in_grid(w, d, h, x, y, z) && in_grid(
            w,
            d,
            h,
            x + spec_step(face).0,
            y + spec_step(face).1,
            z + spec_step(face).2,
        ) && holds(rows, w, d, x, y, z, t) && neighbour_holds(rows, w, d, x, y, z, face, u)
            ==> connectors[t].spec_accepts(face, connectors[u])
}

/// Whether tile `u` can stand on the `face` side of none of the tiles that
/// `tiles` flags.
pub open spec fn rejected(connectors: Seq<Connectors>, tiles: Seq<bool>, face: Face, u: int) -> bool {
    forall|t: int|
        0 <= t < tiles.len() && tiles[t] ==> !(#[trigger] connectors[t]).spec_accepts(
            face,
            connectors[u],
        )
}

/// Whether the contradiction `k` is a true one for the tiles with the given
/// connectors: the cell that it names held a tile, and some tile can stand
/// next to none of the tiles that the cell held, on the face that it names.
pub open spec fn contradicted(connectors: Seq<Connectors>, k: ContradictionModel) -> bool {
    &&& k.tiles.len() == connectors.len()
    &&& exists|t: int| 0 <= t < k.tiles.len() && #[trigger] k.tiles[t]
    &&& exists|u: int|
        0 <= u < connectors.len() && #[trigger] rejected(connectors, k.tiles, k.face, u)
}

/// Whether the cell with the index `cell` has a neighbour across `face` in a
/// grid of the given size.
pub open spec fn has_neighbour(w: int, d: int, h: int, cell: int, face: Face) -> bool {
    exists|x: int, y: int, z: int|
        #![trigger spec_edge_wave(w, d, x, y, z)]
        in_grid(w, d, h, x, y, z) && spec_edge_wave(w, d, x, y, z) == cell && in_grid(
            w,
            d,
            h,
            x + spec_step(face).0,
            y + spec_step(face).1,
            z + spec_step(face).2,
        )
}

/// Whether every tile may stand on every side of every tile.
pub open spec fn all_compatible(connectors: Seq<Connectors>) -> bool {
    forall|face: Face, t: int, u: int|
        0 <= t < connectors.len() && 0 <= u < connectors.len() ==> #[trigger] connectors[t].spec_accepts(
            face,
            connectors[u],
        )
}

/// Whether no tile may stand on any side of any tile.
pub open spec fn none_compatible(connectors: Seq<Connectors>) -> bool {
    forall|face: Face, t: int, u: int|
        0 <= t < connectors.len() && 0 <= u < connectors.len() ==> !#[trigger] connectors[t].spec_accepts(
            face,
            connectors[u],
        )
}

/// The line that places the voxel asset at `path` in the cell at `xyz`:
/// the coordinates of the cell in voxels, then the path.
pub open spec fn spec_line(xyz: (usize, usize, usize), size: int, path: Seq<char>) -> Seq<char> {
    spec_decimal((xyz.0 * size) as nat) + " "@ + spec_decimal((xyz.1 * size) as nat) + " "@
        + spec_decimal((xyz.2 * size) as nat) + " "@ + path + "\n"@
}

/// The lines of the cell at `xyz` for those of the first `t` tiles that `row`
/// flags, in ascending order.
pub open spec fn spec_cell_lines(
    row: Seq<bool>,
    paths: Seq<String>,
    xyz: (usize, usize, usize),
    size: int,
    t: int,
) -> Seq<char>
    decreases t,
{
    if t <= 0 {
        Seq::empty()
    } else {
        spec_cell_lines(row, paths, xyz, size, t - 1) + if row[t - 1] {
            spec_line(xyz, size, paths[t - 1]@)
        } else {
            Seq::empty()
        }
    }
}

/// The lines of the first `c` cells.
pub open spec fn spec_lines(
    coordinates: Seq<(usize, usize, usize)>,
    rows: Seq<Vec<bool>>,
    paths: Seq<String>,
    size: int,
    c: int,
) -> Seq<char>
    decreases c,
{
    if c <= 0 {
        Seq::empty()
    } else {
        spec_lines(coordinates, rows, paths, size, c - 1) + spec_cell_lines(
            rows[c - 1]@,
            paths,
            coordinates[c - 1],
            size,
            rows[c - 1]@.len() as int,
        )
    }
}

/// The text for the viewer: a comment, the edge length of the whole in
/// voxels, and one line for every tile that is left to a cell.
pub open spec fn spec_render(
    largest: int,
    size: int,
    paths: Seq<String>,
    coordinates: Seq<(usize, usize, usize)>,
    rows: Seq<Vec<bool>>,
) -> Seq<char> {
    "// Generated wfc output\n"@ + "mv_import "@ + spec_decimal((largest * size) as nat) + "\n"@
        + spec_lines(
        coordinates,
        rows,
        paths,
        size,
        if coordinates.len() <= rows.len() {
            coordinates.len() as int
        } else {
            rows.len() as int
        },
    )
}

/// The largest of three numbers.
pub open spec fn spec_largest(a: int, b: int, c: int) -> int {
    if a >= b && a >= c {
        a
    } else if b >= c {
        b
    } else {
        c
    }
}

/// A container for the necessary data to run `wfc`.
pub struct Model {
    sample_dir: String,
    width: usize,
    depth: usize,
    height: usize,
    output_file: String,
}

impl Model {
    /// Directory of the manifest and the voxel assets.
    pub closed spec fn spec_sample_dir(&self) -> Seq<char> {
        self.sample_dir@
    }

    /// Path of the file for the viewer.
    pub closed spec fn spec_output_file(&self) -> Seq<char> {
        self.output_file@
    }

    /// Number of cells along the x axis.
    pub closed spec fn spec_width(&self) -> int {
        self.width as int
    }

    /// Number of cells along the y axis.
    pub closed spec fn spec_depth(&self) -> int {
        self.depth as int
    }

    /// Number of cells along the z axis.
    pub closed spec fn spec_height(&self) -> int {
        self.height as int
    }

    /// Number of cells of the grid.
    pub open spec fn spec_cells(&self) -> int {
        spec_volume(self.spec_width(), self.spec_depth(), self.spec_height())
    }

    /// Constructs a `Model` for the Wave Function Collapse Algorithm.
    pub fn new(sample_dir: &str, width: usize, depth: usize, height: usize, output_file: &str) -> (r:
        Self)
        ensures
            r.spec_sample_dir() == sample_dir@,
            r.spec_width() == width,
            r.spec_depth() == depth,
            r.spec_height() == height,
            r.spec_output_file() == output_file@,
    {
        Self {
            sample_dir: String::from_str(sample_dir),
            width,
            depth,
            height,
            output_file: String::from_str(output_file),
        }
    }

    /// Returns the directory of the manifest and the voxel assets.
    pub fn sample_dir(&self) -> (r: &str)
        ensures
            r@ == self.spec_sample_dir(),
    {
        self.sample_dir.as_str()
    }

    /// Returns the path of the file for the viewer.
    pub fn output_file(&self) -> (r: &str)
        ensures
            r@ == self.spec_output_file(),
    {
        self.output_file.as_str()
    }

    /// Returns the number of cells along the x axis.
    pub fn width(&self) -> (r: usize)
        ensures
            r == self.spec_width(),
    {
        self.width
    }

    /// Returns the number of cells along the y axis.
    pub fn depth(&self) -> (r: usize)
        ensures
            r == self.spec_depth(),
    {
        self.depth
    }

    /// Returns the number of cells along the z axis.
    pub fn height(&self) -> (r: usize)
        ensures
            r == self.spec_height(),
    {
        self.height
    }

    /// Returns valid wave edges for a coordinate in the wave graph.
    pub fn wave_edges(&self, x: usize, y: usize, z: usize) -> (r: Vec<(usize, Face)>)
        requires
            x < self.spec_width(),
            y < self.spec_depth(),
            z < self.spec_height(),
            self.spec_cells() <= usize::MAX,
        ensures
            r@ == spec_edges(
                self.spec_width(),
                self.spec_depth(),
                self.spec_height(),
                x as int,
                y as int,
                z as int,
            ),
    {
        edges(self.width, self.depth, self.height, x, y, z)
    }

    /// Returns the wave for a given coordinate.
    pub fn edge_wave(&self, x: usize, y: usize, z: usize) -> (r: usize)
        requires
            y < self.spec_depth(),
            spec_edge_wave(self.spec_width(), self.spec_depth(), x as int, y as int, z as int)
                <= usize::MAX,
        ensures
            r == spec_edge_wave(self.spec_width(), self.spec_depth(), x as int, y as int, z as int),
    {
        edge_wave(self.width, self.depth, x, y, z)
    }

    /// Returns the text of a MagicaVoxel Viewer mv_import file that renders
    /// the final waves: `tiles` holds for each cell the flags of the tiles that
    /// are left to it, `coordinates` the place of each cell, and `vox_paths`
    /// the path of the voxel asset of each tile.
    pub fn render(
        &self,
        tile_size: usize,
        vox_paths: &Vec<String>,
        coordinates: &Vec<(usize, usize, usize)>,
        tiles: &Vec<Vec<bool>>,
    ) -> (r: String)
        requires
            spec_largest(self.spec_width(), self.spec_depth(), self.spec_height()) * tile_size
                <= usize::MAX,
            forall|c: int|
                0 <= c < coordinates@.len() ==> {
                    let xyz = #[trigger] coordinates@[c];
                    xyz.0 * tile_size <= usize::MAX && xyz.1 * tile_size <= usize::MAX && xyz.2
                        * tile_size <= usize::MAX
                },
            forall|c: int| 0 <= c < tiles@.len() ==> (#[trigger] tiles@[c])@.len() <= vox_paths@.len(),
        ensures
            r@ == spec_render(
                spec_largest(self.spec_width(), self.spec_depth(), self.spec_height()),
                tile_size as int,
                vox_paths@,
                coordinates@,
                tiles@,
            ),
    {
        let mut max_dimension_size = self.width;
        if self.depth > max_dimension_size {
            max_dimension_size = self.depth;
        }
        if self.height > max_dimension_size {
            max_dimension_size = self.height;
        }
        let mv_import_size = max_dimension_size * tile_size;
        let mut text = String::from_str("// Generated wfc output\n");
        text.append("mv_import ");
        text.append(decimal(mv_import_size).as_str());
        text.append("\n");
        let ghost head = text@;
        let cells = if coordinates.len() <= tiles.len() {
            coordinates.len()
        } else {
            tiles.len()
        };
        for c in 0..cells
            invariant
                cells <= coordinates@.len(),
                cells <= tiles@.len(),
                forall|c: int|
                    0 <= c < coordinates@.len() ==> {
                        let xyz = #[trigger] coordinates@[c];
                        xyz.0 * tile_size <= usize::MAX && xyz.1 * tile_size <= usize::MAX && xyz.2
                            * tile_size <= usize::MAX
                    },
                forall|c: int|
                    0 <= c < tiles@.len() ==> (#[trigger] tiles@[c])@.len() <= vox_paths@.len(),
                text@ == head + spec_lines(coordinates@, tiles@, vox_paths@, tile_size as int, c as int),
        {
            let xyz = coordinates[c];
            let row = &tiles[c];
            let ghost before = text@;
            assert(row@.len() <= vox_paths@.len());
            for tile in 0..row.len()
                invariant
                    xyz == coordinates@[c as int],
                    xyz.0 * tile_size <= usize::MAX,
                    xyz.1 * tile_size <= usize::MAX,
                    xyz.2 * tile_size <= usize::MAX,
                    row@.len() <= vox_paths@.len(),
                    text@ == before + spec_cell_lines(
                        row@,
                        vox_paths@,
                        xyz,
                        tile_size as int,
                        tile as int,
                    ),
            {
                if row[tile] {
                    let ghost start = text@;
                    let x = xyz.0 * tile_size;
                    let y = xyz.1 * tile_size;
                    let z = xyz.2 * tile_size;
                    text.append(decimal(x).as_str());
                    text.append(" ");
                    text.append(decimal(y).as_str());
                    text.append(" ");
                    text.append(decimal(z).as_str());
                    text.append(" ");
                    text.append(vox_paths[tile].as_str());
                    text.append("\n");
                    assert(text@ =~= start + spec_line(xyz, tile_size as int, vox_paths@[tile as int]@));
                    assert(text@ =~= before + spec_cell_lines(
                        row@,
                        vox_paths@,
                        xyz,
                        tile_size as int,
                        tile + 1,
                    ));
                } else {
                    assert(text@ =~= before + spec_cell_lines(
                        row@,
                        vox_paths@,
                        xyz,
                        tile_size as int,
                        tile + 1,
                    ));
                }
            }
            assert(text@ =~= head + spec_lines(
                coordinates@,
                tiles@,
                vox_paths@,
                tile_size as int,
                c + 1,
            ));
        }
        text
    }

    /// Runs the Wave Function Collapse Algorithm once on the given tiles: the
    /// cell of least entropy is observed and the observation propagated, until
    /// every cell is observed or a contradiction ends the attempt. Returns, for
    /// each cell, the flags of the tiles that are left to it.
    pub fn wfc(&self, tiles: &Tiles) -> (r: Result<Vec<Vec<bool>>, WfcError>)
        requires
            tiles.wf(),
            self.spec_cells() <= usize::MAX,
        ensures
            r matches Ok(rows) ==> solved(
                self.spec_width(),
                self.spec_depth(),
                self.spec_height(),
                tiles@.spec_connectors(),
                rows@,
            ),
            r matches Err(WfcError::NoTiles) <==> self.spec_cells() > 0 && tiles@.tiles.len() == 0,
            r matches Err(WfcError::Contradiction(k)) ==> k@.wave < self.spec_cells()
                && contradicted(tiles@.spec_connectors(), k@) && has_neighbour(
                self.spec_width(),
                self.spec_depth(),
                self.spec_height(),
                k@.wave,
                k@.face,
            ),
            self.spec_cells() == 0 ==> r is Ok,
            self.spec_cells() == 1 && tiles@.tiles.len() >= 1 ==> r is Ok,
            tiles@.tiles.len() >= 1 && all_compatible(tiles@.spec_connectors()) ==> r is Ok,
            self.spec_cells() >= 2 && tiles@.tiles.len() >= 1 && none_compatible(
                tiles@.spec_connectors(),
            ) ==> r matches Err(WfcError::Contradiction(_)),
    {
        let coordinates = Coordinates::new(self.width, self.depth, self.height);
        let constraints = tiles.constraints();
        let graph = coordinates.graph();
        let cells = coordinates.len();
        let ghost connectors = tiles@.spec_connectors();
        let ghost w = self.spec_width();
        let ghost d = self.spec_depth();
        let ghost h = self.spec_height();
        proof {
            coordinates.lemma_graph();
        }
        if cells == 0 {
            return Ok(Vec::new());
        }
        if tiles.len() == 0 {
            return Err(WfcError::NoTiles);
        }
        let mut waves = Waves::new(graph, &constraints);
        while !waves.are_collapsed()
            invariant
                w == self.spec_width(),
                d == self.spec_depth(),
                h == self.spec_height(),
                coordinates.wf(),
                coordinates.spec_width() == w,
                coordinates.spec_depth() == d,
                coordinates.spec_height() == h,
                graph@ == coordinates.spec_graph(),
                cells == spec_volume(w, d, h),
                cells == graph@.len(),
                cells >= 1,
                graph_closed(graph@),
                graph_symmetric(graph@),
                constraints.wf(),
                constraints.symmetric(),
                connectors == tiles@.spec_connectors(),
                connectors.len() >= 1,
                spec_built_from(constraints, connectors),
                waves.wf(),
                waves.spec_graph() == graph@,
                waves.spec_constraints() == constraints,
                waves@.settled(graph@, constraints),
                cells >= 2 && none_compatible(connectors) ==> waves@.collapsed_count == 0,
            decreases cells - waves@.collapsed_count,
        {
            let ghost before = waves@;
            proof {
                lemma_zeros_bounds(before.entropies);
            }
            let wave = waves.min_entropy_wave();
            proof {
                let c = choose|c: int| 0 <= c < before.entropies.len() && before.entropies[c] != 0;
                assert(before.cell_ok(c));
                assert(before.entropies[c] > 0);
            }
            waves.observe(wave);
            let ghost observed = waves@;
            proof {
                if cells >= 2 && none_compatible(connectors) {
                    lemma_starved(coordinates, constraints, connectors, before, observed, wave as int);
                }
            }
            match waves.propogate(wave) {
                Err(contradiction) => {
                    proof {
                        reveal(propagated);
                        lemma_contradicted(
                            coordinates,
                            constraints,
                            connectors,
                            observed,
                            waves@,
                            contradiction@,
                        );
                    }
                    return Err(WfcError::Contradiction(contradiction));
                },
                Ok(()) => {
                    proof {
                        reveal(propagated);
                    }
                },
            }
        }
        proof {
            lemma_grid_solved(coordinates, constraints, connectors, waves@);
        }
        let rows = waves.into_tiles();
        proof {
            assert forall|x: int, y: int, z: int, face: Face, t: int, u: int|
                #![trigger holds(rows@, w, d, x, y, z, t), neighbour_holds(rows@, w, d, x, y, z, face, u)]
                in_grid(w, d, h, x, y, z) && in_grid(
                    w,
                    d,
                    h,
                    x + spec_step(face).0,
                    y + spec_step(face).1,
                    z + spec_step(face).2,
                ) && holds(rows@, w, d, x, y, z, t) && neighbour_holds(
                    rows@,
                    w,
                    d,
                    x,
                    y,
                    z,
                    face,
                    u,
                ) implies connectors[t].spec_accepts(face, connectors[u]) by {
                assert(grid_holds(waves@, w, d, x, y, z, t));
                assert(grid_neighbour_holds(waves@, w, d, x, y, z, face, u));
            }
        }
        Ok(rows)
    }

    /// Runs the Wave Function Collapse Algorithm until an attempt succeeds,
    /// but starts again no more than `restarts` times. Every contradiction
    /// discards the attempt; the error of the last attempt is returned if none
    /// succeeds.
    pub fn wfc_with_restarts(&self, tiles: &Tiles, restarts: usize) -> (r: Result<
        Vec<Vec<bool>>,
        WfcError,
    >)
        requires
            tiles.wf(),
            self.spec_cells() <= usize::MAX,
        ensures
            r matches Ok(rows) ==> solved(
                self.spec_width(),
                self.spec_depth(),
                self.spec_height(),
                tiles@.spec_connectors(),
                rows@,
            ),
            r matches Err(WfcError::NoTiles) <==> self.spec_cells() > 0 && tiles@.tiles.len() == 0,
            r matches Err(WfcError::Contradiction(k)) ==> k@.wave < self.spec_cells()
                && contradicted(tiles@.spec_connectors(), k@) && has_neighbour(
                self.spec_width(),
                self.spec_depth(),
                self.spec_height(),
                k@.wave,
                k@.face,
            ),
            self.spec_cells() == 0 ==> r is Ok,
            self.spec_cells() == 1 && tiles@.tiles.len() >= 1 ==> r is Ok,
            tiles@.tiles.len() >= 1 && all_compatible(tiles@.spec_connectors()) ==> r is Ok,
            self.spec_cells() >= 2 && tiles@.tiles.len() >= 1 && none_compatible(
                tiles@.spec_connectors(),
            ) ==> r matches Err(WfcError::Contradiction(_)),
    {
        let mut left = restarts;
        loop
            invariant
                tiles.wf(),
                self.spec_cells() <= usize::MAX,
            decreases left,
        {
            match self.wfc(tiles) {
                Ok(rows) => {
                    return Ok(rows);
                },
                Err(WfcError::NoTiles) => {
                    return Err(WfcError::NoTiles);
                },
                Err(WfcError::Contradiction(contradiction)) => {
                    if left == 0 {
                        return Err(WfcError::Contradiction(contradiction));
                    }
                    left -= 1;
                },
            }
        }
    }
}

/// Whether tile `t` is a candidate of the cell at `(x, y, z)` in the state
/// `waves`.
pub open spec fn grid_holds(waves: WavesModel, w: int, d: int, x: int, y: int, z: int, t: int) -> bool {
    waves.has(spec_edge_wave(w, d, x, y, z), t)
}

/// Whether tile `u` is a candidate of the neighbour of the cell at
/// `(x, y, z)` across `face` in the state `waves`.
pub open spec fn grid_neighbour_holds(
    waves: WavesModel,
    w: int,
    d: int,
    x: int,
    y: int,
    z: int,
    face: Face,
    u: int,
) -> bool {
    grid_holds(waves, w, d, x + spec_step(face).0, y + spec_step(face).1, z + spec_step(face).2, u)
}

/// In a settled state of a grid in which every cell was observed, every cell
/// holds one tile, and wherever two cells touch, the connectors on the faces
/// that they share fit.
pub proof fn lemma_grid_solved(
    coordinates: Coordinates,
    cons: Constraints,
    connectors: Seq<Connectors>,
    waves: WavesModel,
)
    requires
        coordinates.wf(),
        spec_built_from(cons, connectors),
        waves.wf(coordinates.spec_len(), cons.spec_tile_count()),
        waves.collapsed_count == coordinates.spec_len(),
        waves.settled(coordinates.spec_graph(), cons),
    ensures
        forall|c: int| 0 <= c < coordinates.spec_len() ==> count(#[trigger] waves.candidates[c]) == 1,
        forall|x: int, y: int, z: int, face: Face, t: int, u: int|
            #![trigger grid_holds(waves, coordinates.spec_width(), coordinates.spec_depth(), x, y, z, t), grid_neighbour_holds(waves, coordinates.spec_width(), coordinates.spec_depth(), x, y, z, face, u)]
            in_grid(
                coordinates.spec_width(),
                coordinates.spec_depth(),
                coordinates.spec_height(),
                x,
                y,
                z,
            ) && in_grid(
                coordinates.spec_width(),
                coordinates.spec_depth(),
                coordinates.spec_height(),
                x + spec_step(face).0,
                y + spec_step(face).1,
                z + spec_step(face).2,
            ) && grid_holds(waves, coordinates.spec_width(), coordinates.spec_depth(), x, y, z, t)
                && grid_neighbour_holds(
                waves,
                coordinates.spec_width(),
                coordinates.spec_depth(),
                x,
                y,
                z,
                face,
                u,
            ) ==> connectors[t].spec_accepts(face, connectors[u]),
{
    let w = coordinates.spec_width();
    let d = coordinates.spec_depth();
    let h = coordinates.spec_height();
    let graph = coordinates.spec_graph();
    coordinates.lemma_graph();
    lemma_all_collapsed(waves, coordinates.spec_len(), cons.spec_tile_count());
    lemma_solved(graph, cons, waves);
    assert forall|x: int, y: int, z: int, face: Face, t: int, u: int|
        #![trigger grid_holds(waves, w, d, x, y, z, t), grid_neighbour_holds(waves, w, d, x, y, z, face, u)]
        in_grid(w, d, h, x, y, z) && in_grid(
            w,
            d,
            h,
            x + spec_step(face).0,
            y + spec_step(face).1,
            z + spec_step(face).2,
        ) && grid_holds(waves, w, d, x, y, z, t) && grid_neighbour_holds(
            waves,
            w,
            d,
            x,
            y,
            z,
            face,
            u,
        ) implies connectors[t].spec_accepts(face, connectors[u]) by {
        let (dx, dy, dz) = spec_step(face);
        let c = spec_edge_wave(w, d, x, y, z);
        let n = spec_edge_wave(w, d, x + dx, y + dy, z + dz);
        coordinates.lemma_cell_at(x, y, z);
        coordinates.lemma_cell_at(x + dx, y + dy, z + dz);
        lemma_edge_present(w, d, h, x, y, z, face);
        let j = choose|j: int|
            0 <= j < spec_edges(w, d, h, x, y, z).len() && #[trigger] spec_edges(w, d, h, x, y, z)[j]
                == (n as usize, face);
        assert(graph[c]@ == spec_edges(w, d, h, x, y, z));
        assert(edge_cell(graph, c, j) == n);
        assert(edge_face(graph, c, j) == face);
        assert(waves.has(c, t));
        assert(waves.has(edge_cell(graph, c, j), u));
        assert(cons.spec_allows(face, t, u));
    }
}

/// A contradiction that ended the propagation from an observed cell of a grid
/// names a cell of the grid with a neighbour, and is a true one for the
/// connectors of the tiles.
pub proof fn lemma_contradicted(
    coordinates: Coordinates,
    cons: Constraints,
    connectors: Seq<Connectors>,
    before: WavesModel,
    after: WavesModel,
    k: ContradictionModel,
)
    requires
        coordinates.wf(),
        cons.wf(),
        spec_built_from(cons, connectors),
        before.wf(coordinates.spec_len(), cons.spec_tile_count()),
        after.shaped(coordinates.spec_len(), cons.spec_tile_count()),
        crate::propagation::justified(coordinates.spec_graph(), cons, before, after, k),
    ensures
        0 <= k.wave < coordinates.spec_len(),
        contradicted(connectors, k),
        has_neighbour(
            coordinates.spec_width(),
            coordinates.spec_depth(),
            coordinates.spec_height(),
            k.wave,
            k.face,
        ),
        !all_compatible(connectors),
        coordinates.spec_len() != 1,
{
    let graph = coordinates.spec_graph();
    let (j, u) = choose|j: int, u: int|
        #![trigger before.has(edge_cell(graph, k.wave, j), u)]
        {
            &&& 0 <= j < graph[k.wave]@.len()
            &&& edge_face(graph, k.wave, j) == k.face
            &&& before.entropies[edge_cell(graph, k.wave, j)] > 0
            &&& count(after.candidates[edge_cell(graph, k.wave, j)]) == 0
            &&& before.has(edge_cell(graph, k.wave, j), u)
            &&& !supported(cons, k.tiles, k.face, u)
        };
    coordinates.lemma_graph();
    assert(graph[k.wave]@[j].0 < graph.len());
    let t = lemma_count_witness(k.tiles);
    assert(k.tiles[t]);
    assert forall|v: int| 0 <= v < k.tiles.len() && k.tiles[v] implies !(
    #[trigger] connectors[v]).spec_accepts(k.face, connectors[u]) by {
        if connectors[v].spec_accepts(k.face, connectors[u]) {
            assert(cons.spec_allows(k.face, v, u));
        }
    }
    assert(rejected(connectors, k.tiles, k.face, u));
    if all_compatible(connectors) {
        assert(connectors[t].spec_accepts(k.face, connectors[u]));
    }
    let (x, y, z) = coordinates.spec_xyzs()[k.wave];
    assert(graph[k.wave]@ == spec_edges(
        coordinates.spec_width(),
        coordinates.spec_depth(),
        coordinates.spec_height(),
        x as int,
        y as int,
        z as int,
    ));
    lemma_edge_at(
        coordinates.spec_width(),
        coordinates.spec_depth(),
        coordinates.spec_height(),
        x as int,
        y as int,
        z as int,
        j,
    );
    assert(spec_edge_wave(coordinates.spec_width(), coordinates.spec_depth(), x as int, y as int, z as int)
        == k.wave);
    if coordinates.spec_len() == 1 {
        lemma_single_cell(
            coordinates.spec_width(),
            coordinates.spec_depth(),
            coordinates.spec_height(),
        );
        assert(graph[0]@ == spec_edges(1, 1, 1, 0, 0, 0));
    }
}

/// Where no tile may stand next to any tile, the first observation in a grid
/// of two cells or more starves a neighbour of the observed cell.
pub proof fn lemma_starved(
    coordinates: Coordinates,
    cons: Constraints,
    connectors: Seq<Connectors>,
    before: WavesModel,
    observed: WavesModel,
    wave: int,
)
    requires
        coordinates.wf(),
        coordinates.spec_len() >= 2,
        spec_built_from(cons, connectors),
        none_compatible(connectors),
        before.wf(coordinates.spec_len(), cons.spec_tile_count()),
        before.collapsed_count == 0,
        0 <= wave < coordinates.spec_len(),
        observed.entropies.len() == before.entropies.len(),
        forall|i: int|
            0 <= i < coordinates.spec_len() && i != wave ==> observed.entropies[i]
                == before.entropies[i],
    ensures
        crate::propagation::neighbour_starved(
            coordinates.spec_graph(),
            cons,
            observed,
            only(coordinates.spec_len(), wave),
            wave,
            0,
        ),
{
    let graph = coordinates.spec_graph();
    let (x, y, z) = coordinates.spec_xyzs()[wave];
    coordinates.lemma_graph();
    lemma_neighbour_exists(
        coordinates.spec_width(),
        coordinates.spec_depth(),
        coordinates.spec_height(),
        x as int,
        y as int,
        z as int,
    );
    let edge = graph[wave]@[0];
    let n = edge_cell(graph, wave, 0);
    assert(edge.0 < graph.len() && edge.0 != wave);
    lemma_zeros_bounds(before.entropies);
    assert(before.cell_ok(n));
    assert forall|u: int| #[trigger] observed.has(edge_cell(graph, wave, 0), u) implies !supported(
        cons,
        observed.candidates[wave],
        edge_face(graph, wave, 0),
        u,
    ) by {
        if supported(cons, observed.candidates[wave], edge_face(graph, wave, 0), u) {
            let t = choose|t: int|
                0 <= t < observed.candidates[wave].len() && observed.candidates[wave][t]
                    && #[trigger] cons.spec_allows(edge_face(graph, wave, 0), t, u);
            assert(connectors[t].spec_accepts(edge_face(graph, wave, 0), connectors[u]));
        }
    }
    assert(starved_at(graph, cons, observed, only(coordinates.spec_len(), wave), wave, 0));
}

} // verus!
