//! The cells of a cuboid grid and the graph of their neighbours.

use vstd::prelude::*;
use crate::face::Face;

verus! {

/// Index of the cell at `(x, y, z)` in a grid that is `width` cells wide and
/// `depth` cells deep: `x + y * width + z * width * depth`.
#[verifier::opaque]
pub open spec fn spec_edge_wave(width: int, depth: int, x: int, y: int, z: int) -> int {
    x + y * width + z * width * depth
}

/// Number of cells of a grid of the given size: `width * depth * height`.
#[verifier::opaque]
pub open spec fn spec_volume(width: int, depth: int, height: int) -> int {
    width * depth * height
}

/// One edge to the cell at `(x, y, z)` across `face`, or no edge if `present`
/// is false.
pub open spec fn spec_edge(
    present: bool,
    width: int,
    depth: int,
    x: int,
    y: int,
    z: int,
    face: Face,
) -> Seq<(usize, Face)> {
    if present {
        seq![(spec_edge_wave(width, depth, x, y, z) as usize, face)]
    } else {
        Seq::empty()
    }
}

/// The neighbours of the cell at `(x, y, z)` that lie inside the grid, each
/// with the face of the cell that touches it, in the order left, right, front,
/// back, down, up.
pub open spec fn spec_edges(width: int, depth: int, height: int, x: int, y: int, z: int) -> Seq<
    (usize, Face),
> {
    spec_edge(x > 0, width, depth, x - 1, y, z, Face::Left) + spec_edge(
        x + 1 < width,
        width,
        depth,
        x + 1,
        y,
        z,
        Face::Right,
    ) + spec_edge(y > 0, width, depth, x, y - 1, z, Face::Front) + spec_edge(
        y + 1 < depth,
        width,
        depth,
        x,
        y + 1,
        z,
        Face::Back,
    ) + spec_edge(z > 0, width, depth, x, y, z - 1, Face::Down) + spec_edge(
        z + 1 < height,
        width,
        depth,
        x,
        y,
        z + 1,
        Face::Up,
    )
}

/// Every edge of the graph leads to a cell of the graph.
pub open spec fn graph_closed(graph: Seq<Vec<(usize, Face)>>) -> bool {
    forall|c: int, j: int|
        0 <= c < graph.len() && 0 <= j < graph[c]@.len() ==> (#[trigger] graph[c]@[j]).0
            < graph.len()
}

/// Whether `graph` has an edge from `c` to `n` across `face`.
#[verifier::opaque]
pub open spec fn has_edge(graph: Seq<Vec<(usize, Face)>>, c: int, n: int, face: Face) -> bool {
    0 <= c < graph.len() && exists|j: int|
        0 <= j < graph[c]@.len() && #[trigger] graph[c]@[j] == (n as usize, face)
}

/// No cell is its own neighbour, and with every edge the graph holds the edge
/// back across the opposite face.
pub open spec fn graph_symmetric(graph: Seq<Vec<(usize, Face)>>) -> bool {
    forall|c: int, j: int|
        0 <= c < graph.len() && 0 <= j < graph[c]@.len() ==> {
            let edge = #[trigger] graph[c]@[j];
            edge.0 != c && has_edge(graph, edge.0 as int, c, edge.1.spec_opposite())
        }
}

/// The index of a cell grows with each of its coordinates and stays below the
/// number of cells.
pub proof fn lemma_edge_wave_bound(
    width: int,
    depth: int,
    height: int,
    x: int,
    y: int,
    z: int,
)
    requires
        0 <= x < width,
        0 <= y < depth,
        0 <= z < height,
    ensures
        0 <= spec_edge_wave(width, depth, x, y, z) < spec_volume(width, depth, height),
{
    reveal(spec_edge_wave);
    reveal(spec_volume);
    let w = y + z * depth;
    assert(0 <= w && w + 1 <= depth * height) by (nonlinear_arith)
        requires
            0 <= y < depth,
            0 <= z < height,
            w == y + z * depth,
    ;
    assert(x + w * width < (depth * height) * width && 0 <= w * width) by (nonlinear_arith)
        requires
            0 <= x < width,
            0 <= w,
            w + 1 <= depth * height,
    ;
    assert(w * width == y * width + z * width * depth) by (nonlinear_arith)
        requires
            w == y + z * depth,
    ;
    assert((depth * height) * width == width * depth * height) by (nonlinear_arith);
}

/// Two digits `a < base` and `b < base` with `a + p * base == b + q * base`
/// are equal, and so are `p` and `q`.
proof fn lemma_digits_unique(a: int, p: int, b: int, q: int, base: int)
    requires
        0 <= a < base,
        0 <= b < base,
        a + p * base == b + q * base,
    ensures
        a == b,
        p == q,
{
    if p < q {
        assert(q * base >= p * base + base) by (nonlinear_arith)
            requires
                p < q,
                0 < base,
        ;
    } else if q < p {
        assert(p * base >= q * base + base) by (nonlinear_arith)
            requires
                q < p,
                0 < base,
        ;
    }
}

/// Different cells of a grid have different indices.
pub proof fn lemma_edge_wave_unique(
    width: int,
    depth: int,
    x: int,
    y: int,
    z: int,
    x2: int,
    y2: int,
    z2: int,
)
    requires
        0 <= x < width,
        0 <= y < depth,
        0 <= x2 < width,
        0 <= y2 < depth,
        spec_edge_wave(width, depth, x, y, z) == spec_edge_wave(width, depth, x2, y2, z2),
    ensures
        x == x2,
        y == y2,
        z == z2,
{
    reveal(spec_edge_wave);
    let w = y + z * depth;
    let w2 = y2 + z2 * depth;
    assert(w * width == y * width + z * width * depth) by (nonlinear_arith)
        requires
            w == y + z * depth,
    ;
    assert(w2 * width == y2 * width + z2 * width * depth) by (nonlinear_arith)
        requires
            w2 == y2 + z2 * depth,
    ;
    lemma_digits_unique(x, w, x2, w2, width);
    lemma_digits_unique(y, z, y2, z2, depth);
}

/// Returns the index of the cell at `(x, y, z)`.
pub fn edge_wave(width: usize, depth: usize, x: usize, y: usize, z: usize) -> (r: usize)
    requires
        y < depth,
        spec_edge_wave(width as int, depth as int, x as int, y as int, z as int) <= usize::MAX,
    ensures
        r == spec_edge_wave(width as int, depth as int, x as int, y as int, z as int),
{
    proof {
        reveal(spec_edge_wave);
        assert(0 <= y * width && 0 <= z * width <= z * width * depth) by (nonlinear_arith)
            requires
                0 <= y,
                0 <= z,
                0 <= width,
                1 <= depth,
        ;
    }
    x + y * width + z * width * depth
}

/// Appends the edge to the cell at `(x, y, z)` across `face`.
fn push_edge(
    edges: &mut Vec<(usize, Face)>,
    width: usize,
    depth: usize,
    x: usize,
    y: usize,
    z: usize,
    face: Face,
)
    requires
        y < depth,
        spec_edge_wave(width as int, depth as int, x as int, y as int, z as int) <= usize::MAX,
    ensures
        final(edges)@ == old(edges)@ + spec_edge(
            true,
            width as int,
            depth as int,
            x as int,
            y as int,
            z as int,
            face,
        ),
{
    let wave = edge_wave(width, depth, x, y, z);
    edges.push((wave, face));
    assert(edges@ =~= old(edges)@ + seq![(wave, face)]);
}

/// Returns the neighbours of the cell at `(x, y, z)` that lie inside the grid,
/// each with the face of the cell that touches it.
pub fn edges(width: usize, depth: usize, height: usize, x: usize, y: usize, z: usize) -> (r: Vec<
    (usize, Face),
>)
    requires
        x < width,
        y < depth,
        z < height,
        spec_volume(width as int, depth as int, height as int) <= usize::MAX,
    ensures
        r@ == spec_edges(
            width as int,
            depth as int,
            height as int,
            x as int,
            y as int,
            z as int,
        ),
{
    let ghost w = width as int;
    let ghost d = depth as int;
    let ghost h = height as int;
    let ghost (xi, yi, zi) = (x as int, y as int, z as int);
    let ghost none = Seq::<(usize, Face)>::empty();
    let mut edges: Vec<(usize, Face)> = Vec::new();
    if x > 0 {
        proof {
            lemma_edge_wave_bound(w, d, h, xi - 1, yi, zi);
        }
        push_edge(&mut edges, width, depth, x - 1, y, z, Face::Left);
    }
    let ghost e1 = edges@;
    assert(e1 =~= spec_edge(x > 0, w, d, xi - 1, yi, zi, Face::Left));
    if x < width - 1 {
        proof {
            lemma_edge_wave_bound(w, d, h, xi + 1, yi, zi);
        }
        push_edge(&mut edges, width, depth, x + 1, y, z, Face::Right);
    }
    let ghost e2 = edges@;
    assert(e2 =~= e1 + spec_edge(xi + 1 < w, w, d, xi + 1, yi, zi, Face::Right));
    if y > 0 {
        proof {
            lemma_edge_wave_bound(w, d, h, xi, yi - 1, zi);
        }
        push_edge(&mut edges, width, depth, x, y - 1, z, Face::Front);
    }
    let ghost e3 = edges@;
    assert(e3 =~= e2 + spec_edge(y > 0, w, d, xi, yi - 1, zi, Face::Front));
    if y < depth - 1 {
        proof {
            lemma_edge_wave_bound(w, d, h, xi, yi + 1, zi);
        }
        push_edge(&mut edges, width, depth, x, y + 1, z, Face::Back);
    }
    let ghost e4 = edges@;
    assert(e4 =~= e3 + spec_edge(yi + 1 < d, w, d, xi, yi + 1, zi, Face::Back));
    if z > 0 {
        proof {
            lemma_edge_wave_bound(w, d, h, xi, yi, zi - 1);
        }
        push_edge(&mut edges, width, depth, x, y, z - 1, Face::Down);
    }
    let ghost e5 = edges@;
    assert(e5 =~= e4 + spec_edge(z > 0, w, d, xi, yi, zi - 1, Face::Down));
    if z < height - 1 {
        proof {
            lemma_edge_wave_bound(w, d, h, xi, yi, zi + 1);
        }
        push_edge(&mut edges, width, depth, x, y, z + 1, Face::Up);
    }
    assert(edges@ =~= e5 + spec_edge(zi + 1 < h, w, d, xi, yi, zi + 1, Face::Up));
    edges
}

/// The cells of a grid in index order, each with its coordinates and its
/// neighbours.
pub struct Coordinates {
    width: usize,
    depth: usize,
    height: usize,
    xyzs: Vec<(usize, usize, usize)>,
    graph: Vec<Vec<(usize, Face)>>,
}

impl Coordinates {
    /// Number of cells along the x axis.
    pub closed spec fn spec_width(&self) -> int {
        self.width as int
    }

    /// Number of cells along the y axis.
    pub closed spec fn spec_depth(&self) -> int {
        self.depth as int
    }

    /// Number of cells along the z axis.
    pub closed spec fn spec_height(&self) -> int {
        self.height as int
    }

    /// The coordinates of each cell.
    pub closed spec fn spec_xyzs(&self) -> Seq<(usize, usize, usize)> {
        self.xyzs@
    }

    /// The neighbours of each cell.
    pub closed spec fn spec_graph(&self) -> Seq<Vec<(usize, Face)>> {
        self.graph@
    }

    /// Number of cells of the grid.
    pub open spec fn spec_len(&self) -> int {
        spec_volume(self.spec_width(), self.spec_depth(), self.spec_height())
    }

    /// The grid lists every cell once, at the index that its coordinates give,
    /// with the neighbours that lie inside the grid.
    pub open spec fn wf(&self) -> bool {
        &&& self.spec_len() <= usize::MAX
        &&& self.spec_xyzs().len() == self.spec_len()
        &&& self.spec_graph().len() == self.spec_len()
        &&& forall|i: int|
            0 <= i < self.spec_len() ==> {
                let (x, y, z) = #[trigger] self.spec_xyzs()[i];
                &&& x < self.spec_width()
                &&& y < self.spec_depth()
                &&& z < self.spec_height()
                &&& i == spec_edge_wave(
                    self.spec_width(),
                    self.spec_depth(),
                    x as int,
                    y as int,
                    z as int,
                )
            }
        &&& forall|i: int|
            0 <= i < self.spec_len() ==> {
                let (x, y, z) = self.spec_xyzs()[i];
                (#[trigger] self.spec_graph()[i])@ == spec_edges(
                    self.spec_width(),
                    self.spec_depth(),
                    self.spec_height(),
                    x as int,
                    y as int,
                    z as int,
                )
            }
    }

    /// Lists the cells of a grid of the given size with their neighbours.
    pub fn new(width: usize, depth: usize, height: usize) -> (r: Self)
        requires
            spec_volume(width as int, depth as int, height as int) <= usize::MAX,
        ensures
            r.wf(),
            r.spec_width() == width,
            r.spec_depth() == depth,
            r.spec_height() == height,
    {
        let ghost w = width as int;
        let ghost d = depth as int;
        let ghost h = height as int;
        let mut xyzs: Vec<(usize, usize, usize)> = Vec::new();
        let mut graph: Vec<Vec<(usize, Face)>> = Vec::new();
        assert(0 * w * d == 0) by (nonlinear_arith);
        let ghost n = spec_volume(w, d, h);
        for z in 0..height
            invariant
                w == width,
                d == depth,
                h == height,
                n == spec_volume(w, d, h),
                n <= usize::MAX,
                xyzs@.len() == z * w * d,
                graph@.len() == xyzs@.len(),
                cells_listed(w, d, h, xyzs@, graph@),
        {
            assert(0 * w + z * w * d == z * w * d) by (nonlinear_arith);
            for y in 0..depth
                invariant
                    w == width,
                    d == depth,
                    h == height,
                    n == spec_volume(w, d, h),
                n <= usize::MAX,
                    z < h,
                    xyzs@.len() == y * w + z * w * d,
                    graph@.len() == xyzs@.len(),
                    cells_listed(w, d, h, xyzs@, graph@),
            {
                for x in 0..width
                    invariant
                        w == width,
                        d == depth,
                        h == height,
                        n == spec_volume(w, d, h),
                n <= usize::MAX,
                        z < h,
                        y < d,
                        xyzs@.len() == x + y * w + z * w * d,
                        graph@.len() == xyzs@.len(),
                        cells_listed(w, d, h, xyzs@, graph@),
                {
                    proof {
                        reveal(spec_edge_wave);
                    }
                    let cell_edges = edges(width, depth, height, x, y, z);
                    xyzs.push((x, y, z));
                    graph.push(cell_edges);
                }
                assert(w + y * w + z * w * d == (y + 1) * w + z * w * d) by (nonlinear_arith);
            }
            assert(d * w + z * w * d == (z + 1) * w * d) by (nonlinear_arith);
        }
        proof {
            reveal(spec_volume);
            assert(h * w * d == w * d * h) by (nonlinear_arith);
        }
        Self { width, depth, height, xyzs, graph }
    }

    /// Returns the largest of width, depth and height.
    pub fn max_dimension_size(&self) -> (r: usize)
        ensures
            r >= self.spec_width(),
            r >= self.spec_depth(),
            r >= self.spec_height(),
            r == self.spec_width() || r == self.spec_depth() || r == self.spec_height(),
    {
        let mut largest = self.width;
        if self.depth > largest {
            largest = self.depth;
        }
        if self.height > largest {
            largest = self.height;
        }
        largest
    }

    /// Returns the neighbours of each cell.
    pub fn graph(&self) -> (r: &Vec<Vec<(usize, Face)>>)
        ensures
            r@ == self.spec_graph(),
    {
        &self.graph
    }

    /// Returns the coordinates of each cell.
    pub fn xyzs(&self) -> (r: &Vec<(usize, usize, usize)>)
        ensures
            r@ == self.spec_xyzs(),
    {
        &self.xyzs
    }

    /// Returns the number of cells.
    pub fn len(&self) -> (r: usize)
        requires
            self.wf(),
        ensures
            r == self.spec_len(),
    {
        self.xyzs.len()
    }

    /// The cell at `(x, y, z)` stands at the index that its coordinates give.
    pub proof fn lemma_cell_at(&self, x: int, y: int, z: int)
        requires
            self.wf(),
            0 <= x < self.spec_width(),
            0 <= y < self.spec_depth(),
            0 <= z < self.spec_height(),
        ensures
            0 <= spec_edge_wave(self.spec_width(), self.spec_depth(), x, y, z) < self.spec_len(),
            self.spec_xyzs()[spec_edge_wave(self.spec_width(), self.spec_depth(), x, y, z)] == (
                x as usize,
                y as usize,
                z as usize,
            ),
            self.spec_graph()[spec_edge_wave(self.spec_width(), self.spec_depth(), x, y, z)]@
                == spec_edges(self.spec_width(), self.spec_depth(), self.spec_height(), x, y, z),
    {
        let w = self.spec_width();
        let d = self.spec_depth();
        let h = self.spec_height();
        lemma_edge_wave_bound(w, d, h, x, y, z);
        let i = spec_edge_wave(w, d, x, y, z);
        let (x2, y2, z2) = self.spec_xyzs()[i];
        lemma_edge_wave_unique(w, d, x, y, z, x2 as int, y2 as int, z2 as int);
    }

    /// Every edge of the grid leads to a cell of the grid, no cell is its own
    /// neighbour, and every edge has its way back across the opposite face.
    pub proof fn lemma_graph(&self)
        requires
            self.wf(),
        ensures
            graph_closed(self.spec_graph()),
            graph_symmetric(self.spec_graph()),
    {
        reveal(has_edge);
        let w = self.spec_width();
        let d = self.spec_depth();
        let h = self.spec_height();
        let graph = self.spec_graph();
        assert forall|c: int, j: int| 0 <= c < graph.len() && 0 <= j < graph[c]@.len() implies {
            let edge = #[trigger] graph[c]@[j];
            edge.0 < graph.len() && edge.0 != c && has_edge(
                graph,
                edge.0 as int,
                c,
                edge.1.spec_opposite(),
            )
        } by {
            let (x, y, z) = self.spec_xyzs()[c];
            let (xi, yi, zi) = (x as int, y as int, z as int);
            let edge = graph[c]@[j];
            let (dx, dy, dz) = spec_step(edge.1);
            lemma_edge_back(w, d, h, xi, yi, zi, j);
            self.lemma_cell_at(xi + dx, yi + dy, zi + dz);
            let n = edge.0 as int;
            let back = spec_edges(w, d, h, xi + dx, yi + dy, zi + dz);
            let k = choose|k: int|
                0 <= k < back.len() && back[k] == (c as usize, edge.1.spec_opposite());
            assert(graph[n]@[k] == (c as usize, edge.1.spec_opposite()));
        }
    }
}

/// The neighbour across an edge is another cell, and it has the edge back
/// across the opposite face.
proof fn lemma_edge_back(w: int, d: int, h: int, x: int, y: int, z: int, j: int)
    requires
        0 <= x < w,
        0 <= y < d,
        0 <= z < h,
        spec_volume(w, d, h) <= usize::MAX,
        0 <= j < spec_edges(w, d, h, x, y, z).len(),
    ensures
        ({
            let edge = spec_edges(w, d, h, x, y, z)[j];
            let (dx, dy, dz) = spec_step(edge.1);
            let back = spec_edges(w, d, h, x + dx, y + dy, z + dz);
            let c = spec_edge_wave(w, d, x, y, z);
            &&& edge_leads(w, d, h, x, y, z, edge)
            &&& edge.0 != c
            &&& 0 <= c <= usize::MAX
            &&& exists|k: int|
                0 <= k < back.len() && #[trigger] back[k] == (c as usize, edge.1.spec_opposite())
        }),
{
    let edge = spec_edges(w, d, h, x, y, z)[j];
    let (dx, dy, dz) = spec_step(edge.1);
    let (x2, y2, z2) = (x + dx, y + dy, z + dz);
    let c = spec_edge_wave(w, d, x, y, z);
    let back = spec_edges(w, d, h, x2, y2, z2);
    lemma_edge_at(w, d, h, x, y, z, j);
    assert(edge_leads(w, d, h, x, y, z, edge));
    assert(0 <= c <= usize::MAX) by {
        lemma_edge_wave_bound(w, d, h, x, y, z);
    }
    assert(edge.0 != c) by {
        if edge.0 == c {
            lemma_edge_wave_unique(w, d, x, y, z, x2, y2, z2);
        }
    }
    assert(exists|k: int| 0 <= k < back.len() && #[trigger] back[k] == (c as usize, edge.1.spec_opposite())) by {
        let (ex, ey, ez) = spec_step(edge.1.spec_opposite());
        assert(x2 + ex == x && y2 + ey == y && z2 + ez == z);
        lemma_edge_present(w, d, h, x2, y2, z2, edge.1.spec_opposite());
    }
}

/// The cells listed so far stand at the indices that their coordinates give,
/// each with the neighbours that lie inside the grid.
spec fn cells_listed(
    w: int,
    d: int,
    h: int,
    xyzs: Seq<(usize, usize, usize)>,
    graph: Seq<Vec<(usize, Face)>>,
) -> bool {
    &&& forall|i: int|
        0 <= i < xyzs.len() ==> {
            let (x, y, z) = #[trigger] xyzs[i];
            &&& x < w
            &&& y < d
            &&& z < h
            &&& i == spec_edge_wave(w, d, x as int, y as int, z as int)
        }
    &&& forall|i: int|
        0 <= i < xyzs.len() && i < graph.len() ==> {
            let (x, y, z) = xyzs[i];
            (#[trigger] graph[i])@ == spec_edges(w, d, h, x as int, y as int, z as int)
        }
}

/// The step to the neighbour across `face`, along each axis.
pub open spec fn spec_step(face: Face) -> (int, int, int) {
    match face {
        Face::Left => (-1, 0, 0),
        Face::Right => (1, 0, 0),
        Face::Front => (0, -1, 0),
        Face::Back => (0, 1, 0),
        Face::Down => (0, 0, -1),
        Face::Up => (0, 0, 1),
    }
}

/// Whether `edge` leads from the cell at `(x, y, z)` one step across its face
/// to a cell inside the grid.
pub open spec fn edge_leads(
    w: int,
    d: int,
    h: int,
    x: int,
    y: int,
    z: int,
    edge: (usize, Face),
) -> bool {
    let (dx, dy, dz) = spec_step(edge.1);
    &&& 0 <= x + dx < w
    &&& 0 <= y + dy < d
    &&& 0 <= z + dz < h
    &&& edge.0 == spec_edge_wave(w, d, x + dx, y + dy, z + dz)
}

/// The edge across `face`, where there is one, leads one step across `face`.
proof fn lemma_edge_leads(w: int, d: int, h: int, x: int, y: int, z: int, face: Face)
    requires
        0 <= x < w,
        0 <= y < d,
        0 <= z < h,
        spec_volume(w, d, h) <= usize::MAX,
        ({
            let (dx, dy, dz) = spec_step(face);
            0 <= x + dx < w && 0 <= y + dy < d && 0 <= z + dz < h
        }),
    ensures
        ({
            let (dx, dy, dz) = spec_step(face);
            let edge = spec_edge(true, w, d, x + dx, y + dy, z + dz, face)[0];
            edge_leads(w, d, h, x, y, z, edge) && edge == (
                spec_edge_wave(w, d, x + dx, y + dy, z + dz) as usize,
                face,
            )
        }),
{
    let (dx, dy, dz) = spec_step(face);
    lemma_edge_wave_bound(w, d, h, x + dx, y + dy, z + dz);
}

/// Each edge of a cell leads one step across its face to a cell inside the
/// grid.
pub proof fn lemma_edge_at(w: int, d: int, h: int, x: int, y: int, z: int, j: int)
    requires
        0 <= x < w,
        0 <= y < d,
        0 <= z < h,
        spec_volume(w, d, h) <= usize::MAX,
        0 <= j < spec_edges(w, d, h, x, y, z).len(),
    ensures
        edge_leads(w, d, h, x, y, z, spec_edges(w, d, h, x, y, z)[j]),
{
    let e1 = spec_edge(x > 0, w, d, x - 1, y, z, Face::Left);
    let e2 = spec_edge(x + 1 < w, w, d, x + 1, y, z, Face::Right);
    let e3 = spec_edge(y > 0, w, d, x, y - 1, z, Face::Front);
    let e4 = spec_edge(y + 1 < d, w, d, x, y + 1, z, Face::Back);
    let e5 = spec_edge(z > 0, w, d, x, y, z - 1, Face::Down);
    let e6 = spec_edge(z + 1 < h, w, d, x, y, z + 1, Face::Up);
    let s2 = e1 + e2;
    let s3 = s2 + e3;
    let s4 = s3 + e4;
    let s5 = s4 + e5;
    let all = s5 + e6;
    assert(spec_edges(w, d, h, x, y, z) == all);
    let edge = all[j];
    if j < e1.len() {
        assert(s2[j] == e1[0]);
        assert(s3[j] == s2[j]);
        assert(s4[j] == s3[j]);
        assert(s5[j] == s4[j]);
        assert(edge == e1[0]);
        lemma_edge_leads(w, d, h, x, y, z, Face::Left);
    } else if j < s2.len() {
        assert(s2[j] == e2[0]);
        assert(s3[j] == s2[j]);
        assert(s4[j] == s3[j]);
        assert(s5[j] == s4[j]);
        assert(edge == e2[0]);
        lemma_edge_leads(w, d, h, x, y, z, Face::Right);
    } else if j < s3.len() {
        assert(s3[j] == e3[0]);
        assert(s4[j] == s3[j]);
        assert(s5[j] == s4[j]);
        assert(edge == e3[0]);
        lemma_edge_leads(w, d, h, x, y, z, Face::Front);
    } else if j < s4.len() {
        assert(s4[j] == e4[0]);
        assert(s5[j] == s4[j]);
        assert(edge == e4[0]);
        lemma_edge_leads(w, d, h, x, y, z, Face::Back);
    } else if j < s5.len() {
        assert(s5[j] == e5[0]);
        assert(edge == e5[0]);
        lemma_edge_leads(w, d, h, x, y, z, Face::Down);
    } else {
        assert(edge == e6[0]);
        lemma_edge_leads(w, d, h, x, y, z, Face::Up);
    }
}

/// A cell has an edge across `face` whenever the step across `face` stays
/// inside the grid.
pub proof fn lemma_edge_present(w: int, d: int, h: int, x: int, y: int, z: int, face: Face)
    requires
        0 <= x < w,
        0 <= y < d,
        0 <= z < h,
        spec_volume(w, d, h) <= usize::MAX,
        ({
            let (dx, dy, dz) = spec_step(face);
            0 <= x + dx < w && 0 <= y + dy < d && 0 <= z + dz < h
        }),
    ensures
        ({
            let (dx, dy, dz) = spec_step(face);
            exists|k: int|
                0 <= k < spec_edges(w, d, h, x, y, z).len() && #[trigger] spec_edges(
                    w,
                    d,
                    h,
                    x,
                    y,
                    z,
                )[k] == (spec_edge_wave(w, d, x + dx, y + dy, z + dz) as usize, face)
        }),
{
    let e1 = spec_edge(x > 0, w, d, x - 1, y, z, Face::Left);
    let e2 = spec_edge(x + 1 < w, w, d, x + 1, y, z, Face::Right);
    let e3 = spec_edge(y > 0, w, d, x, y - 1, z, Face::Front);
    let e4 = spec_edge(y + 1 < d, w, d, x, y + 1, z, Face::Back);
    let e5 = spec_edge(z > 0, w, d, x, y, z - 1, Face::Down);
    let e6 = spec_edge(z + 1 < h, w, d, x, y, z + 1, Face::Up);
    let s2 = e1 + e2;
    let s3 = s2 + e3;
    let s4 = s3 + e4;
    let s5 = s4 + e5;
    let all = s5 + e6;
    assert(spec_edges(w, d, h, x, y, z) == all);
    match face {
        Face::Left => {
            let k = 0;
            assert(s2[k] == e1[0]);
            assert(s3[k] == s2[k]);
            assert(s4[k] == s3[k]);
            assert(s5[k] == s4[k]);
            assert(all[k] == e1[0]);
        },
        Face::Right => {
            let k = e1.len() as int;
            assert(s2[k] == e2[0]);
            assert(s3[k] == s2[k]);
            assert(s4[k] == s3[k]);
            assert(s5[k] == s4[k]);
            assert(all[k] == e2[0]);
        },
        Face::Front => {
            let k = s2.len() as int;
            assert(s3[k] == e3[0]);
            assert(s4[k] == s3[k]);
            assert(s5[k] == s4[k]);
            assert(all[k] == e3[0]);
        },
        Face::Back => {
            let k = s3.len() as int;
            assert(s4[k] == e4[0]);
            assert(s5[k] == s4[k]);
            assert(all[k] == e4[0]);
        },
        Face::Down => {
            let k = s4.len() as int;
            assert(s5[k] == e5[0]);
            assert(all[k] == e5[0]);
        },
        Face::Up => {
            let k = s5.len() as int;
            assert(all[k] == e6[0]);
        },
    }
}

/// In a grid of two cells or more every cell has a neighbour.
pub proof fn lemma_neighbour_exists(w: int, d: int, h: int, x: int, y: int, z: int)
    requires
        0 <= x < w,
        0 <= y < d,
        0 <= z < h,
        spec_volume(w, d, h) >= 2,
    ensures
        spec_edges(w, d, h, x, y, z).len() >= 1,
{
    reveal(spec_volume);
    assert(w >= 2 || d >= 2 || h >= 2) by (nonlinear_arith)
        requires
            1 <= w,
            1 <= d,
            1 <= h,
            w * d * h >= 2,
    ;
}

/// The only cell of a grid of one cell has no neighbour.
pub proof fn lemma_single_cell(w: int, d: int, h: int)
    requires
        0 <= w,
        0 <= d,
        0 <= h,
        spec_volume(w, d, h) == 1,
    ensures
        w == 1 && d == 1 && h == 1,
        spec_edges(w, d, h, 0, 0, 0).len() == 0,
{
    reveal(spec_volume);
    assert(w == 1 && d == 1 && h == 1) by (nonlinear_arith)
        requires
            0 <= w,
            0 <= d,
            0 <= h,
            w * d * h == 1,
    ;
}

} // verus!
