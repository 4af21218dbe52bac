//! The wave solver: it keeps the candidates and the entropy of every cell,
//! observes cells and propagates what the observation rules out.

use vstd::prelude::*;
use rand::rngs::ThreadRng;
use crate::constraints::Constraints;
use crate::coordinate::graph_closed;
use crate::face::Face;
use crate::propagation::{
    count, lemma_count_bounds, lemma_count_update, lemma_count_witness,
    lemma_observed, lemma_observed_settled, lemma_propagated, lemma_propagated_settled,
    lemma_relaxed_frame, lemma_shrunk_counts, lemma_step, lemma_zeros_bounds, propagated,
    restricted, spec_propagated, spec_relaxed, spec_start, spec_step, spec_swept, supported,
    sweep_wf, total, with_waves, ContradictionModel, Sweep, WavesModel, ONE,
};
use crate::random::{noise, pick, thread_rng};

verus! {

/// A contradiction at the specified wave: its candidates left nothing to the
/// neighbour on its `face` side.
#[derive(Debug)]
pub struct Contradiction {
    pub wave: usize,
    pub tiles: Vec<bool>,
    pub face: Face,
}

impl View for Contradiction {
    type V = ContradictionModel;

    open spec fn view(&self) -> ContradictionModel {
        ContradictionModel { wave: self.wave as int, tiles: self.tiles@, face: self.face }
    }
}

/// A container to hold the state of the waves: for each cell of the graph the
/// flags of the tiles that it may still hold, and its entropy.
pub struct Waves<'a> {
    graph: &'a Vec<Vec<(usize, Face)>>,
    constraints: &'a Constraints,
    collapsed_count: usize,
    rng: ThreadRng,
    entropies: Vec<u128>,
    tiles: Vec<Vec<bool>>,
}

impl<'a> View for Waves<'a> {
    type V = WavesModel;

    closed spec fn view(&self) -> WavesModel {
        WavesModel {
            candidates: Seq::new(self.tiles@.len(), |c: int| self.tiles@[c]@),
            entropies: Seq::new(self.entropies@.len(), |c: int| self.entropies@[c] as int),
            collapsed_count: self.collapsed_count as int,
        }
    }
}

/// Whether `r` is the cell of smallest positive entropy, the first of them
/// where several have it; 0 if no cell has a positive entropy.
pub open spec fn min_entropy_at(entropies: Seq<int>, r: int) -> bool {
    if exists|c: int| 0 <= c < entropies.len() && entropies[c] > 0 {
        &&& 0 <= r < entropies.len()
        &&& entropies[r] > 0
        &&& forall|c: int| 0 <= c < entropies.len() && entropies[c] > 0 ==> entropies[r] <= entropies[c]
        &&& forall|c: int| 0 <= c < r && entropies[c] > 0 ==> entropies[r] < entropies[c]
    } else {
        r == 0
    }
}

/// Returns a copy of a row of flags.
fn copy_row(row: &Vec<bool>) -> (r: Vec<bool>)
    ensures
        r@ == row@,
{
    let mut copy: Vec<bool> = Vec::new();
    for t in 0..row.len()
        invariant
            copy@ == row@.subrange(0, t as int),
    {
        copy.push(row[t]);
        assert(copy@ =~= row@.subrange(0, t + 1));
    }
    assert(copy@ =~= row@);
    copy
}

/// Returns a row of `len` flags that are all `flag`.
fn filled_row(len: usize, flag: bool) -> (r: Vec<bool>)
    ensures
        r@.len() == len,
        forall|t: int| 0 <= t < len ==> r@[t] == flag,
{
    let mut row: Vec<bool> = Vec::new();
    for t in 0..len
        invariant
            row@.len() == t,
            forall|u: int| 0 <= u < t ==> row@[u] == flag,
    {
        row.push(flag);
    }
    row
}

impl<'a> Waves<'a> {
    /// The graph of the cells.
    pub closed spec fn spec_graph(&self) -> Seq<Vec<(usize, Face)>> {
        self.graph@
    }

    /// The adjacency table of the tiles.
    pub closed spec fn spec_constraints(&self) -> Constraints {
        *self.constraints
    }

    /// Number of cells.
    pub open spec fn spec_cells(&self) -> int {
        self.spec_graph().len() as int
    }

    /// Number of tiles.
    pub open spec fn spec_tile_count(&self) -> int {
        self.spec_constraints().spec_tile_count()
    }

    /// The solver holds a well-formed state for its graph and its table.
    pub open spec fn wf(&self) -> bool {
        &&& self.spec_constraints().wf()
        &&& graph_closed(self.spec_graph())
        &&& self@.wf(self.spec_cells(), self.spec_tile_count())
    }

    /// The solver holds a state of the right shape for its graph and its
    /// table.
    pub open spec fn shaped(&self) -> bool {
        &&& self.spec_constraints().wf()
        &&& graph_closed(self.spec_graph())
        &&& self@.shaped(self.spec_cells(), self.spec_tile_count())
    }

    /// Whether `later` is a solver for the same graph and the same table.
    pub open spec fn same_problem(&self, later: &Self) -> bool {
        later.spec_graph() == self.spec_graph() && later.spec_constraints()
            == self.spec_constraints()
    }

    /// Constructs an uncollapsed `Waves`: every cell may hold every tile, and
    /// its entropy is the number of tiles plus a noise below one.
    pub fn new(graph: &'a Vec<Vec<(usize, Face)>>, constraints: &'a Constraints) -> (r: Self)
        requires
            constraints.wf(),
            graph_closed(graph@),
            constraints.spec_tile_count() >= 1 || graph@.len() == 0,
        ensures
            r.wf(),
            r.spec_graph() == graph@,
            r.spec_constraints() == *constraints,
            r@.collapsed_count == 0,
            r@.settled(graph@, *constraints),
            forall|c: int, t: int|
                0 <= c < graph@.len() && 0 <= t < constraints.spec_tile_count() ==> r@.has(c, t),
            forall|c: int|
                0 <= c < graph@.len() ==> ONE * constraints.spec_tile_count()
                    <= #[trigger] r@.entropies[c] < ONE * (constraints.spec_tile_count() + 1),
    {
        let wave_count = graph.len();
        let tile_count = constraints.tile_count();
        let mut rng = thread_rng();
        let mut entropies: Vec<u128> = Vec::new();
        let mut tiles: Vec<Vec<bool>> = Vec::new();
        for wave in 0..wave_count
            invariant
                tile_count == constraints.spec_tile_count(),
                entropies@.len() == wave,
                tiles@.len() == wave,
                forall|c: int|
                    0 <= c < wave ==> ONE * tile_count <= #[trigger] entropies@[c] < ONE * (
                    tile_count + 1),
                forall|c: int| 0 <= c < wave ==> (#[trigger] tiles@[c])@.len() == tile_count,
                forall|c: int, t: int|
                    0 <= c < wave && 0 <= t < tile_count ==> #[trigger] tiles@[c]@[t],
        {
            let whole: u128 = tile_count as u128 * ONE;
            let fraction: u128 = noise(&mut rng) as u128;
            entropies.push(whole + fraction);
            tiles.push(filled_row(tile_count, true));
        }
        let r = Waves { graph, constraints, collapsed_count: 0, rng, entropies, tiles };
        proof {
            assert forall|c: int| 0 <= c < wave_count implies #[trigger] r@.cell_ok(c) by {
                lemma_count_bounds(r@.candidates[c]);
                assert(r@.entropies[c] == entropies@[c]);
            }
            lemma_zeros_bounds(r@.entropies);
            assert forall|c: int| 0 <= c < r@.entropies.len() implies r@.entropies[c] != 0 by {
                assert(r@.entropies[c] == entropies@[c]);
            }
        }
        r
    }

    /// Returns the minimum entropy wave: the cell with the smallest positive
    /// entropy.
    pub fn min_entropy_wave(&self) -> (r: usize)
        ensures
            min_entropy_at(self@.entropies, r as int),
    {
        let mut min_entropy_wave: usize = 0;
        let mut min_entropy: u128 = 0;
        for wave in 0..self.entropies.len()
            invariant
                min_entropy_wave <= wave,
                min_entropy == 0 ==> min_entropy_wave == 0 && forall|c: int|
                    0 <= c < wave ==> self.entropies@[c] == 0,
                min_entropy > 0 ==> {
                    &&& min_entropy_wave < wave
                    &&& self.entropies@[min_entropy_wave as int] == min_entropy
                    &&& forall|c: int|
                        0 <= c < wave && self.entropies@[c] > 0 ==> min_entropy
                            <= self.entropies@[c]
                    &&& forall|c: int|
                        0 <= c < min_entropy_wave && self.entropies@[c] > 0 ==> min_entropy
                            < self.entropies@[c]
                },
        {
            let entropy = self.entropies[wave];
            if entropy > 0 && (min_entropy == 0 || entropy < min_entropy) {
                min_entropy_wave = wave;
                min_entropy = entropy;
            }
        }
        proof {
            let entropies = self@.entropies;
            assert(forall|c: int|
                0 <= c < entropies.len() ==> entropies[c] == self.entropies@[c] as int);
            if min_entropy > 0 {
                assert(entropies[min_entropy_wave as int] > 0);
            }
        }
        min_entropy_wave
    }

    /// Returns true if all waves are collapsed.
    pub fn are_collapsed(&self) -> (r: bool)
        ensures
            r == (self@.collapsed_count == self@.entropies.len()),
    {
        self.collapsed_count == self.entropies.len()
    }

    /// Returns the number of cells that were observed.
    pub fn collapsed_count(&self) -> (r: usize)
        ensures
            r == self@.collapsed_count,
    {
        self.collapsed_count
    }

    /// Returns the entropy of `wave`, as a fixed-point number with 32 binary
    /// places.
    pub fn entropy(&self, wave: usize) -> (r: u128)
        requires
            wave < self@.entropies.len(),
        ensures
            r == self@.entropies[wave as int],
    {
        self.entropies[wave]
    }

    /// Gives up the solver for the `tiles` state of all waves.
    pub fn into_tiles(self) -> (r: Vec<Vec<bool>>)
        ensures
            r@.len() == self@.candidates.len(),
            forall|c: int| 0 <= c < r@.len() ==> (#[trigger] r@[c])@ == self@.candidates[c],
    {
        self.tiles
    }

    /// Returns the current `tiles` state of all waves: for each cell the
    /// flags of the tiles that it may still hold.
    pub fn tiles(&self) -> (r: &Vec<Vec<bool>>)
        ensures
            r@.len() == self@.candidates.len(),
            forall|c: int| 0 <= c < r@.len() ==> (#[trigger] r@[c])@ == self@.candidates[c],
    {
        &self.tiles
    }

    /// Returns the tiles that `wave` may still hold, in ascending order.
    pub fn candidates(&self, wave: usize) -> (r: Vec<usize>)
        requires
            self.shaped(),
            wave < self.spec_cells(),
        ensures
            forall|i: int| 0 <= i < r@.len() ==> self@.has(wave as int, #[trigger] r@[i] as int),
            forall|t: int| self@.has(wave as int, t) ==> r@.contains(t as usize),
            forall|i: int, j: int| 0 <= i < j < r@.len() ==> r@[i] < r@[j],
    {
        let row = &self.tiles[wave];
        let mut list: Vec<usize> = Vec::new();
        for t in 0..row.len()
            invariant
                row@ == self@.candidates[wave as int],
                forall|i: int| 0 <= i < list@.len() ==> (#[trigger] list@[i]) < t && row@[list@[i] as int],
                forall|u: int| 0 <= u < t && row@[u] ==> list@.contains(u as usize),
                forall|i: int, j: int| 0 <= i < j < list@.len() ==> list@[i] < list@[j],
        {
            if row[t] {
                let ghost before = list@;
                list.push(t);
                assert(list@[list@.len() - 1] == t);
                assert forall|u: int| 0 <= u < t + 1 && row@[u] implies list@.contains(
                    u as usize,
                ) by {
                    if u < t {
                        let i = choose|i: int| 0 <= i < before.len() && before[i] == u as usize;
                        assert(list@[i] == u as usize);
                    }
                }
            }
        }
        list
    }

    /// Marks a wave as collapsed.
    fn collapse(&mut self, wave: usize)
        requires
            wave < old(self).entropies@.len(),
            old(self).collapsed_count < usize::MAX,
        ensures
            final(self).entropies@ == old(self).entropies@.update(wave as int, 0),
            final(self).collapsed_count == old(self).collapsed_count + 1,
            final(self).tiles == old(self).tiles,
            final(self).graph == old(self).graph,
            final(self).constraints == old(self).constraints,
    {
        self.entropies[wave] = 0;
        self.collapsed_count += 1;
    }

    /// Observes `wave` to hold `tile`, one of its candidates: the cell keeps
    /// that tile alone, its entropy becomes zero and it counts as collapsed.
    pub fn observe_tile(&mut self, wave: usize, tile: usize)
        requires
            old(self).wf(),
            wave < old(self).spec_cells(),
            old(self)@.entropies[wave as int] > 0,
            old(self)@.has(wave as int, tile as int),
        ensures
            old(self).same_problem(final(self)),
            final(self).wf(),
            final(self)@ == old(self)@.spec_observed(wave as int, tile as int),
            forall|c: int|
                0 <= c < old(self).spec_cells() ==> final(self)@.entropies[c] <= old(
                    self,
                )@.entropies[c],
            old(self)@.settled(old(self).spec_graph(), old(self).spec_constraints())
                ==> final(self)@.settled_except(
                old(self).spec_graph(),
                old(self).spec_constraints(),
                wave as int,
            ),
    {
        let tile_count = self.tiles[wave].len();
        let cells = self.entropies.len();
        proof {
            lemma_observed(
                self@,
                self.spec_cells(),
                self.spec_tile_count(),
                wave as int,
                tile as int,
            );
            if self@.settled(self.spec_graph(), self.spec_constraints()) {
                lemma_observed_settled(
                    self.spec_graph(),
                    self.spec_constraints(),
                    self@,
                    wave as int,
                    tile as int,
                );
            }
            lemma_zeros_bounds(self@.entropies);
            assert(self@.entropies[wave as int] != 0);
            assert(self.collapsed_count < cells);
        }
        let mut row = filled_row(tile_count, false);
        row[tile] = true;
        self.tiles[wave] = row;
        self.collapse(wave);
        proof {
            let target = old(self)@.spec_observed(wave as int, tile as int);
            assert(self@.candidates[wave as int] =~= target.candidates[wave as int]);
            assert(self@.candidates =~= target.candidates);
            assert(self@.entropies =~= target.entropies);
        }
    }

    /// Picks a tile at random from the tiles of `wave`, and returns it.
    pub fn observe(&mut self, wave: usize) -> (tile: usize)
        requires
            old(self).wf(),
            wave < old(self).spec_cells(),
            old(self)@.entropies[wave as int] > 0,
        ensures
            old(self).same_problem(final(self)),
            final(self).wf(),
            old(self)@.has(wave as int, tile as int),
            final(self)@ == old(self)@.spec_observed(wave as int, tile as int),
            forall|c: int|
                0 <= c < old(self).spec_cells() ==> final(self)@.entropies[c] <= old(
                    self,
                )@.entropies[c],
            old(self)@.settled(old(self).spec_graph(), old(self).spec_constraints())
                ==> final(self)@.settled_except(
                old(self).spec_graph(),
                old(self).spec_constraints(),
                wave as int,
            ),
    {
        let tiles = self.candidates(wave);
        proof {
            assert(self@.cell_ok(wave as int));
            let t = lemma_count_witness(self@.candidates[wave as int]);
            assert(self@.has(wave as int, t));
            assert(tiles@.contains(t as usize));
        }
        let observed_tile = pick(&mut self.rng, &tiles).unwrap();
        proof {
            let i = choose|i: int| 0 <= i < tiles@.len() && tiles@[i] == observed_tile;
            assert(self@.has(wave as int, tiles@[i] as int));
        }
        self.observe_tile(wave, observed_tile);
        observed_tile
    }

    /// Returns the number of tiles that `wave`, a cell that was not observed,
    /// may still hold: the whole part of its entropy.
    fn candidate_count(&self, wave: usize) -> (r: usize)
        requires
            wave < self@.entropies.len(),
            wave < self@.candidates.len(),
            ONE * count(self@.candidates[wave as int]) <= self@.entropies[wave as int] < ONE * (
            count(self@.candidates[wave as int]) + 1),
        ensures
            r == count(self@.candidates[wave as int]),
    {
        let width = self.tiles[wave].len();
        proof {
            lemma_count_bounds(self@.candidates[wave as int]);
        }
        let r = self.entropies[wave] / ONE;
        assert(r == count(self@.candidates[wave as int])) by (nonlinear_arith)
            requires
                r == self.entropies@[wave as int] as int / 4294967296,
                4294967296 * count(self@.candidates[wave as int]) <= self.entropies@[wave as int]
                    < 4294967296 * (count(self@.candidates[wave as int]) + 1),
        ;
        assert(r <= width);
        r as usize
    }

    /// Returns, for each tile, whether some candidate of `wave` allows it on
    /// its `face` side.
    fn allowed(&self, wave: usize, face: Face) -> (valid: Vec<bool>)
        requires
            self.shaped(),
            wave < self.spec_cells(),
        ensures
            valid@.len() == self.spec_tile_count(),
            forall|u: int|
                0 <= u < valid@.len() ==> #[trigger] valid@[u] == supported(
                    self.spec_constraints(),
                    self@.candidates[wave as int],
                    face,
                    u,
                ),
    {
        let tile_count = self.constraints.tile_count();
        let ghost cons = *self.constraints;
        let ghost support = self@.candidates[wave as int];
        let mut valid = filled_row(tile_count, false);
        for t in 0..tile_count
            invariant
                self.shaped(),
                wave < self.spec_cells(),
                cons == *self.constraints,
                support == self@.candidates[wave as int],
                tile_count == cons.spec_tile_count(),
                valid@.len() == tile_count,
                forall|u: int|
                    0 <= u < tile_count ==> #[trigger] valid@[u] == exists|v: int|
                        0 <= v < t && support[v] && #[trigger] cons.spec_allows(face, v, u),
        {
            if self.tiles[wave][t] {
                let row = self.constraints.row(face, t);
                proof {
                    cons.lemma_row(face, t as int);
                }
                for u in 0..tile_count
                    invariant
                        self.shaped(),
                        t < tile_count,
                        support[t as int],
                        tile_count == cons.spec_tile_count(),
                        valid@.len() == tile_count,
                        row@.len() == tile_count,
                        forall|x: int|
                            0 <= x < tile_count ==> #[trigger] row@[x] == cons.spec_allows(
                                face,
                                t as int,
                                x,
                            ),
                        forall|x: int|
                            0 <= x < u ==> #[trigger] valid@[x] == exists|v: int|
                                0 <= v < t + 1 && support[v] && #[trigger] cons.spec_allows(
                                    face,
                                    v,
                                    x,
                                ),
                        forall|x: int|
                            u <= x < tile_count ==> #[trigger] valid@[x] == exists|v: int|
                                0 <= v < t && support[v] && #[trigger] cons.spec_allows(face, v, x),
                {
                    if row[u] {
                        valid[u] = true;
                        assert(cons.spec_allows(face, t as int, u as int));
                    } else {
                        assert(!cons.spec_allows(face, t as int, u as int));
                    }
                }
            }
        }
        proof {
            assert forall|u: int| 0 <= u < valid@.len() implies #[trigger] valid@[u] == supported(
                cons,
                support,
                face,
                u,
            ) by {
                if supported(cons, support, face, u) {
                    let v = choose|v: int|
                        0 <= v < support.len() && support[v] && #[trigger] cons.spec_allows(
                            face,
                            v,
                            u,
                        );
                    assert(0 <= v < tile_count && support[v] && cons.spec_allows(face, v, u));
                }
            }
        }
        valid
    }

    /// Constrains `edge_wave` with the constraints of `wave` on `edge_face`:
    /// `edge_wave` keeps the candidates that some candidate of `wave` allows on
    /// its `edge_face` side, and its entropy goes down by one for each
    /// candidate that it loses.
    fn constrain(&mut self, edge_wave: usize, wave: usize, edge_face: Face)
        requires
            old(self).wf(),
            edge_wave < old(self).spec_cells(),
            wave < old(self).spec_cells(),
            old(self)@.entropies[edge_wave as int] > 0,
        ensures
            old(self).same_problem(final(self)),
            final(self)@ == old(self)@.spec_constrained(
                old(self).spec_constraints(),
                wave as int,
                edge_wave as int,
                edge_face,
            ),
    {
        let valid_tiles = self.allowed(wave, edge_face);
        let tile_count = valid_tiles.len();
        let ghost cons = *self.constraints;
        let ghost before = self@;
        let ghost row = before.candidates[edge_wave as int];
        let ghost target = restricted(cons, before.candidates[wave as int], edge_face, row);
        proof {
            assert(before.cell_ok(edge_wave as int));
        }
        for tile in 0..tile_count
            invariant
                old(self).same_problem(self),
                self.collapsed_count == old(self).collapsed_count,
                self.tiles@.len() == old(self).tiles@.len(),
                self.entropies@.len() == old(self).entropies@.len(),
                edge_wave < self.tiles@.len(),
                edge_wave < self.entropies@.len(),
                before == old(self)@,
                row == before.candidates[edge_wave as int],
                row.len() == tile_count,
                target == restricted(cons, before.candidates[wave as int], edge_face, row),
                valid_tiles@.len() == tile_count,
                forall|u: int|
                    0 <= u < tile_count ==> #[trigger] valid_tiles@[u] == supported(
                        cons,
                        before.candidates[wave as int],
                        edge_face,
                        u,
                    ),
                forall|c: int|
                    0 <= c < self.tiles@.len() && c != edge_wave ==> #[trigger] self.tiles@[c]
                        == old(self).tiles@[c],
                forall|c: int|
                    0 <= c < self.entropies@.len() && c != edge_wave
                        ==> #[trigger] self.entropies@[c] == old(self).entropies@[c],
                self.tiles@[edge_wave as int]@.len() == tile_count,
                forall|u: int|
                    0 <= u < tile ==> #[trigger] self.tiles@[edge_wave as int]@[u] == target[u],
                forall|u: int|
                    tile <= u < tile_count ==> #[trigger] self.tiles@[edge_wave as int]@[u]
                        == row[u],
                ONE * count(row) <= before.entropies[edge_wave as int],
                count(self.tiles@[edge_wave as int]@) <= count(row),
                self.entropies@[edge_wave as int] == before.entropies[edge_wave as int] - ONE * (
                count(row) - count(self.tiles@[edge_wave as int]@)),
        {
            if self.tiles[edge_wave][tile] && !valid_tiles[tile] {
                proof {
                    let current = self.tiles@[edge_wave as int]@;
                    lemma_count_update(current, tile as int, false);
                    lemma_count_bounds(current);
                }
                self.entropies[edge_wave] -= ONE;
                self.tiles[edge_wave][tile] = false;
            }
        }
        proof {
            let later = before.spec_constrained(cons, wave as int, edge_wave as int, edge_face);
            assert(self.tiles@[edge_wave as int]@ =~= target);
            assert(self@.candidates =~= later.candidates);
            assert(self@.entropies =~= later.entropies);
        }
    }

    /// Visits the edges of `wave`: every neighbour that was neither visited
    /// nor observed is constrained by `wave`. A neighbour that loses all its
    /// candidates ends the visit with a contradiction; one that loses some
    /// goes onto `stack`.
    fn relax(&mut self, wave: usize, stack: &mut Vec<usize>, visited: &Vec<bool>) -> (r: Result<
        (),
        Contradiction,
    >)
        requires
            sweep_wf(
                old(self).spec_graph(),
                old(self).spec_constraints(),
                Sweep { waves: old(self)@, stack: old(stack)@, visited: visited@ },
            ),
            wave < old(self).spec_cells(),
            visited@[wave as int],
        ensures
            old(self).same_problem(final(self)),
            ({
                let (next, k) = spec_relaxed(
                    old(self).spec_graph(),
                    old(self).spec_constraints(),
                    Sweep { waves: old(self)@, stack: old(stack)@, visited: visited@ },
                    wave as int,
                    0,
                );
                &&& final(self)@ == next.waves
                &&& r is Ok ==> k is None && final(stack)@ == next.stack
                &&& r matches Err(e) ==> k == Some(e@)
            }),
    {
        let ghost graph = self.spec_graph();
        let ghost cons = self.spec_constraints();
        let ghost start = Sweep { waves: self@, stack: stack@, visited: visited@ };
        let edge_count = self.graph[wave].len();
        for j in 0..edge_count
            invariant
                old(self).same_problem(self),
                graph == self.spec_graph(),
                cons == self.spec_constraints(),
                start == (Sweep { waves: old(self)@, stack: old(stack)@, visited: visited@ }),
                wave < graph.len(),
                edge_count == graph[wave as int]@.len(),
                visited@[wave as int],
                sweep_wf(graph, cons, Sweep { waves: self@, stack: stack@, visited: visited@ }),
                spec_relaxed(graph, cons, start, wave as int, 0) == spec_relaxed(
                    graph,
                    cons,
                    Sweep { waves: self@, stack: stack@, visited: visited@ },
                    wave as int,
                    j as int,
                ),
        {
            let ghost current = Sweep { waves: self@, stack: stack@, visited: visited@ };
            let edge = self.graph[wave][j];
            let edge_wave = edge.0;
            let edge_face = edge.1;
            assert(edge == graph[wave as int]@[j as int]);
            assert(edge_wave < graph.len());
            if !visited[edge_wave] && self.entropies[edge_wave] > 0 {
                proof {
                    assert(self@.cell_ok(edge_wave as int));
                    lemma_step(graph, cons, current, wave as int, j as int);
                }
                let initial_tile_count = self.candidate_count(edge_wave);
                self.constrain(edge_wave, wave, edge_face);
                let tile_count = self.candidate_count(edge_wave);
                if tile_count == 0 {
                    let tiles = copy_row(&self.tiles[wave]);
                    let contradiction = Contradiction { wave, tiles, face: edge_face };
                    assert(spec_relaxed(graph, cons, current, wave as int, j as int) == (
                        with_waves(current, self@),
                        Some(contradiction@),
                    ));
                    return Err(contradiction);
                }
                if tile_count != initial_tile_count {
                    stack.push(edge_wave);
                }
                assert(Sweep { waves: self@, stack: stack@, visited: visited@ } == spec_step(
                    graph,
                    cons,
                    current,
                    wave as int,
                    j as int,
                ));
            }
        }
        Ok(())
    }

    /// Propogates constraints over the graph starting from `wave`: the cells
    /// that changed since they were last visited wait on a worklist, and
    /// visiting a cell constrains each neighbour that was neither visited in
    /// this propagation nor observed.
    pub fn propogate(&mut self, wave: usize) -> (r: Result<(), Contradiction>)
        requires
            old(self).wf(),
            wave < old(self).spec_cells(),
        ensures
            old(self).same_problem(final(self)),
            exists|fuel: nat|
                spec_propagated(
                    old(self).spec_graph(),
                    old(self).spec_constraints(),
                    old(self)@,
                    wave as int,
                    fuel,
                ) == Some((final(self)@, spec_contradiction(r))),
            propagated(
                old(self).spec_graph(),
                old(self).spec_constraints(),
                old(self)@,
                wave as int,
                final(self)@,
                spec_contradiction(r),
            ),
            final(self).shaped(),
            final(self)@.collapsed_count == old(self)@.collapsed_count,
            forall|c: int|
                0 <= c < old(self).spec_cells() ==> final(self)@.entropies[c] <= old(
                    self,
                )@.entropies[c],
            r is Ok ==> final(self).wf(),
            r is Ok && old(self)@.entropies[wave as int] == 0 && old(self)@.settled_except(
                old(self).spec_graph(),
                old(self).spec_constraints(),
                wave as int,
            ) && old(self).spec_constraints().symmetric() && crate::coordinate::graph_symmetric(
                old(self).spec_graph(),
            ) ==> final(self)@.settled(old(self).spec_graph(), old(self).spec_constraints()),
    {
        let ghost graph = self.spec_graph();
        let ghost cons = self.spec_constraints();
        let ghost before = self@;
        let ghost start = spec_start(before, wave as int);
        let cells = self.graph.len();
        let mut stack: Vec<usize> = Vec::new();
        stack.push(wave);
        let mut visited = filled_row(cells, false);
        let ghost mut steps: nat = 0;
        assert(stack@ =~= start.stack);
        assert(visited@ =~= start.visited);
        while stack.len() > 0
            invariant
                old(self).same_problem(self),
                graph == self.spec_graph(),
                cons == self.spec_constraints(),
                before == old(self)@,
                start == spec_start(before, wave as int),
                cells == graph.len(),
                wave < cells,
                before.wf(graph.len() as int, cons.spec_tile_count()),
                sweep_wf(graph, cons, Sweep { waves: self@, stack: stack@, visited: visited@ }),
                forall|fuel: nat|
                    (#[trigger] spec_swept(
                        graph,
                        cons,
                        Sweep { waves: self@, stack: stack@, visited: visited@ },
                        fuel,
                    )) is Some ==> spec_swept(graph, cons, start, fuel + steps) == spec_swept(
                        graph,
                        cons,
                        Sweep { waves: self@, stack: stack@, visited: visited@ },
                        fuel,
                    ),
            decreases total(self@.candidates) + stack@.len(),
        {
            let ghost current = Sweep { waves: self@, stack: stack@, visited: visited@ };
            let top = stack.pop().unwrap();
            assert(top == current.stack.last());
            assert(top < cells);
            visited[top] = true;
            let ghost popped = Sweep { waves: self@, stack: stack@, visited: visited@ };
            proof {
                assert(popped.stack =~= current.stack.drop_last());
                assert(popped.visited =~= current.visited.update(top as int, true));
                assert forall|i: int| 0 <= i < popped.stack.len() implies (
                #[trigger] popped.stack[i]) < graph.len() by {
                    assert(popped.stack[i] == current.stack[i]);
                }
                lemma_relaxed_frame(graph, cons, popped, top as int, 0);
            }
            let ghost (next, found) = spec_relaxed(graph, cons, popped, top as int, 0);
            match self.relax(top, &mut stack, &visited) {
                Err(contradiction) => {
                    proof {
                        assert(spec_swept(graph, cons, current, 1) == Some((next.waves, found)));
                        assert(spec_swept(graph, cons, start, 1 + steps) == Some(
                            (self@, Some(contradiction@)),
                        ));
                        lemma_propagated(graph, cons, before, wave as int, 1 + steps);
                        reveal(propagated);
                        assert forall|c: int| 0 <= c < cells implies self@.entropies[c]
                            <= before.entropies[c] by {
                            lemma_shrunk_counts(before, self@, c);
                        }
                    }
                    return Err(contradiction);
                },
                Ok(()) => {},
            }
            proof {
                assert(Sweep { waves: self@, stack: stack@, visited: visited@ } == next);
                assert forall|fuel: nat|
                    (#[trigger] spec_swept(graph, cons, next, fuel)) is Some implies spec_swept(
                    graph,
                    cons,
                    start,
                    fuel + (steps + 1),
                ) == spec_swept(graph, cons, next, fuel) by {
                    assert(spec_swept(graph, cons, current, fuel + 1) == spec_swept(
                        graph,
                        cons,
                        next,
                        fuel,
                    ));
                    assert(fuel + 1 + steps == fuel + (steps + 1));
                }
                steps = steps + 1;
            }
        }
        proof {
            let last = Sweep { waves: self@, stack: stack@, visited: visited@ };
            assert(spec_swept(graph, cons, last, 0) == Some((self@, None::<ContradictionModel>)));
            assert(spec_swept(graph, cons, start, 0 + steps) == Some(
                (self@, None::<ContradictionModel>),
            ));
            lemma_propagated(graph, cons, before, wave as int, steps);
            reveal(propagated);
            assert forall|c: int| 0 <= c < cells implies self@.entropies[c]
                <= before.entropies[c] by {
                lemma_shrunk_counts(before, self@, c);
            }
            if before.entropies[wave as int] == 0 && before.settled_except(graph, cons, wave as int)
                && cons.symmetric() && crate::coordinate::graph_symmetric(graph) {
                lemma_propagated_settled(graph, cons, before, wave as int, self@);
            }
        }
        Ok(())
    }
}

/// The contradiction that a propagation ended with, if it ended with one.
pub open spec fn spec_contradiction(r: Result<(), Contradiction>) -> Option<ContradictionModel> {
    match r {
        Ok(_) => None,
        Err(e) => Some(e@),
    }
}

} // verus!
