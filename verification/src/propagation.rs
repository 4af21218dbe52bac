//! The mathematics of the solver: candidate rows, entropies, and what one
//! propagation does to them.

use vstd::prelude::*;
use crate::constraints::Constraints;
use crate::coordinate::{graph_closed, graph_symmetric, has_edge};
use crate::face::Face;

verus! {

/// The entropy that one candidate contributes. Entropies are fixed-point
/// numbers with 32 binary places: the whole part counts the candidates of a
/// cell, the fraction is the noise that breaks ties between cells.
pub const ONE: u128 = 4294967296;

/// Number of candidates in a row of flags.
pub open spec fn count(row: Seq<bool>) -> nat
    decreases row.len(),
{
    if row.len() == 0 {
        0
    } else {
        count(row.drop_last()) + if row.last() {
            1nat
        } else {
            0nat
        }
    }
}

/// Number of candidates in all rows together.
pub open spec fn total(candidates: Seq<Seq<bool>>) -> nat
    decreases candidates.len(),
{
    if candidates.len() == 0 {
        0
    } else {
        total(candidates.drop_last()) + count(candidates.last())
    }
}

/// Number of cells whose entropy is zero.
pub open spec fn zeros(entropies: Seq<int>) -> nat
    decreases entropies.len(),
{
    if entropies.len() == 0 {
        0
    } else {
        zeros(entropies.drop_last()) + if entropies.last() == 0 {
            1nat
        } else {
            0nat
        }
    }
}

/// A row has at most as many candidates as flags; it has none exactly when
/// every flag is down, and as many as flags exactly when every flag is up.
pub proof fn lemma_count_bounds(row: Seq<bool>)
    ensures
        count(row) <= row.len(),
        count(row) == 0 <==> forall|t: int| 0 <= t < row.len() ==> !row[t],
        count(row) == row.len() <==> forall|t: int| 0 <= t < row.len() ==> row[t],
    decreases row.len(),
{
    if row.len() > 0 {
        let init = row.drop_last();
        lemma_count_bounds(init);
        assert(forall|t: int| 0 <= t < init.len() ==> init[t] == row[t]);
        if count(row) == 0 {
            assert forall|t: int| 0 <= t < row.len() implies !row[t] by {
                if t < init.len() {
                    assert(!init[t]);
                }
            }
        }
        if count(row) == row.len() {
            assert forall|t: int| 0 <= t < row.len() implies row[t] by {
                if t < init.len() {
                    assert(init[t]);
                }
            }
        }
    }
}

/// Changing one flag of a row changes its number of candidates by one, or not
/// at all if the flag stays as it is.
pub proof fn lemma_count_update(row: Seq<bool>, t: int, flag: bool)
    requires
        0 <= t < row.len(),
    ensures
        count(row.update(t, flag)) == count(row) - (if row[t] {
            1int
        } else {
            0int
        }) + (if flag {
            1int
        } else {
            0int
        }),
    decreases row.len(),
{
    let changed = row.update(t, flag);
    if t == row.len() - 1 {
        assert(changed.drop_last() =~= row.drop_last());
    } else {
        lemma_count_update(row.drop_last(), t, flag);
        assert(changed.drop_last() =~= row.drop_last().update(t, flag));
    }
}

/// A row whose candidates are all candidates of another row has at most as
/// many candidates; if it has as many, the two rows are equal.
pub proof fn lemma_count_subset(small: Seq<bool>, large: Seq<bool>)
    requires
        small.len() == large.len(),
        forall|t: int| 0 <= t < small.len() && small[t] ==> large[t],
    ensures
        count(small) <= count(large),
        count(small) == count(large) ==> small == large,
    decreases small.len(),
{
    if small.len() > 0 {
        lemma_count_subset(small.drop_last(), large.drop_last());
        if count(small) == count(large) {
            assert(small.drop_last() == large.drop_last());
            assert(small =~= small.drop_last().push(small.last()));
            assert(large =~= large.drop_last().push(large.last()));
        }
    } else {
        assert(small =~= large);
    }
}

/// A row with exactly one candidate holds that candidate and no other.
pub proof fn lemma_count_one(row: Seq<bool>) -> (t: int)
    requires
        count(row) == 1,
    ensures
        0 <= t < row.len(),
        row[t],
        forall|u: int| 0 <= u < row.len() && row[u] ==> u == t,
    decreases row.len(),
{
    let init = row.drop_last();
    assert(forall|u: int| 0 <= u < init.len() ==> init[u] == row[u]);
    if row.last() {
        lemma_count_bounds(init);
        row.len() - 1
    } else {
        lemma_count_one(init)
    }
}

/// A row with a single flag up has one candidate.
pub proof fn lemma_count_single(row: Seq<bool>, t: int)
    requires
        0 <= t < row.len(),
        forall|u: int| 0 <= u < row.len() ==> row[u] == (u == t),
    ensures
        count(row) == 1,
    decreases row.len(),
{
    let init = row.drop_last();
    assert(forall|u: int| 0 <= u < init.len() ==> init[u] == row[u]);
    if t == row.len() - 1 {
        lemma_count_bounds(init);
    } else {
        lemma_count_single(init, t);
    }
}

/// Replacing one row changes the number of all candidates by the difference
/// between the new row and the old.
pub proof fn lemma_total_update(candidates: Seq<Seq<bool>>, c: int, row: Seq<bool>)
    requires
        0 <= c < candidates.len(),
    ensures
        total(candidates.update(c, row)) == total(candidates) - count(candidates[c]) + count(row),
    decreases candidates.len(),
{
    let changed = candidates.update(c, row);
    if c == candidates.len() - 1 {
        assert(changed.drop_last() =~= candidates.drop_last());
    } else {
        lemma_total_update(candidates.drop_last(), c, row);
        assert(changed.drop_last() =~= candidates.drop_last().update(c, row));
    }
}

/// Changing one entropy changes the number of zeros by one, or not at all.
pub proof fn lemma_zeros_update(entropies: Seq<int>, c: int, entropy: int)
    requires
        0 <= c < entropies.len(),
    ensures
        zeros(entropies.update(c, entropy)) == zeros(entropies) - (if entropies[c] == 0 {
            1int
        } else {
            0int
        }) + (if entropy == 0 {
            1int
        } else {
            0int
        }),
    decreases entropies.len(),
{
    let changed = entropies.update(c, entropy);
    if c == entropies.len() - 1 {
        assert(changed.drop_last() =~= entropies.drop_last());
    } else {
        lemma_zeros_update(entropies.drop_last(), c, entropy);
        assert(changed.drop_last() =~= entropies.drop_last().update(c, entropy));
    }
}

/// There are at most as many zeros as entropies; as many exactly when every
/// entropy is zero, and none exactly when no entropy is zero.
pub proof fn lemma_zeros_bounds(entropies: Seq<int>)
    ensures
        zeros(entropies) <= entropies.len(),
        zeros(entropies) == entropies.len() <==> forall|c: int|
            0 <= c < entropies.len() ==> entropies[c] == 0,
        zeros(entropies) == 0 <==> forall|c: int| 0 <= c < entropies.len() ==> entropies[c] != 0,
    decreases entropies.len(),
{
    if entropies.len() > 0 {
        let init = entropies.drop_last();
        lemma_zeros_bounds(init);
        assert(forall|c: int| 0 <= c < init.len() ==> init[c] == entropies[c]);
        if zeros(entropies) == entropies.len() {
            assert forall|c: int| 0 <= c < entropies.len() implies entropies[c] == 0 by {
                if c < init.len() {
                    assert(init[c] == 0);
                }
            }
        }
        if zeros(entropies) == 0 {
            assert forall|c: int| 0 <= c < entropies.len() implies entropies[c] != 0 by {
                if c < init.len() {
                    assert(init[c] != 0);
                }
            }
        }
    }
}

/// The cell that the `j`-th edge of cell `c` leads to.
pub open spec fn edge_cell(graph: Seq<Vec<(usize, Face)>>, c: int, j: int) -> int {
    graph[c]@[j].0 as int
}

/// The face of cell `c` that its `j`-th edge goes across.
pub open spec fn edge_face(graph: Seq<Vec<(usize, Face)>>, c: int, j: int) -> Face {
    graph[c]@[j].1
}

/// Whether some candidate of the row `support` allows tile `other` on its
/// `face` side.
pub open spec fn supported(cons: Constraints, support: Seq<bool>, face: Face, other: int) -> bool {
    exists|t: int| 0 <= t < support.len() && support[t] && #[trigger] cons.spec_allows(face, t, other)
}

/// The candidates of `row` that some candidate of `support` allows on its
/// `face` side.
pub open spec fn restricted(cons: Constraints, support: Seq<bool>, face: Face, row: Seq<bool>) -> Seq<
    bool,
> {
    Seq::new(row.len(), |other: int| row[other] && supported(cons, support, face, other))
}

/// The state of the solver: for each cell the flags of its candidates and its
/// entropy, and the number of observed cells.
pub struct WavesModel {
    pub candidates: Seq<Seq<bool>>,
    pub entropies: Seq<int>,
    pub collapsed_count: int,
}

/// A contradiction: the cell whose candidates left nothing to a neighbour,
/// those candidates, and the face of the cell on which the neighbour lies.
pub struct ContradictionModel {
    pub wave: int,
    pub tiles: Seq<bool>,
    pub face: Face,
}

impl WavesModel {
    /// There are `cells` cells, each with one flag for each of `tiles` tiles.
    pub open spec fn shaped(self, cells: int, tiles: int) -> bool {
        &&& self.candidates.len() == cells
        &&& self.entropies.len() == cells
        &&& forall|c: int| 0 <= c < cells ==> (#[trigger] self.candidates[c]).len() == tiles
    }

    /// Whether cell `c` was observed: its entropy is zero.
    pub open spec fn collapsed(self, c: int) -> bool {
        self.entropies[c] == 0
    }

    /// Whether tile `t` is a candidate of cell `c`.
    pub open spec fn has(self, c: int, t: int) -> bool {
        0 <= c < self.candidates.len() && 0 <= t < self.candidates[c].len() && self.candidates[c][t]
    }

    /// The entropy of cell `c` agrees with its candidates: an observed cell
    /// has entropy zero and one candidate, any other cell has at least one
    /// candidate and as entropy their number plus a noise below one.
    pub open spec fn cell_ok(self, c: int) -> bool {
        let k = count(self.candidates[c]);
        if self.entropies[c] == 0 {
            k == 1
        } else {
            k >= 1 && ONE * k <= self.entropies[c] < ONE * (k + 1)
        }
    }

    /// The state is a well-formed one for `cells` cells and `tiles` tiles:
    /// every cell has a candidate, entropies agree with candidates, and the
    /// number of observed cells is the number of zero entropies.
    pub open spec fn wf(self, cells: int, tiles: int) -> bool {
        &&& self.shaped(cells, tiles)
        &&& forall|c: int| 0 <= c < cells ==> #[trigger] self.cell_ok(c)
        &&& self.collapsed_count == zeros(self.entropies)
    }

    /// The state after cell `c` was observed to hold tile `tile`: the cell
    /// keeps that candidate alone, its entropy is zero, and one more cell is
    /// observed.
    pub open spec fn spec_observed(self, c: int, tile: int) -> WavesModel {
        WavesModel {
            candidates: self.candidates.update(
                c,
                Seq::new(self.candidates[c].len(), |t: int| t == tile),
            ),
            entropies: self.entropies.update(c, 0),
            collapsed_count: self.collapsed_count + 1,
        }
    }

    /// The state after the candidates of cell `n` were constrained by those
    /// of cell `c`, on whose `face` side `n` lies: `n` keeps the candidates
    /// that some candidate of `c` allows, and its entropy goes down by one for
    /// each candidate that it loses.
    pub open spec fn spec_constrained(self, cons: Constraints, c: int, n: int, face: Face) -> WavesModel {
        let row = restricted(cons, self.candidates[c], face, self.candidates[n]);
        WavesModel {
            candidates: self.candidates.update(n, row),
            entropies: self.entropies.update(
                n,
                self.entropies[n] - ONE * (count(self.candidates[n]) - count(row)),
            ),
            collapsed_count: self.collapsed_count,
        }
    }

    /// Whether `later` can come of this state by propagation: candidates only
    /// leave, observed cells keep their candidate, every entropy goes down by
    /// one for each candidate that its cell lost, and no further cell counts
    /// as observed.
    pub open spec fn shrunk_to(self, later: WavesModel) -> bool {
        &&& later.candidates.len() == self.candidates.len()
        &&& later.entropies.len() == self.entropies.len()
        &&& later.collapsed_count == self.collapsed_count
        &&& forall|c: int|
            0 <= c < self.candidates.len() ==> (#[trigger] later.candidates[c]).len()
                == self.candidates[c].len()
        &&& forall|c: int, t: int|
            0 <= c < self.candidates.len() && 0 <= t < self.candidates[c].len()
                && #[trigger] later.candidates[c][t] ==> self.candidates[c][t]
        &&& forall|c: int|
            0 <= c < self.entropies.len() ==> #[trigger] later.entropies[c] == self.entropies[c]
                - ONE * (count(self.candidates[c]) - count(later.candidates[c]))
        &&& forall|c: int|
            0 <= c < self.entropies.len() && self.entropies[c] == 0
                ==> #[trigger] later.candidates[c] == self.candidates[c]
    }

    /// For every observed cell but `except`, every candidate of every
    /// neighbour is allowed by the tile of the cell.
    pub open spec fn settled_except(
        self,
        graph: Seq<Vec<(usize, Face)>>,
        cons: Constraints,
        except: int,
    ) -> bool {
        forall|a: int, j: int, u: int|
            #![trigger self.has(edge_cell(graph, a, j), u)]
            0 <= a < graph.len() && a != except && self.entropies[a] == 0 && 0 <= j
                < graph[a]@.len() && self.has(edge_cell(graph, a, j), u) ==> supported(
                cons,
                self.candidates[a],
                edge_face(graph, a, j),
                u,
            )
    }

    /// For every observed cell, every candidate of every neighbour is allowed
    /// by the tile of the cell.
    pub open spec fn settled(self, graph: Seq<Vec<(usize, Face)>>, cons: Constraints) -> bool {
        self.settled_except(graph, cons, -1)
    }
}

/// Shrinking twice is shrinking.
pub proof fn lemma_shrunk_transitive(a: WavesModel, b: WavesModel, c: WavesModel)
    requires
        a.shrunk_to(b),
        b.shrunk_to(c),
    ensures
        a.shrunk_to(c),
{
    assert forall|i: int| 0 <= i < a.entropies.len() implies #[trigger] c.entropies[i]
        == a.entropies[i] - ONE * (count(a.candidates[i]) - count(c.candidates[i])) by {
        assert(b.entropies[i] == a.entropies[i] - ONE * (count(a.candidates[i]) - count(
            b.candidates[i],
        )));
        assert(c.entropies[i] == b.entropies[i] - ONE * (count(b.candidates[i]) - count(
            c.candidates[i],
        )));
    }
    assert forall|i: int| 0 <= i < a.entropies.len() && a.entropies[i] == 0 implies #[trigger] c.candidates[i]
        == a.candidates[i] by {
        assert(b.candidates[i] == a.candidates[i]);
        assert(b.entropies[i] == 0);
    }
    assert forall|i: int, t: int|
        0 <= i < a.candidates.len() && 0 <= t < a.candidates[i].len()
            && #[trigger] c.candidates[i][t] implies a.candidates[i][t] by {
        assert(b.candidates[i].len() == a.candidates[i].len());
        assert(b.candidates[i][t]);
    }
    assert forall|i: int| 0 <= i < a.candidates.len() implies (#[trigger] c.candidates[i]).len()
        == a.candidates[i].len() by {
        assert(b.candidates[i].len() == a.candidates[i].len());
    }
}

/// What constraining cell `n` by cell `c` does to a well-formed state in
/// which `n` was not observed yet: only `n` changes, it keeps exactly the
/// candidates that `c` supports, and while it keeps one the state stays
/// well-formed.
pub proof fn lemma_constrained(
    w: WavesModel,
    cons: Constraints,
    cells: int,
    tiles: int,
    c: int,
    n: int,
    face: Face,
)
    requires
        w.wf(cells, tiles),
        0 <= c < cells,
        0 <= n < cells,
        w.entropies[n] > 0,
    ensures
        ({
            let later = w.spec_constrained(cons, c, n, face);
            &&& later.shaped(cells, tiles)
            &&& w.shrunk_to(later)
            &&& forall|i: int| 0 <= i < cells && i != n ==> later.candidates[i] == w.candidates[i]
            &&& forall|i: int| 0 <= i < cells && i != n ==> later.entropies[i] == w.entropies[i]
            &&& later.candidates[n] == restricted(cons, w.candidates[c], face, w.candidates[n])
            &&& count(later.candidates[n]) <= count(w.candidates[n])
            &&& total(later.candidates) + count(w.candidates[n]) == total(w.candidates) + count(
                later.candidates[n],
            )
            &&& later.entropies[n] >= ONE * count(later.candidates[n])
            &&& count(later.candidates[n]) >= 1 ==> later.wf(cells, tiles) && later.entropies[n] > 0
            &&& count(later.candidates[n]) == count(w.candidates[n]) ==> later == w
        }),
{
    let later = w.spec_constrained(cons, c, n, face);
    let row = restricted(cons, w.candidates[c], face, w.candidates[n]);
    assert(w.cell_ok(n));
    lemma_count_subset(row, w.candidates[n]);
    lemma_total_update(w.candidates, n, row);
    assert forall|i: int| 0 <= i < w.entropies.len() implies #[trigger] later.entropies[i]
        == w.entropies[i] - ONE * (count(w.candidates[i]) - count(later.candidates[i])) by {}
    if count(row) >= 1 {
        lemma_zeros_update(w.entropies, n, later.entropies[n]);
        assert forall|i: int| 0 <= i < cells implies #[trigger] later.cell_ok(i) by {
            assert(w.cell_ok(i));
        }
    }
    if count(row) == count(w.candidates[n]) {
        assert(later.candidates =~= w.candidates);
        assert(later.entropies =~= w.entropies);
    }
}

/// A propagation under way: the state of the solver, the worklist of cells
/// that changed since they were last visited, and the flags of the cells that
/// were visited.
pub struct Sweep {
    pub waves: WavesModel,
    pub stack: Seq<usize>,
    pub visited: Seq<bool>,
}

/// The sweep with another state of the solver.
pub open spec fn with_waves(s: Sweep, waves: WavesModel) -> Sweep {
    Sweep { waves, stack: s.stack, visited: s.visited }
}

/// What visiting the edges of cell `c` from the `j`-th on does: each
/// neighbour that was neither visited nor observed is constrained by `c`. If
/// it loses all candidates, the visit ends with a contradiction; if it loses
/// some, it goes onto the worklist.
pub open spec fn spec_relaxed(
    graph: Seq<Vec<(usize, Face)>>,
    cons: Constraints,
    s: Sweep,
    c: int,
    j: int,
) -> (Sweep, Option<ContradictionModel>)
    decreases graph[c]@.len() - j,
{
    if j < 0 || j >= graph[c]@.len() {
        (s, None)
    } else {
        let n = graph[c]@[j].0;
        let face = graph[c]@[j].1;
        if !s.visited[n as int] && s.waves.entropies[n as int] > 0 {
            let waves = s.waves.spec_constrained(cons, c, n as int, face);
            if count(waves.candidates[n as int]) == 0 {
                (
                    with_waves(s, waves),
                    Some(ContradictionModel { wave: c, tiles: waves.candidates[c], face }),
                )
            } else if count(waves.candidates[n as int]) != count(s.waves.candidates[n as int]) {
                spec_relaxed(
                    graph,
                    cons,
                    Sweep { waves, stack: s.stack.push(n), visited: s.visited },
                    c,
                    j + 1,
                )
            } else {
                spec_relaxed(graph, cons, with_waves(s, waves), c, j + 1)
            }
        } else {
            spec_relaxed(graph, cons, s, c, j + 1)
        }
    }
}

/// What a propagation does from the sweep `s` on, if `fuel` visits are
/// enough for it: while the worklist holds a cell, the last one is taken off,
/// marked as visited, and its edges are visited. The result is the state of
/// the solver at the end, with the contradiction that ended the propagation
/// if there was one.
pub open spec fn spec_swept(
    graph: Seq<Vec<(usize, Face)>>,
    cons: Constraints,
    s: Sweep,
    fuel: nat,
) -> Option<(WavesModel, Option<ContradictionModel>)>
    decreases fuel,
{
    if s.stack.len() == 0 {
        Some((s.waves, None))
    } else if fuel == 0 {
        None
    } else {
        let c = s.stack.last() as int;
        let popped = Sweep {
            waves: s.waves,
            stack: s.stack.drop_last(),
            visited: s.visited.update(c, true),
        };
        let (next, contradiction) = spec_relaxed(graph, cons, popped, c, 0);
        if contradiction is Some {
            Some((next.waves, contradiction))
        } else {
            spec_swept(graph, cons, next, (fuel - 1) as nat)
        }
    }
}

/// The sweep that a propagation from cell `c` starts with: `c` alone is on
/// the worklist and no cell was visited.
pub open spec fn spec_start(waves: WavesModel, c: int) -> Sweep {
    Sweep {
        waves,
        stack: seq![c as usize],
        visited: Seq::new(waves.candidates.len(), |i: int| false),
    }
}

/// What propagating from cell `c` does to the state `waves`, if `fuel`
/// visits are enough for it.
pub open spec fn spec_propagated(
    graph: Seq<Vec<(usize, Face)>>,
    cons: Constraints,
    waves: WavesModel,
    c: int,
    fuel: nat,
) -> Option<(WavesModel, Option<ContradictionModel>)> {
    spec_swept(graph, cons, spec_start(waves, c), fuel)
}

/// A propagation that ends with some fuel ends in the same way with more.
pub proof fn lemma_swept_more_fuel(
    graph: Seq<Vec<(usize, Face)>>,
    cons: Constraints,
    s: Sweep,
    fuel: nat,
    more: nat,
)
    requires
        spec_swept(graph, cons, s, fuel) is Some,
        fuel <= more,
    ensures
        spec_swept(graph, cons, s, more) == spec_swept(graph, cons, s, fuel),
    decreases fuel,
{
    if s.stack.len() > 0 {
        let c = s.stack.last() as int;
        let popped = Sweep {
            waves: s.waves,
            stack: s.stack.drop_last(),
            visited: s.visited.update(c, true),
        };
        let (next, contradiction) = spec_relaxed(graph, cons, popped, c, 0);
        if contradiction is None {
            lemma_swept_more_fuel(graph, cons, next, (fuel - 1) as nat, (more - 1) as nat);
        }
    }
}

/// The result of a propagation does not depend on the fuel that it was given.
pub proof fn lemma_propagated_unique(
    graph: Seq<Vec<(usize, Face)>>,
    cons: Constraints,
    waves: WavesModel,
    c: int,
    fuel: nat,
    other: nat,
)
    requires
        spec_propagated(graph, cons, waves, c, fuel) is Some,
        spec_propagated(graph, cons, waves, c, other) is Some,
    ensures
        spec_propagated(graph, cons, waves, c, fuel) == spec_propagated(
            graph,
            cons,
            waves,
            c,
            other,
        ),
{
    if fuel <= other {
        lemma_swept_more_fuel(graph, cons, spec_start(waves, c), fuel, other);
    } else {
        lemma_swept_more_fuel(graph, cons, spec_start(waves, c), other, fuel);
    }
}

/// The sweep is one over a well-formed state for the graph and the table:
/// the worklist holds cells, and there is one flag for each cell.
pub open spec fn sweep_wf(graph: Seq<Vec<(usize, Face)>>, cons: Constraints, s: Sweep) -> bool {
    &&& cons.wf()
    &&& graph_closed(graph)
    &&& s.waves.wf(graph.len() as int, cons.spec_tile_count())
    &&& s.visited.len() == graph.len()
    &&& forall|i: int| 0 <= i < s.stack.len() ==> (#[trigger] s.stack[i]) < graph.len()
}

/// Whether the cells that `frozen` marks, and the observed cells, have the
/// same candidates in `later` as in `earlier`.
pub open spec fn kept(earlier: WavesModel, later: WavesModel, frozen: Seq<bool>) -> bool {
    forall|i: int|
        0 <= i < earlier.candidates.len() && i < earlier.entropies.len() && i < frozen.len() && (
        frozen[i] || earlier.entropies[i] == 0) ==> #[trigger] later.candidates[i]
            == earlier.candidates[i]
}

/// Whether the contradiction `k` is a true one for the states `earlier` and
/// `later` of one propagation: it names a cell with candidates and one of its
/// edges to a neighbour that was not observed, which has no candidate left
/// and had one that no candidate of the cell allows.
pub open spec fn justified(
    graph: Seq<Vec<(usize, Face)>>,
    cons: Constraints,
    earlier: WavesModel,
    later: WavesModel,
    k: ContradictionModel,
) -> bool {
    &&& 0 <= k.wave < graph.len()
    &&& k.tiles == later.candidates[k.wave]
    &&& count(k.tiles) >= 1
    &&& exists|j: int, u: int|
        #![trigger earlier.has(edge_cell(graph, k.wave, j), u)]
        {
            &&& 0 <= j < graph[k.wave]@.len()
            &&& edge_face(graph, k.wave, j) == k.face
            &&& earlier.entropies[edge_cell(graph, k.wave, j)] > 0
            &&& count(later.candidates[edge_cell(graph, k.wave, j)]) == 0
            &&& earlier.has(edge_cell(graph, k.wave, j), u)
            &&& !supported(cons, k.tiles, k.face, u)
        }
}

/// Whether every candidate that a neighbour of `c` across one of the edges
/// from the `j`-th on has in `later` is allowed by a candidate of `c`, as far
/// as the neighbour was neither observed nor marked by `frozen` in `earlier`.
pub open spec fn neighbours_supported(
    graph: Seq<Vec<(usize, Face)>>,
    cons: Constraints,
    earlier: WavesModel,
    later: WavesModel,
    frozen: Seq<bool>,
    c: int,
    j: int,
) -> bool {
    forall|i: int, u: int|
        #![trigger later.has(edge_cell(graph, c, i), u)]
        j <= i < graph[c]@.len() && !frozen[edge_cell(graph, c, i)]
            && earlier.entropies[edge_cell(graph, c, i)] > 0 && later.has(
            edge_cell(graph, c, i),
            u,
        ) ==> supported(cons, earlier.candidates[c], edge_face(graph, c, i), u)
}

/// Whether the neighbour of `c` across its `i`-th edge, neither observed nor
/// marked by `frozen`, has no candidate that a candidate of `c` allows.
pub open spec fn starved_at(
    graph: Seq<Vec<(usize, Face)>>,
    cons: Constraints,
    waves: WavesModel,
    frozen: Seq<bool>,
    c: int,
    i: int,
) -> bool {
    &&& 0 <= i < graph[c]@.len()
    &&& !frozen[edge_cell(graph, c, i)]
    &&& waves.entropies[edge_cell(graph, c, i)] > 0
    &&& forall|u: int|
        #[trigger] waves.has(edge_cell(graph, c, i), u) ==> !supported(
            cons,
            waves.candidates[c],
            edge_face(graph, c, i),
            u,
        )
}

/// Whether some neighbour of `c` across one of the edges from the `j`-th on
/// is starved.
pub open spec fn neighbour_starved(
    graph: Seq<Vec<(usize, Face)>>,
    cons: Constraints,
    waves: WavesModel,
    frozen: Seq<bool>,
    c: int,
    j: int,
) -> bool {
    exists|i: int| j <= i && #[trigger] starved_at(graph, cons, waves, frozen, c, i)
}

/// A state shrinks to itself and keeps every row.
pub proof fn lemma_shrunk_reflexive(w: WavesModel, frozen: Seq<bool>)
    ensures
        w.shrunk_to(w),
        kept(w, w, frozen),
{
}

/// A row with a candidate has a flag that is up.
pub proof fn lemma_count_witness(row: Seq<bool>) -> (t: int)
    requires
        count(row) >= 1,
    ensures
        0 <= t < row.len(),
        row[t],
{
    lemma_count_bounds(row);
    choose|t: int| 0 <= t < row.len() && row[t]
}

/// What one step of visiting the edges of `c` does, where the `j`-th edge
/// leads to a cell `n` that was neither visited nor observed: the state after
/// constraining `n` by `c`, and the sweep that goes on from there if `n`
/// kept a candidate.
pub open spec fn spec_step(graph: Seq<Vec<(usize, Face)>>, cons: Constraints, s: Sweep, c: int, j: int) -> Sweep {
    let n = graph[c]@[j].0;
    let waves = s.waves.spec_constrained(cons, c, n as int, graph[c]@[j].1);
    if count(waves.candidates[n as int]) != count(s.waves.candidates[n as int]) {
        Sweep { waves, stack: s.stack.push(n), visited: s.visited }
    } else {
        with_waves(s, waves)
    }
}

/// One step of visiting the edges of `c` leaves a sweep that is well-formed
/// as long as the constrained neighbour keeps a candidate; it changes no cell
/// but that neighbour, and what it puts on the worklist it has taken off the
/// candidates.
pub proof fn lemma_step(graph: Seq<Vec<(usize, Face)>>, cons: Constraints, s: Sweep, c: int, j: int)
    requires
        sweep_wf(graph, cons, s),
        0 <= c < graph.len(),
        s.visited[c],
        0 <= j < graph[c]@.len(),
        !s.visited[edge_cell(graph, c, j)],
        s.waves.entropies[edge_cell(graph, c, j)] > 0,
    ensures
        ({
            let n = edge_cell(graph, c, j);
            let next = spec_step(graph, cons, s, c, j);
            &&& 0 <= n < graph.len()
            &&& n != c
            &&& next.visited == s.visited
            &&& next.waves == s.waves.spec_constrained(cons, c, n, edge_face(graph, c, j))
            &&& next.waves.shaped(graph.len() as int, cons.spec_tile_count())
            &&& s.waves.shrunk_to(next.waves)
            &&& kept(s.waves, next.waves, s.visited)
            &&& next.waves.candidates[c] == s.waves.candidates[c]
            &&& next.waves.candidates[n] == restricted(
                cons,
                s.waves.candidates[c],
                edge_face(graph, c, j),
                s.waves.candidates[n],
            )
            &&& forall|i: int|
                0 <= i < graph.len() && i != n ==> next.waves.entropies[i] == s.waves.entropies[i]
            &&& total(next.waves.candidates) + next.stack.len() <= total(s.waves.candidates)
                + s.stack.len()
            &&& count(next.waves.candidates[n]) >= 1 ==> sweep_wf(graph, cons, next)
                && next.waves.entropies[n] > 0
        }),
{
    let n = edge_cell(graph, c, j);
    assert(graph[c]@[j].0 < graph.len());
    lemma_constrained(
        s.waves,
        cons,
        graph.len() as int,
        cons.spec_tile_count(),
        c,
        n,
        edge_face(graph, c, j),
    );
    let next = spec_step(graph, cons, s, c, j);
    if count(next.waves.candidates[n]) >= 1 {
        assert forall|i: int| 0 <= i < next.stack.len() implies (#[trigger] next.stack[i])
            < graph.len() by {
            if i < s.stack.len() {
                assert(next.stack[i] == s.stack[i]);
            }
        }
    }
}

/// What visiting the edges of a visited cell `c` from the `j`-th on does to
/// a well-formed sweep: candidates only leave, and only cells that were
/// neither visited nor observed lose any. If no contradiction ends the visit,
/// the sweep stays well-formed, and what the visit puts on the worklist it
/// has taken off the candidates.
pub proof fn lemma_relaxed_frame(
    graph: Seq<Vec<(usize, Face)>>,
    cons: Constraints,
    s: Sweep,
    c: int,
    j: int,
)
    requires
        sweep_wf(graph, cons, s),
        0 <= c < graph.len(),
        s.visited[c],
        0 <= j <= graph[c]@.len(),
    ensures
        ({
            let (next, k) = spec_relaxed(graph, cons, s, c, j);
            &&& next.visited == s.visited
            &&& next.waves.shaped(graph.len() as int, cons.spec_tile_count())
            &&& s.waves.shrunk_to(next.waves)
            &&& kept(s.waves, next.waves, s.visited)
            &&& next.waves.candidates[c] == s.waves.candidates[c]
            &&& k is None ==> {
                &&& sweep_wf(graph, cons, next)
                &&& total(next.waves.candidates) + next.stack.len() <= total(s.waves.candidates)
                    + s.stack.len()
            }
            &&& k is Some ==> k->0.wave == c && k->0.tiles == s.waves.candidates[c]
        }),
    decreases graph[c]@.len() - j,
{
    if j < graph[c]@.len() {
        let n = edge_cell(graph, c, j);
        if !s.visited[n] && s.waves.entropies[n] > 0 {
            lemma_step(graph, cons, s, c, j);
            let step = spec_step(graph, cons, s, c, j);
            if count(step.waves.candidates[n]) >= 1 {
                lemma_relaxed_frame(graph, cons, step, c, j + 1);
                let (next, k) = spec_relaxed(graph, cons, step, c, j + 1);
                assert(spec_relaxed(graph, cons, s, c, j) == (next, k));
                lemma_shrunk_transitive(s.waves, step.waves, next.waves);
                assert forall|i: int|
                    0 <= i < s.waves.candidates.len() && i < s.waves.entropies.len() && i
                        < s.visited.len() && (s.visited[i] || s.waves.entropies[i] == 0)
                    implies #[trigger] next.waves.candidates[i] == s.waves.candidates[i] by {
                    assert(step.waves.candidates[i] == s.waves.candidates[i]);
                    assert(step.waves.entropies[i] == s.waves.entropies[i]);
                }
            } else {
                lemma_shrunk_reflexive(s.waves, s.visited);
            }
        } else {
            lemma_relaxed_frame(graph, cons, s, c, j + 1);
        }
    } else {
        lemma_shrunk_reflexive(s.waves, s.visited);
    }
}

/// A visit of the edges of `c` that ends without a contradiction leaves
/// every neighbour that it could constrain with candidates that `c` allows,
/// and no such neighbour was starved.
pub proof fn lemma_relaxed_support(
    graph: Seq<Vec<(usize, Face)>>,
    cons: Constraints,
    s: Sweep,
    c: int,
    j: int,
)
    requires
        sweep_wf(graph, cons, s),
        0 <= c < graph.len(),
        s.visited[c],
        0 <= j <= graph[c]@.len(),
        spec_relaxed(graph, cons, s, c, j).1 is None,
    ensures
        neighbours_supported(
            graph,
            cons,
            s.waves,
            spec_relaxed(graph, cons, s, c, j).0.waves,
            s.visited,
            c,
            j,
        ),
        !neighbour_starved(graph, cons, s.waves, s.visited, c, j),
    decreases graph[c]@.len() - j,
{
    let (last, _) = spec_relaxed(graph, cons, s, c, j);
    if j < graph[c]@.len() {
        let n = edge_cell(graph, c, j);
        let face = edge_face(graph, c, j);
        if !s.visited[n] && s.waves.entropies[n] > 0 {
            lemma_step(graph, cons, s, c, j);
            let step = spec_step(graph, cons, s, c, j);
            assert(count(step.waves.candidates[n]) >= 1);
            assert(spec_relaxed(graph, cons, s, c, j) == spec_relaxed(graph, cons, step, c, j + 1));
            lemma_relaxed_support(graph, cons, step, c, j + 1);
            lemma_relaxed_frame(graph, cons, step, c, j + 1);
            assert forall|i: int, u: int|
                #![trigger last.waves.has(edge_cell(graph, c, i), u)]
                j <= i < graph[c]@.len() && !s.visited[edge_cell(graph, c, i)]
                    && s.waves.entropies[edge_cell(graph, c, i)] > 0 && last.waves.has(
                    edge_cell(graph, c, i),
                    u,
                ) implies supported(cons, s.waves.candidates[c], edge_face(graph, c, i), u) by {
                let m = edge_cell(graph, c, i);
                assert(graph[c]@[i].0 < graph.len());
                if i == j {
                    assert(last.waves.candidates[n][u]);
                    assert(step.waves.candidates[n][u]);
                } else {
                    assert(step.waves.entropies[m] > 0);
                }
            }
            assert forall|i: int| j <= i implies !#[trigger] starved_at(
                graph,
                cons,
                s.waves,
                s.visited,
                c,
                i,
            ) by {
                if starved_at(graph, cons, s.waves, s.visited, c, i) {
                    let m = edge_cell(graph, c, i);
                    assert(graph[c]@[i].0 < graph.len());
                    if i == j {
                        let u = lemma_count_witness(step.waves.candidates[n]);
                        assert(s.waves.has(n, u));
                    } else {
                        assert(step.waves.entropies[m] > 0);
                        assert(!starved_at(graph, cons, step.waves, step.visited, c, i));
                        let u = choose|u: int|
                            #[trigger] step.waves.has(m, u) && supported(
                                cons,
                                step.waves.candidates[c],
                                edge_face(graph, c, i),
                                u,
                            );
                        assert(step.waves.candidates[m][u]);
                        assert(s.waves.has(m, u));
                    }
                }
            }
        } else {
            lemma_relaxed_support(graph, cons, s, c, j + 1);
            assert forall|i: int| j <= i implies !#[trigger] starved_at(
                graph,
                cons,
                s.waves,
                s.visited,
                c,
                i,
            ) by {
                if i > j {
                    assert(!starved_at(graph, cons, s.waves, s.visited, c, i));
                }
            }
        }
    }
}

/// A contradiction that ends a visit of the edges of `c` is a true one.
pub proof fn lemma_relaxed_justified(
    graph: Seq<Vec<(usize, Face)>>,
    cons: Constraints,
    s: Sweep,
    c: int,
    j: int,
)
    requires
        sweep_wf(graph, cons, s),
        0 <= c < graph.len(),
        s.visited[c],
        0 <= j <= graph[c]@.len(),
        spec_relaxed(graph, cons, s, c, j).1 is Some,
    ensures
        justified(
            graph,
            cons,
            s.waves,
            spec_relaxed(graph, cons, s, c, j).0.waves,
            spec_relaxed(graph, cons, s, c, j).1->0,
        ),
    decreases graph[c]@.len() - j,
{
    let (last, found) = spec_relaxed(graph, cons, s, c, j);
    let k = found->0;
    if j < graph[c]@.len() {
        let n = edge_cell(graph, c, j);
        let face = edge_face(graph, c, j);
        assert(s.waves.cell_ok(c));
        if !s.visited[n] && s.waves.entropies[n] > 0 {
            lemma_step(graph, cons, s, c, j);
            let step = spec_step(graph, cons, s, c, j);
            assert(s.waves.cell_ok(n));
            if count(step.waves.candidates[n]) == 0 {
                let u = lemma_count_witness(s.waves.candidates[n]);
                lemma_count_bounds(step.waves.candidates[n]);
                assert(!step.waves.candidates[n][u]);
                assert(s.waves.has(edge_cell(graph, c, j), u));
                assert(last.waves == step.waves);
            } else {
                assert(spec_relaxed(graph, cons, s, c, j) == spec_relaxed(
                    graph,
                    cons,
                    step,
                    c,
                    j + 1,
                ));
                lemma_relaxed_justified(graph, cons, step, c, j + 1);
                lemma_relaxed_frame(graph, cons, step, c, j + 1);
                let (i, u) = choose|i: int, u: int|
                    #![trigger step.waves.has(edge_cell(graph, k.wave, i), u)]
                    {
                        &&& 0 <= i < graph[k.wave]@.len()
                        &&& edge_face(graph, k.wave, i) == k.face
                        &&& step.waves.entropies[edge_cell(graph, k.wave, i)] > 0
                        &&& count(last.waves.candidates[edge_cell(graph, k.wave, i)]) == 0
                        &&& step.waves.has(edge_cell(graph, k.wave, i), u)
                        &&& !supported(cons, k.tiles, k.face, u)
                    };
                let m = edge_cell(graph, c, i);
                assert(graph[c]@[i].0 < graph.len());
                assert(step.waves.candidates[m][u]);
                assert(s.waves.has(edge_cell(graph, k.wave, i), u));
            }
        } else {
            lemma_relaxed_justified(graph, cons, s, c, j + 1);
        }
    }
}

/// In a state that shrinks to another, no cell has fewer candidates or a
/// lower entropy than in the other.
pub proof fn lemma_shrunk_counts(earlier: WavesModel, later: WavesModel, c: int)
    requires
        earlier.shrunk_to(later),
        0 <= c < earlier.candidates.len(),
        0 <= c < earlier.entropies.len(),
    ensures
        count(later.candidates[c]) <= count(earlier.candidates[c]),
        later.entropies[c] <= earlier.entropies[c],
        forall|t: int| later.has(c, t) ==> earlier.has(c, t),
{
    assert(later.candidates[c].len() == earlier.candidates[c].len());
    assert forall|t: int| 0 <= t < later.candidates[c].len() && later.candidates[c][t] implies earlier.candidates[c][t] by {}
    lemma_count_subset(later.candidates[c], earlier.candidates[c]);
    assert(later.entropies[c] == earlier.entropies[c] - ONE * (count(earlier.candidates[c])
        - count(later.candidates[c])));
}

/// A contradiction that is a true one for a state is a true one for every
/// state that shrinks to that state.
pub proof fn lemma_justified_earlier(
    graph: Seq<Vec<(usize, Face)>>,
    cons: Constraints,
    first: WavesModel,
    earlier: WavesModel,
    later: WavesModel,
    k: ContradictionModel,
)
    requires
        graph_closed(graph),
        first.candidates.len() == graph.len(),
        first.entropies.len() == graph.len(),
        first.shrunk_to(earlier),
        justified(graph, cons, earlier, later, k),
    ensures
        justified(graph, cons, first, later, k),
{
    let (j, u) = choose|j: int, u: int|
        #![trigger earlier.has(edge_cell(graph, k.wave, j), u)]
        {
            &&& 0 <= j < graph[k.wave]@.len()
            &&& edge_face(graph, k.wave, j) == k.face
            &&& earlier.entropies[edge_cell(graph, k.wave, j)] > 0
            &&& count(later.candidates[edge_cell(graph, k.wave, j)]) == 0
            &&& earlier.has(edge_cell(graph, k.wave, j), u)
            &&& !supported(cons, k.tiles, k.face, u)
        };
    let m = edge_cell(graph, k.wave, j);
    assert(graph[k.wave]@[j].0 < graph.len());
    lemma_shrunk_counts(first, earlier, m);
    assert(first.has(edge_cell(graph, k.wave, j), u));
}

/// Rows that a propagation kept up to some state and keeps from there on
/// were kept all the time.
pub proof fn lemma_kept_transitive(
    a: WavesModel,
    b: WavesModel,
    c: WavesModel,
    frozen: Seq<bool>,
    later_frozen: Seq<bool>,
)
    requires
        a.shrunk_to(b),
        kept(a, b, frozen),
        kept(b, c, later_frozen),
        frozen.len() == later_frozen.len(),
        forall|i: int| 0 <= i < frozen.len() && frozen[i] ==> later_frozen[i],
    ensures
        kept(a, c, frozen),
{
    assert forall|i: int|
        0 <= i < a.candidates.len() && i < a.entropies.len() && i < frozen.len() && (frozen[i]
            || a.entropies[i] == 0) implies #[trigger] c.candidates[i] == a.candidates[i] by {
        assert(b.candidates[i] == a.candidates[i]);
        assert(b.entropies[i] == a.entropies[i] - ONE * (count(a.candidates[i]) - count(
            b.candidates[i],
        )));
    }
}

/// What a propagation does to a well-formed sweep: candidates only leave,
/// and only cells that were neither visited nor observed lose any. If it ends
/// without a contradiction, the state is well-formed; a contradiction that
/// ends it is a true one.
pub proof fn lemma_swept(graph: Seq<Vec<(usize, Face)>>, cons: Constraints, s: Sweep, fuel: nat)
    requires
        sweep_wf(graph, cons, s),
        spec_swept(graph, cons, s, fuel) is Some,
    ensures
        ({
            let (w, k) = spec_swept(graph, cons, s, fuel)->0;
            &&& s.waves.shrunk_to(w)
            &&& w.shaped(graph.len() as int, cons.spec_tile_count())
            &&& kept(s.waves, w, s.visited)
            &&& k is None ==> w.wf(graph.len() as int, cons.spec_tile_count())
            &&& k is Some ==> justified(graph, cons, s.waves, w, k->0)
        }),
    decreases fuel,
{
    if s.stack.len() == 0 {
        lemma_shrunk_reflexive(s.waves, s.visited);
    } else {
        let c = s.stack.last() as int;
        let popped = Sweep {
            waves: s.waves,
            stack: s.stack.drop_last(),
            visited: s.visited.update(c, true),
        };
        assert(s.stack[s.stack.len() - 1] < graph.len());
        assert forall|i: int| 0 <= i < popped.stack.len() implies (#[trigger] popped.stack[i])
            < graph.len() by {
            assert(popped.stack[i] == s.stack[i]);
        }
        lemma_relaxed_frame(graph, cons, popped, c, 0);
        let (next, found) = spec_relaxed(graph, cons, popped, c, 0);
        if found is Some {
            lemma_relaxed_justified(graph, cons, popped, c, 0);
        } else {
            lemma_swept(graph, cons, next, (fuel - 1) as nat);
            let (w, k) = spec_swept(graph, cons, next, (fuel - 1) as nat)->0;
            lemma_shrunk_transitive(s.waves, next.waves, w);
            lemma_kept_transitive(s.waves, next.waves, w, popped.visited, next.visited);
            if k is Some {
                lemma_justified_earlier(graph, cons, s.waves, next.waves, w, k->0);
            }
        }
    }
}

/// The flags that mark cell `c` alone among `cells` cells.
pub open spec fn only(cells: int, c: int) -> Seq<bool> {
    Seq::new(cells as nat, |i: int| i == c)
}

/// What propagating from cell `c` makes of the state `before`: the state
/// `after`, with the contradiction `k` if one ended the propagation.
///
/// Candidates only leave, observed cells and `c` keep theirs, and every
/// entropy goes down by one for each candidate that its cell lost. Without a
/// contradiction the state is well-formed again, and every candidate that is
/// left to a neighbour of `c` is allowed by a candidate of `c`. A
/// contradiction is a true one, and there is one at `c` whenever a neighbour
/// of `c` that was not observed has no candidate that `c` allows.
#[verifier::opaque]
pub open spec fn propagated(
    graph: Seq<Vec<(usize, Face)>>,
    cons: Constraints,
    before: WavesModel,
    c: int,
    after: WavesModel,
    k: Option<ContradictionModel>,
) -> bool {
    &&& before.shrunk_to(after)
    &&& after.shaped(graph.len() as int, cons.spec_tile_count())
    &&& after.candidates[c] == before.candidates[c]
    &&& k is None ==> {
        &&& after.wf(graph.len() as int, cons.spec_tile_count())
        &&& neighbours_supported(graph, cons, before, after, only(graph.len() as int, c), c, 0)
    }
    &&& k is Some ==> justified(graph, cons, before, after, k->0)
    &&& neighbour_starved(graph, cons, before, only(graph.len() as int, c), c, 0) ==> k is Some
        && k->0.wave == c
}

/// A propagation from a cell of a well-formed state does what `propagated`
/// says.
pub proof fn lemma_propagated(
    graph: Seq<Vec<(usize, Face)>>,
    cons: Constraints,
    before: WavesModel,
    c: int,
    fuel: nat,
)
    requires
        cons.wf(),
        graph_closed(graph),
        before.wf(graph.len() as int, cons.spec_tile_count()),
        0 <= c < graph.len(),
        c <= usize::MAX,
        spec_propagated(graph, cons, before, c, fuel) is Some,
    ensures
        ({
            let (after, k) = spec_propagated(graph, cons, before, c, fuel)->0;
            propagated(graph, cons, before, c, after, k)
        }),
{
    reveal(propagated);
    let s = spec_start(before, c);
    let cells = graph.len() as int;
    assert(s.stack[0] == c);
    lemma_swept(graph, cons, s, fuel);
    let (after, k) = spec_swept(graph, cons, s, fuel)->0;
    let popped = Sweep {
        waves: s.waves,
        stack: s.stack.drop_last(),
        visited: s.visited.update(c, true),
    };
    assert(popped.visited =~= only(cells, c));
    lemma_relaxed_frame(graph, cons, popped, c, 0);
    let (next, found) = spec_relaxed(graph, cons, popped, c, 0);
    if found is Some {
        if neighbour_starved(graph, cons, before, only(cells, c), c, 0) {
        }
    } else {
        lemma_relaxed_support(graph, cons, popped, c, 0);
        lemma_swept(graph, cons, next, (fuel - 1) as nat);
        assert(after.candidates[c] == next.waves.candidates[c]);
        if k is None {
            assert forall|i: int, u: int|
                #![trigger after.has(edge_cell(graph, c, i), u)]
                0 <= i < graph[c]@.len() && !only(cells, c)[edge_cell(graph, c, i)]
                    && before.entropies[edge_cell(graph, c, i)] > 0 && after.has(
                    edge_cell(graph, c, i),
                    u,
                ) implies supported(cons, before.candidates[c], edge_face(graph, c, i), u) by {
                let m = edge_cell(graph, c, i);
                assert(graph[c]@[i].0 < graph.len());
                lemma_shrunk_counts(next.waves, after, m);
                assert(next.waves.has(edge_cell(graph, c, i), u));
            }
        }
    }
}

/// What observing a cell does to a well-formed state: the cell keeps the
/// observed tile alone and has entropy zero, every other cell stays as it
/// is, and the state is well-formed again.
pub proof fn lemma_observed(w: WavesModel, cells: int, tiles: int, c: int, tile: int)
    requires
        w.wf(cells, tiles),
        0 <= c < cells,
        w.entropies[c] > 0,
        w.has(c, tile),
    ensures
        ({
            let o = w.spec_observed(c, tile);
            &&& o.wf(cells, tiles)
            &&& o.entropies[c] == 0
            &&& count(o.candidates[c]) == 1
            &&& forall|t: int| o.has(c, t) <==> t == tile
            &&& forall|i: int| 0 <= i < cells && i != c ==> o.candidates[i] == w.candidates[i]
            &&& forall|i: int| 0 <= i < cells && i != c ==> o.entropies[i] == w.entropies[i]
            &&& forall|i: int| 0 <= i < cells ==> o.entropies[i] <= w.entropies[i]
            &&& forall|i: int, t: int| o.has(i, t) ==> w.has(i, t)
        }),
{
    let o = w.spec_observed(c, tile);
    lemma_count_single(o.candidates[c], tile);
    lemma_zeros_update(w.entropies, c, 0);
    assert forall|i: int| 0 <= i < cells implies #[trigger] o.cell_ok(i) by {
        assert(w.cell_ok(i));
    }
}

/// Observing a cell of a settled state leaves a state that is settled but
/// for that cell.
pub proof fn lemma_observed_settled(
    graph: Seq<Vec<(usize, Face)>>,
    cons: Constraints,
    w: WavesModel,
    c: int,
    tile: int,
)
    requires
        graph_closed(graph),
        w.wf(graph.len() as int, cons.spec_tile_count()),
        0 <= c < graph.len(),
        w.entropies[c] > 0,
        w.has(c, tile),
        w.settled(graph, cons),
    ensures
        w.spec_observed(c, tile).settled_except(graph, cons, c),
{
    let o = w.spec_observed(c, tile);
    lemma_observed(w, graph.len() as int, cons.spec_tile_count(), c, tile);
    assert forall|a: int, j: int, u: int|
        #![trigger o.has(edge_cell(graph, a, j), u)]
        0 <= a < graph.len() && a != c && o.entropies[a] == 0 && 0 <= j < graph[a]@.len()
            && o.has(edge_cell(graph, a, j), u) implies supported(
        cons,
        o.candidates[a],
        edge_face(graph, a, j),
        u,
    ) by {
        assert(w.has(edge_cell(graph, a, j), u));
    }
}

/// A propagation that ends without a contradiction settles the observed cell
/// that it started from, if the state was settled but for that cell, the
/// graph holds every edge in both directions and the table is symmetric.
pub proof fn lemma_propagated_settled(
    graph: Seq<Vec<(usize, Face)>>,
    cons: Constraints,
    before: WavesModel,
    c: int,
    after: WavesModel,
)
    requires
        cons.wf(),
        cons.symmetric(),
        graph_closed(graph),
        graph_symmetric(graph),
        graph.len() <= usize::MAX,
        before.wf(graph.len() as int, cons.spec_tile_count()),
        0 <= c < graph.len(),
        before.entropies[c] == 0,
        before.settled_except(graph, cons, c),
        propagated(graph, cons, before, c, after, None),
    ensures
        after.settled(graph, cons),
{
    reveal(propagated);
    let cells = graph.len() as int;
    assert forall|a: int, j: int, u: int|
        #![trigger after.has(edge_cell(graph, a, j), u)]
        0 <= a < graph.len() && after.entropies[a] == 0 && 0 <= j < graph[a]@.len() && after.has(
            edge_cell(graph, a, j),
            u,
        ) implies supported(cons, after.candidates[a], edge_face(graph, a, j), u) by {
        let m = edge_cell(graph, a, j);
        let face = edge_face(graph, a, j);
        assert(graph[a]@[j].0 < graph.len());
        lemma_shrunk_counts(before, after, a);
        lemma_shrunk_counts(before, after, m);
        assert(before.cell_ok(a));
        assert(after.cell_ok(a));
        assert(before.entropies[a] == 0);
        assert(after.candidates[a] == before.candidates[a]);
        assert(before.has(edge_cell(graph, a, j), u));
        if a == c {
            let edge = graph[c]@[j];
            assert(edge.0 != c);
            assert(before.cell_ok(m));
            if before.entropies[m] > 0 {
                assert(!only(cells, c)[m]);
            } else {
                assert(has_edge(graph, m, c, face.spec_opposite()));
                reveal(has_edge);
                let back = choose|back: int|
                    0 <= back < graph[m]@.len() && #[trigger] graph[m]@[back] == (
                        c as usize,
                        face.spec_opposite(),
                    );
                assert(edge_cell(graph, m, back) == c);
                let t = lemma_count_witness(before.candidates[c]);
                assert(before.has(edge_cell(graph, m, back), t));
                assert(supported(cons, before.candidates[m], face.spec_opposite(), t));
                let v = choose|v: int|
                    0 <= v < before.candidates[m].len() && before.candidates[m][v]
                        && #[trigger] cons.spec_allows(face.spec_opposite(), v, t);
                assert(before.cell_ok(m));
                let single = lemma_count_one(before.candidates[m]);
                assert(v == u);
                face.lemma_opposite_involutive();
                cons.lemma_symmetric(face, t, u);
                assert(cons.spec_allows(face, t, u));
            }
        }
    }
}

/// In a well-formed state in which as many cells count as observed as there
/// are cells, every cell was observed and holds exactly one tile.
pub proof fn lemma_all_collapsed(w: WavesModel, cells: int, tiles: int)
    requires
        w.wf(cells, tiles),
        w.collapsed_count == cells,
    ensures
        forall|c: int| 0 <= c < cells ==> (#[trigger] w.entropies[c]) == 0,
        forall|c: int| 0 <= c < cells ==> count(#[trigger] w.candidates[c]) == 1,
{
    lemma_zeros_bounds(w.entropies);
    assert forall|c: int| 0 <= c < cells implies count(#[trigger] w.candidates[c]) == 1 by {
        assert(w.cell_ok(c));
    }
}

/// Whether some candidate of `row` may stand on the `face` side of `tile`.
pub open spec fn has_support(cons: Constraints, row: Seq<bool>, face: Face, tile: int) -> bool {
    exists|u: int| 0 <= u < row.len() && row[u] && #[trigger] cons.spec_allows(face, tile, u)
}

/// Whether the state is arc-consistent: each candidate of a cell has,
/// across every edge of the cell, a candidate of the neighbour that may stand
/// on that side of it.
pub open spec fn arc_consistent(graph: Seq<Vec<(usize, Face)>>, cons: Constraints, w: WavesModel) -> bool {
    forall|c: int, j: int, t: int|
        #![trigger w.has(c, t), edge_cell(graph, c, j)]
        0 <= c < graph.len() && 0 <= j < graph[c]@.len() && w.has(c, t) ==> has_support(
            cons,
            w.candidates[edge_cell(graph, c, j)],
            edge_face(graph, c, j),
            t,
        )
}

/// Whether the candidates of the state agree along every edge: each candidate
/// of the neighbour may stand on that side of each candidate of the cell.
pub open spec fn agreeing(graph: Seq<Vec<(usize, Face)>>, cons: Constraints, w: WavesModel) -> bool {
    forall|c: int, j: int, t: int, u: int|
        #![trigger w.has(c, t), w.has(edge_cell(graph, c, j), u)]
        0 <= c < graph.len() && 0 <= j < graph[c]@.len() && w.has(c, t) && w.has(
            edge_cell(graph, c, j),
            u,
        ) ==> cons.spec_allows(edge_face(graph, c, j), t, u)
}

/// In a settled state in which every cell was observed, the tiles of the
/// cells agree along every edge.
pub proof fn lemma_solved(graph: Seq<Vec<(usize, Face)>>, cons: Constraints, w: WavesModel)
    requires
        graph_closed(graph),
        w.wf(graph.len() as int, cons.spec_tile_count()),
        w.collapsed_count == graph.len(),
        w.settled(graph, cons),
    ensures
        agreeing(graph, cons, w),
{
    lemma_all_collapsed(w, graph.len() as int, cons.spec_tile_count());
    assert forall|c: int, j: int, t: int, u: int|
        #![trigger w.has(c, t), w.has(edge_cell(graph, c, j), u)]
        0 <= c < graph.len() && 0 <= j < graph[c]@.len() && w.has(c, t) && w.has(
            edge_cell(graph, c, j),
            u,
        ) implies cons.spec_allows(edge_face(graph, c, j), t, u) by {
        assert(supported(cons, w.candidates[c], edge_face(graph, c, j), u));
        let single = lemma_count_one(w.candidates[c]);
    }
}

/// A state in which every cell holds a tile and the tiles agree along every
/// edge is arc-consistent.
pub proof fn lemma_agreeing_arc_consistent(
    graph: Seq<Vec<(usize, Face)>>,
    cons: Constraints,
    w: WavesModel,
)
    requires
        graph_closed(graph),
        w.wf(graph.len() as int, cons.spec_tile_count()),
        agreeing(graph, cons, w),
    ensures
        arc_consistent(graph, cons, w),
{
    assert forall|c: int, j: int, t: int|
        #![trigger w.has(c, t), edge_cell(graph, c, j)]
        0 <= c < graph.len() && 0 <= j < graph[c]@.len() && w.has(c, t) implies has_support(
        cons,
        w.candidates[edge_cell(graph, c, j)],
        edge_face(graph, c, j),
        t,
    ) by {
        let m = edge_cell(graph, c, j);
        assert(graph[c]@[j].0 < graph.len());
        assert(w.cell_ok(m));
        let u = lemma_count_witness(w.candidates[m]);
        assert(w.has(edge_cell(graph, c, j), u));
        assert(cons.spec_allows(edge_face(graph, c, j), t, u));
    }
}

/// Propagating from a cell without neighbours changes nothing and ends
/// without a contradiction.
pub proof fn lemma_propagated_alone(
    graph: Seq<Vec<(usize, Face)>>,
    cons: Constraints,
    waves: WavesModel,
    c: int,
)
    requires
        0 <= c < graph.len(),
        c <= usize::MAX,
        graph[c]@.len() == 0,
    ensures
        spec_propagated(graph, cons, waves, c, 1) == Some((waves, None::<ContradictionModel>)),
{
    let s = spec_start(waves, c);
    assert(s.stack.last() == c);
    let popped = Sweep {
        waves: s.waves,
        stack: s.stack.drop_last(),
        visited: s.visited.update(c, true),
    };
    assert(spec_relaxed(graph, cons, popped, c, 0) == (popped, None::<ContradictionModel>));
    assert(popped.stack.len() == 0);
    assert(spec_swept(graph, cons, popped, 0) == Some((waves, None::<ContradictionModel>)));
}

/// At success, that is in a settled state in which as many cells count as
/// observed as there are cells, every cell holds exactly one tile and the
/// state is arc-consistent.
pub proof fn lemma_success(graph: Seq<Vec<(usize, Face)>>, cons: Constraints, w: WavesModel)
    requires
        graph_closed(graph),
        w.wf(graph.len() as int, cons.spec_tile_count()),
        w.collapsed_count == graph.len(),
        w.settled(graph, cons),
    ensures
        forall|c: int| 0 <= c < graph.len() ==> count(#[trigger] w.candidates[c]) == 1,
        arc_consistent(graph, cons, w),
{
    lemma_all_collapsed(w, graph.len() as int, cons.spec_tile_count());
    lemma_solved(graph, cons, w);
    lemma_agreeing_arc_consistent(graph, cons, w);
}

} // verus!
