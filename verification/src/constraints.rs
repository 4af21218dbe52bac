//! The adjacency table: which tile may stand on which side of which tile.

use vstd::prelude::*;
use crate::face::{Face, FACE_COUNT};

verus! {

/// For every face and every tile, the tiles that may be placed on that side
/// of the tile. The table holds one flag for each face and each ordered pair
/// of tiles.
pub struct Constraints {
    table: Vec<Vec<Vec<bool>>>,
}

impl Constraints {
    /// Number of tiles that the table speaks of.
    pub closed spec fn spec_tile_count(&self) -> int {
        if self.table@.len() == 0 {
            0
        } else {
            self.table@[0]@.len() as int
        }
    }

    /// The table has, for each of the six faces, one row for each tile and in
    /// it one flag for each tile.
    pub closed spec fn wf(&self) -> bool {
        &&& self.table@.len() == FACE_COUNT
        &&& forall|f: int|
            0 <= f < FACE_COUNT ==> (#[trigger] self.table@[f])@.len() == self.spec_tile_count()
        &&& forall|f: int, t: int|
            0 <= f < FACE_COUNT && 0 <= t < self.spec_tile_count() ==> (
            #[trigger] self.table@[f]@[t])@.len() == self.spec_tile_count()
    }

    /// Whether tile `other` may be placed on the `face` side of tile `tile`.
    pub closed spec fn spec_allows(&self, face: Face, tile: int, other: int) -> bool {
        &&& 0 <= tile < self.spec_tile_count()
        &&& 0 <= other < self.spec_tile_count()
        &&& self.table@[face.spec_index()]@[tile]@[other]
    }

    /// The flags of the tiles that may be placed on the `face` side of `tile`.
    pub closed spec fn spec_row(&self, face: Face, tile: int) -> Seq<bool> {
        self.table@[face.spec_index()]@[tile]@
    }

    /// `other` may stand on one side of `tile` exactly when `tile` may stand
    /// on the opposite side of `other`: on its right if `other` stands on the
    /// left, behind it if `other` stands in front, above it if `other` stands
    /// below.
    pub open spec fn symmetric(&self) -> bool {
        &&& forall|tile: int, other: int|
            #![trigger self.spec_allows(Face::Left, tile, other)]
            #![trigger self.spec_allows(Face::Right, other, tile)]
            self.spec_allows(Face::Left, tile, other) == self.spec_allows(Face::Right, other, tile)
        &&& forall|tile: int, other: int|
            #![trigger self.spec_allows(Face::Front, tile, other)]
            #![trigger self.spec_allows(Face::Back, other, tile)]
            self.spec_allows(Face::Front, tile, other) == self.spec_allows(Face::Back, other, tile)
        &&& forall|tile: int, other: int|
            #![trigger self.spec_allows(Face::Down, tile, other)]
            #![trigger self.spec_allows(Face::Up, other, tile)]
            self.spec_allows(Face::Down, tile, other) == self.spec_allows(Face::Up, other, tile)
    }

    /// In a symmetric table `other` may stand on the `face` side of `tile`
    /// exactly when `tile` may stand on the opposite side of `other`.
    pub proof fn lemma_symmetric(&self, face: Face, tile: int, other: int)
        requires
            self.symmetric(),
        ensures
            self.spec_allows(face, tile, other) == self.spec_allows(
                face.spec_opposite(),
                other,
                tile,
            ),
    {
    }

    /// A table cannot allow a tile that it does not speak of.
    pub proof fn lemma_allows_in_range(&self, face: Face, tile: int, other: int)
        requires
            self.spec_allows(face, tile, other),
        ensures
            0 <= tile < self.spec_tile_count(),
            0 <= other < self.spec_tile_count(),
    {
    }

    /// A row holds the flags that `spec_allows` gives.
    pub proof fn lemma_row(&self, face: Face, tile: int)
        requires
            self.wf(),
            0 <= tile < self.spec_tile_count(),
        ensures
            self.spec_row(face, tile).len() == self.spec_tile_count(),
            forall|other: int|
                0 <= other < self.spec_tile_count() ==> #[trigger] self.spec_row(face, tile)[other]
                    == self.spec_allows(face, tile, other),
    {
        face.lemma_index_round_trip();
    }

    /// Makes a table for `tile_count` tiles that allows nothing.
    pub fn new(tile_count: usize) -> (r: Self)
        ensures
            r.wf(),
            r.spec_tile_count() == tile_count,
            forall|face: Face, tile: int, other: int| !r.spec_allows(face, tile, other),
    {
        let mut table: Vec<Vec<Vec<bool>>> = Vec::new();
        for f in 0..FACE_COUNT
            invariant
                table@.len() == f,
                forall|g: int| 0 <= g < f ==> (#[trigger] table@[g])@.len() == tile_count,
                forall|g: int, t: int|
                    0 <= g < f && 0 <= t < tile_count ==> (#[trigger] table@[g]@[t])@.len()
                        == tile_count,
                forall|g: int, t: int, u: int|
                    0 <= g < f && 0 <= t < tile_count && 0 <= u < tile_count ==> !(
                    #[trigger] table@[g]@[t]@[u]),
        {
            let mut rows: Vec<Vec<bool>> = Vec::new();
            for t in 0..tile_count
                invariant
                    rows@.len() == t,
                    forall|s: int| 0 <= s < t ==> (#[trigger] rows@[s])@.len() == tile_count,
                    forall|s: int, u: int|
                        0 <= s < t && 0 <= u < tile_count ==> !(#[trigger] rows@[s]@[u]),
            {
                let mut row: Vec<bool> = Vec::new();
                for u in 0..tile_count
                    invariant
                        row@.len() == u,
                        forall|v: int| 0 <= v < u ==> !(#[trigger] row@[v]),
                {
                    row.push(false);
                }
                rows.push(row);
            }
            table.push(rows);
        }
        let r = Constraints { table };
        proof {
            assert forall|face: Face, tile: int, other: int| !r.spec_allows(
                face,
                tile,
                other,
            ) by {
                face.lemma_index_round_trip();
            }
        }
        r
    }

    /// Sets whether tile `other` may be placed on the `face` side of tile
    /// `tile`, and leaves the rest of the table as it is.
    pub fn set(&mut self, face: Face, tile: usize, other: usize, allowed: bool)
        requires
            old(self).wf(),
            tile < old(self).spec_tile_count(),
            other < old(self).spec_tile_count(),
        ensures
            final(self).wf(),
            final(self).spec_tile_count() == old(self).spec_tile_count(),
            forall|f: Face, t: int, u: int|
                #[trigger] final(self).spec_allows(f, t, u) == if f == face && t == tile && u
                    == other {
                    allowed
                } else {
                    old(self).spec_allows(f, t, u)
                },
    {
        let f = face.index();
        self.table[f][tile][other] = allowed;
        proof {
            assert forall|g: Face, t: int, u: int|
                #[trigger] self.spec_allows(g, t, u) == if g == face && t == tile && u == other {
                    allowed
                } else {
                    old(self).spec_allows(g, t, u)
                } by {
                g.lemma_index_round_trip();
                face.lemma_index_round_trip();
            }
        }
    }

    /// Returns the number of tiles that the table speaks of.
    pub fn tile_count(&self) -> (r: usize)
        requires
            self.wf(),
        ensures
            r == self.spec_tile_count(),
    {
        self.table[0].len()
    }

    /// Returns whether tile `other` may be placed on the `face` side of tile
    /// `tile`.
    pub fn allows(&self, face: Face, tile: usize, other: usize) -> (r: bool)
        requires
            self.wf(),
        ensures
            r == self.spec_allows(face, tile as int, other as int),
    {
        let count = self.table[0].len();
        if tile < count && other < count {
            self.table[face.index()][tile][other]
        } else {
            false
        }
    }

    /// Returns the flags of the tiles that may be placed on the `face` side of
    /// `tile`.
    pub fn row(&self, face: Face, tile: usize) -> (r: &Vec<bool>)
        requires
            self.wf(),
            tile < self.spec_tile_count(),
        ensures
            r@ == self.spec_row(face, tile as int),
    {
        &self.table[face.index()][tile]
    }
}

} // verus!
