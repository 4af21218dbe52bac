//! The tile set: the tiles of a manifest, the variants that rotations and
//! reflections make of them, and the adjacency table of their faces.

use vstd::prelude::*;
use vstd::string::*;
use crate::connector::{Axis, Connectors, Rotation};
use crate::constraints::Constraints;
use crate::face::Face;
use crate::text::{decimal, spec_decimal, spec_third_segment, third_segment};
use crate::vox::{Vox, VoxModel};

verus! {

/// One tile of a manifest: the name of its voxel asset and its connectors.
pub struct TileConfig {
    pub name: String,
    pub connectors: Connectors,
}

/// A manifest: the edge length of a tile in voxels, and the tiles.
pub struct Config {
    pub tile_size: usize,
    pub tile_configs: Vec<TileConfig>,
}

/// Why a manifest and its voxel assets do not make a tile set.
#[derive(Debug, PartialEq, Eq, Clone, Copy, Structural)]
pub enum TilesError {
    /// There is not one voxel asset for each tile of the manifest.
    AssetCount,
    /// A rotation index of some tile is not below 4.
    RotationIndex,
}

/// A transformation that makes a variant of a tile.
#[derive(Debug, PartialEq, Eq, Clone, Copy, Structural)]
pub enum Transform {
    Rotate(Rotation),
    Reflect(Axis),
}

impl Transform {
    /// The connectors of the transformed tile.
    pub open spec fn spec_connectors(self, connectors: Connectors) -> Connectors {
        match self {
            Transform::Rotate(rotation) => connectors.spec_rotated(rotation),
            Transform::Reflect(axis) => connectors.spec_reflected(axis),
        }
    }

    /// The voxel grid of the transformed tile.
    pub open spec fn spec_vox(self, vox: VoxModel) -> VoxModel {
        match self {
            Transform::Rotate(rotation) => vox.spec_rotated(rotation),
            Transform::Reflect(axis) => vox.spec_reflected(axis),
        }
    }

    /// The rotation tag of the transformed tile: the rotation itself, and no
    /// rotation for a reflection.
    pub open spec fn spec_rotation(self) -> Rotation {
        match self {
            Transform::Rotate(rotation) => rotation,
            Transform::Reflect(_) => Rotation::R0,
        }
    }

    /// The end of the name of the transformed tile.
    pub open spec fn spec_tag(self) -> Seq<char> {
        match self {
            Transform::Rotate(Rotation::R0) => "R0"@,
            Transform::Rotate(Rotation::R90) => "R90"@,
            Transform::Rotate(Rotation::R180) => "R180"@,
            Transform::Rotate(Rotation::R270) => "R270"@,
            Transform::Reflect(Axis::X) => "fX"@,
            Transform::Reflect(Axis::Y) => "fY"@,
        }
    }

    /// Returns the connectors of the transformed tile.
    pub fn connectors(&self, connectors: &Connectors) -> (r: Connectors)
        ensures
            r == self.spec_connectors(*connectors),
            connectors.wf() ==> r.wf(),
    {
        match self {
            Transform::Rotate(rotation) => connectors.rotated(rotation),
            Transform::Reflect(axis) => connectors.reflected(axis),
        }
    }

    /// Returns the voxel grid of the transformed tile.
    pub fn vox(&self, vox: &Vox) -> (r: Vox)
        ensures
            r@ == self.spec_vox(vox@),
            r.wf(),
    {
        match self {
            Transform::Rotate(rotation) => vox.rotated(rotation),
            Transform::Reflect(axis) => vox.reflected(axis),
        }
    }

    /// Returns the rotation tag of the transformed tile.
    pub fn rotation(&self) -> (r: Rotation)
        ensures
            r == self.spec_rotation(),
    {
        match self {
            Transform::Rotate(rotation) => *rotation,
            Transform::Reflect(_) => Rotation::R0,
        }
    }

    /// Returns the end of the name of the transformed tile.
    pub fn tag(&self) -> (r: &'static str)
        ensures
            r@ == self.spec_tag(),
    {
        match self {
            Transform::Rotate(Rotation::R0) => "R0",
            Transform::Rotate(Rotation::R90) => "R90",
            Transform::Rotate(Rotation::R180) => "R180",
            Transform::Rotate(Rotation::R270) => "R270",
            Transform::Reflect(Axis::X) => "fX",
            Transform::Reflect(Axis::Y) => "fY",
        }
    }
}

/// The transformations that are tried on every tile, in this order: the three
/// rotations and, where reflections are wanted, the two reflections.
pub open spec fn spec_transforms(reflections: bool) -> Seq<Transform> {
    if reflections {
        seq![
            Transform::Rotate(Rotation::R90),
            Transform::Rotate(Rotation::R180),
            Transform::Rotate(Rotation::R270),
            Transform::Reflect(Axis::X),
            Transform::Reflect(Axis::Y),
        ]
    } else {
        seq![
            Transform::Rotate(Rotation::R90),
            Transform::Rotate(Rotation::R180),
            Transform::Rotate(Rotation::R270),
        ]
    }
}

/// Whether the `k`-th of `transforms` makes connectors of `connectors` that
/// were not seen before: they differ from `connectors` and from what every
/// earlier transformation makes.
pub open spec fn spec_fresh(connectors: Connectors, transforms: Seq<Transform>, k: int) -> bool {
    &&& transforms[k].spec_connectors(connectors) != connectors
    &&& forall|j: int|
        0 <= j < k ==> (#[trigger] transforms[j]).spec_connectors(connectors)
            != transforms[k].spec_connectors(connectors)
}

/// The path of the voxel asset `name` below `dir`.
pub open spec fn spec_vox_path(dir: Seq<char>, name: Seq<char>) -> Seq<char> {
    dir + "/"@ + name + ".vox"@
}

/// The name of the `count`-th generated tile, made of the tile named `base`
/// by `transform`.
pub open spec fn spec_generated_name(count: nat, base: Seq<char>, transform: Transform) -> Seq<
    char,
> {
    "generated-"@ + spec_decimal(count) + "-"@ + spec_third_segment(base) + "_"@
        + transform.spec_tag()
}

/// What one tile of a tile set is.
pub struct TileModel {
    /// Name of the voxel asset.
    pub name: Seq<char>,
    /// The rotation that made the tile of its base tile.
    pub rotation: Rotation,
    pub connectors: Connectors,
    /// The voxel asset.
    pub vox: VoxModel,
    /// Whether the tile was made of another by a transformation.
    pub generated: bool,
}

impl TileModel {
    /// Rotation indices and voxel grid are valid.
    pub open spec fn wf(self) -> bool {
        self.connectors.wf() && self.vox.wf()
    }

    /// The variant that `transform` makes of the tile as the `count`-th
    /// generated tile.
    pub open spec fn spec_variant(self, transform: Transform, count: nat) -> TileModel {
        TileModel {
            name: spec_generated_name(count, self.name, transform),
            rotation: transform.spec_rotation(),
            connectors: transform.spec_connectors(self.connectors),
            vox: transform.spec_vox(self.vox),
            generated: true,
        }
    }

    /// The variants that the first `k` of `transforms` make of the tile, in
    /// order, when `count` tiles were generated before: one for each
    /// transformation that makes connectors not seen before.
    pub open spec fn spec_variants(self, transforms: Seq<Transform>, k: int, count: nat) -> Seq<
        TileModel,
    >
        decreases k,
    {
        if k <= 0 {
            Seq::empty()
        } else {
            let earlier = self.spec_variants(transforms, k - 1, count);
            if spec_fresh(self.connectors, transforms, k - 1) {
                earlier.push(self.spec_variant(transforms[k - 1], count + earlier.len()))
            } else {
                earlier
            }
        }
    }
}

/// The first `n` of `tiles`, each followed at once by its variants.
pub open spec fn spec_expanded(tiles: Seq<TileModel>, transforms: Seq<Transform>, n: int) -> Seq<
    TileModel,
>
    decreases n,
{
    if n <= 0 {
        Seq::empty()
    } else {
        let earlier = spec_expanded(tiles, transforms, n - 1);
        let count = (earlier.len() - (n - 1)) as nat;
        earlier.push(tiles[n - 1]) + tiles[n - 1].spec_variants(
            transforms,
            transforms.len() as int,
            count,
        )
    }
}

/// What a tile set is.
pub struct TilesModel {
    /// Edge length of a tile in voxels.
    pub size: int,
    /// Directory of the voxel assets.
    pub dir: Seq<char>,
    /// Whether reflections make variants too.
    pub reflections: bool,
    pub tiles: Seq<TileModel>,
}

impl TilesModel {
    /// Every tile is valid.
    pub open spec fn wf(self) -> bool {
        forall|i: int| 0 <= i < self.tiles.len() ==> (#[trigger] self.tiles[i]).wf()
    }

    /// The tile set with every tile followed by its variants.
    pub open spec fn spec_expanded(self) -> TilesModel {
        TilesModel {
            size: self.size,
            dir: self.dir,
            reflections: self.reflections,
            tiles: spec_expanded(
                self.tiles,
                spec_transforms(self.reflections),
                self.tiles.len() as int,
            ),
        }
    }

    /// The connectors of the tiles.
    pub open spec fn spec_connectors(self) -> Seq<Connectors> {
        self.tiles.map_values(|tile: TileModel| tile.connectors)
    }
}

/// Variants of a valid tile are valid, and there are at most as many as
/// transformations.
pub proof fn lemma_variants(tile: TileModel, transforms: Seq<Transform>, k: int, count: nat)
    requires
        tile.wf(),
        0 <= k <= transforms.len(),
    ensures
        tile.spec_variants(transforms, k, count).len() <= k,
        forall|j: int|
            0 <= j < tile.spec_variants(transforms, k, count).len() ==> (
            #[trigger] tile.spec_variants(transforms, k, count)[j]).wf(),
    decreases k,
{
    if k > 0 {
        lemma_variants(tile, transforms, k - 1, count);
        let transform = transforms[k - 1];
        match transform {
            Transform::Rotate(rotation) => {
                tile.vox.lemma_transformed_wf(rotation, Axis::X);
                crate::connector::lemma_turned(
                    tile.connectors.down,
                    rotation.spec_quarter_turns(),
                    0,
                );
                crate::connector::lemma_turned(tile.connectors.up, rotation.spec_quarter_turns(), 0);
            },
            Transform::Reflect(axis) => {
                tile.vox.lemma_transformed_wf(Rotation::R0, axis);
            },
        }
    }
}

/// Expanding valid tiles gives valid tiles: at least as many as before, and
/// at most that many more for each transformation.
pub proof fn lemma_expanded(tiles: Seq<TileModel>, transforms: Seq<Transform>, n: int)
    requires
        0 <= n <= tiles.len(),
        forall|i: int| 0 <= i < tiles.len() ==> (#[trigger] tiles[i]).wf(),
    ensures
        n <= spec_expanded(tiles, transforms, n).len() <= n * (transforms.len() + 1),
        forall|j: int|
            0 <= j < spec_expanded(tiles, transforms, n).len() ==> (#[trigger] spec_expanded(
                tiles,
                transforms,
                n,
            )[j]).wf(),
    decreases n,
{
    if n > 0 {
        lemma_expanded(tiles, transforms, n - 1);
        let earlier = spec_expanded(tiles, transforms, n - 1);
        let count = (earlier.len() - (n - 1)) as nat;
        lemma_variants(tiles[n - 1], transforms, transforms.len() as int, count);
        assert((n - 1) * (transforms.len() + 1) + 1 + transforms.len() == n * (transforms.len()
            + 1)) by (nonlinear_arith);
    }
}

/// Every tile has the variant that the quarter turn makes: it is the first
/// of its variants.
pub proof fn lemma_quarter_turn_variant(tile: TileModel, reflections: bool, count: nat)
    ensures
        spec_fresh(tile.connectors, spec_transforms(reflections), 0),
        tile.spec_variants(spec_transforms(reflections), 1, count) == seq![
            tile.spec_variant(Transform::Rotate(Rotation::R90), count),
        ],
{
    crate::connector::lemma_quarter_turn_moves(tile.connectors);
    reveal_with_fuel(TileModel::spec_variants, 2);
    assert(spec_transforms(reflections)[0] == Transform::Rotate(Rotation::R90));
    assert(tile.spec_variants(spec_transforms(reflections), 1, count) =~= seq![
        tile.spec_variant(Transform::Rotate(Rotation::R90), count),
    ]);
}

/// A container for the tiles of a sample directory.
pub struct Tiles {
    size: usize,
    sample_dir: String,
    reflections: bool,
    names: Vec<String>,
    vox_paths: Vec<String>,
    rotations: Vec<Rotation>,
    connectors: Vec<Connectors>,
    voxes: Vec<Vox>,
    generated: Vec<bool>,
}

impl View for Tiles {
    type V = TilesModel;

    closed spec fn view(&self) -> TilesModel {
        TilesModel {
            size: self.size as int,
            dir: self.sample_dir@,
            reflections: self.reflections,
            tiles: Seq::new(
                self.names@.len(),
                |i: int|
                    TileModel {
                        name: self.names@[i]@,
                        rotation: self.rotations@[i],
                        connectors: self.connectors@[i],
                        vox: self.voxes@[i]@,
                        generated: self.generated@[i],
                    },
            ),
        }
    }
}

/// Returns the path of the voxel asset `name` below `dir`.
pub fn vox_path(dir: &str, name: &str) -> (r: String)
    ensures
        r@ == spec_vox_path(dir@, name@),
{
    let mut path = String::from_str(dir);
    path.append("/");
    path.append(name);
    path.append(".vox");
    path
}

/// Returns the name of the `count`-th generated tile, made of the tile named
/// `base` by `transform`.
pub fn generated_name(count: usize, base: &str, transform: &Transform) -> (r: String)
    ensures
        r@ == spec_generated_name(count as nat, base@, *transform),
{
    let mut name = String::from_str("generated-");
    let number = decimal(count);
    name.append(number.as_str());
    name.append("-");
    let segment = third_segment(base);
    name.append(segment.as_str());
    name.append("_");
    name.append(transform.tag());
    name
}

/// Returns the transformations that are tried on every tile.
pub fn transforms(reflections: bool) -> (r: Vec<Transform>)
    ensures
        r@ == spec_transforms(reflections),
{
    let mut list: Vec<Transform> = Vec::new();
    list.push(Transform::Rotate(Rotation::R90));
    list.push(Transform::Rotate(Rotation::R180));
    list.push(Transform::Rotate(Rotation::R270));
    if reflections {
        list.push(Transform::Reflect(Axis::X));
        list.push(Transform::Reflect(Axis::Y));
    }
    assert(list@ =~= spec_transforms(reflections));
    list
}

/// Returns whether `connectors` is one of `seen`.
fn seen_before(seen: &Vec<Connectors>, connectors: &Connectors) -> (r: bool)
    ensures
        r == seen@.contains(*connectors),
{
    for i in 0..seen.len()
        invariant
            forall|j: int| 0 <= j < i ==> seen@[j] != *connectors,
    {
        if seen[i] == *connectors {
            return true;
        }
    }
    false
}

impl Tiles {
    /// The parallel lists have one entry for each tile, and the paths are
    /// those of the names.
    closed spec fn inv(&self) -> bool {
        &&& self.vox_paths@.len() == self.names@.len()
        &&& self.rotations@.len() == self.names@.len()
        &&& self.connectors@.len() == self.names@.len()
        &&& self.voxes@.len() == self.names@.len()
        &&& self.generated@.len() == self.names@.len()
        &&& forall|i: int|
            0 <= i < self.names@.len() ==> (#[trigger] self.vox_paths@[i])@ == spec_vox_path(
                self.sample_dir@,
                self.names@[i]@,
            )
    }

    /// The tile set is consistent and every tile of it is valid.
    pub closed spec fn wf(&self) -> bool {
        self.inv() && self@.wf()
    }

    /// The connectors of the tiles, as the tile set holds them.
    pub closed spec fn spec_connectors(&self) -> Seq<Connectors> {
        self.connectors@
    }

    /// The voxel assets of the tiles, as the tile set holds them.
    pub closed spec fn spec_voxes(&self) -> Seq<Vox> {
        self.voxes@
    }

    /// The paths of the voxel assets, as the tile set holds them.
    pub closed spec fn spec_vox_paths(&self) -> Seq<String> {
        self.vox_paths@
    }

    /// What the lists that the tile set holds say of its tiles.
    pub proof fn lemma_lists(&self)
        requires
            self.wf(),
        ensures
            self@.wf(),
            self.spec_connectors() == self@.spec_connectors(),
            self.spec_voxes().len() == self@.tiles.len(),
            self.spec_vox_paths().len() == self@.tiles.len(),
            forall|i: int|
                0 <= i < self@.tiles.len() ==> (#[trigger] self.spec_voxes()[i])@
                    == self@.tiles[i].vox,
            forall|i: int|
                0 <= i < self@.tiles.len() ==> (#[trigger] self.spec_vox_paths()[i])@
                    == spec_vox_path(self@.dir, self@.tiles[i].name),
    {
        assert(self.connectors@ =~= self@.spec_connectors());
    }

    /// Returns a tile set without tiles.
    fn empty(size: usize, sample_dir: String, reflections: bool) -> (r: Self)
        ensures
            r.inv(),
            r@ == (TilesModel {
                size: size as int,
                dir: sample_dir@,
                reflections,
                tiles: Seq::empty(),
            }),
    {
        let r = Tiles {
            size,
            sample_dir,
            reflections,
            names: Vec::new(),
            vox_paths: Vec::new(),
            rotations: Vec::new(),
            connectors: Vec::new(),
            voxes: Vec::new(),
            generated: Vec::new(),
        };
        assert(r@.tiles =~= Seq::empty());
        r
    }

    /// Appends a tile.
    fn push(
        &mut self,
        name: String,
        rotation: Rotation,
        connectors: Connectors,
        vox: Vox,
        generated: bool,
    )
        requires
            old(self).inv(),
        ensures
            final(self).inv(),
            final(self)@ == (TilesModel {
                size: old(self)@.size,
                dir: old(self)@.dir,
                reflections: old(self)@.reflections,
                tiles: old(self)@.tiles.push(
                    TileModel { name: name@, rotation, connectors, vox: vox@, generated },
                ),
            }),
    {
        let path = vox_path(self.sample_dir.as_str(), name.as_str());
        self.names.push(name);
        self.vox_paths.push(path);
        self.rotations.push(rotation);
        self.connectors.push(connectors);
        self.voxes.push(vox);
        self.generated.push(generated);
        assert(self@.tiles =~= old(self)@.tiles.push(
            TileModel { name: name@, rotation, connectors, vox: vox@, generated },
        ));
    }

    /// Returns a new `Tiles` of the tiles of `config`, whose voxel assets are
    /// `voxes` in the same order and lie in `sample_dir`. Reflections are
    /// switched on.
    pub fn from(sample_dir: &str, config: Config, voxes: Vec<Vox>) -> (r: Result<Self, TilesError>)
        ensures
            r matches Ok(tiles) ==> {
                &&& tiles.wf()
                &&& tiles@.size == config.tile_size
                &&& tiles@.dir == sample_dir@
                &&& tiles@.reflections
                &&& tiles@.tiles.len() == config.tile_configs@.len()
                &&& forall|i: int|
                    0 <= i < config.tile_configs@.len() ==> #[trigger] tiles@.tiles[i] == (
                    TileModel {
                        name: config.tile_configs@[i].name@,
                        rotation: Rotation::R0,
                        connectors: config.tile_configs@[i].connectors,
                        vox: voxes@[i]@,
                        generated: false,
                    })
            },
            r matches Err(e) ==> spec_from_error(config, voxes@) == Some(e),
            r is Ok ==> spec_from_error(config, voxes@) is None,
    {
        let count = config.tile_configs.len();
        if voxes.len() != count {
            return Err(TilesError::AssetCount);
        }
        for i in 0..count
            invariant
                count == config.tile_configs@.len(),
                count == voxes@.len(),
                forall|j: int| 0 <= j < i ==> (#[trigger] config.tile_configs@[j]).connectors.wf(),
        {
            if !config.tile_configs[i].connectors.is_valid() {
                assert(!config.tile_configs@[i as int].connectors.wf());
                return Err(TilesError::RotationIndex);
            }
        }
        for i in 0..count
            invariant
                count == voxes@.len(),
                count == config.tile_configs@.len(),
                forall|j: int|
                    0 <= j < count ==> (#[trigger] config.tile_configs@[j]).connectors.wf(),
                forall|j: int| 0 <= j < i ==> (#[trigger] voxes@[j]).wf(),
        {
            let vox = &voxes[i];
            proof {
                use_type_invariant(vox);
            }
        }
        let mut names: Vec<String> = Vec::new();
        let mut vox_paths: Vec<String> = Vec::new();
        let mut rotations: Vec<Rotation> = Vec::new();
        let mut connectors: Vec<Connectors> = Vec::new();
        let mut generated: Vec<bool> = Vec::new();
        for i in 0..count
            invariant
                count == config.tile_configs@.len(),
                names@.len() == i,
                vox_paths@.len() == i,
                rotations@.len() == i,
                connectors@.len() == i,
                generated@.len() == i,
                forall|j: int|
                    0 <= j < i ==> (#[trigger] names@[j])@ == config.tile_configs@[j].name@,
                forall|j: int|
                    0 <= j < i ==> (#[trigger] vox_paths@[j])@ == spec_vox_path(
                        sample_dir@,
                        config.tile_configs@[j].name@,
                    ),
                forall|j: int| 0 <= j < i ==> #[trigger] rotations@[j] == Rotation::R0,
                forall|j: int|
                    0 <= j < i ==> #[trigger] connectors@[j] == config.tile_configs@[j].connectors,
                forall|j: int| 0 <= j < i ==> !(#[trigger] generated@[j]),
        {
            let tile = &config.tile_configs[i];
            names.push(tile.name.clone());
            vox_paths.push(vox_path(sample_dir, tile.name.as_str()));
            rotations.push(Rotation::R0);
            connectors.push(tile.connectors);
            generated.push(false);
        }
        let tiles = Tiles {
            size: config.tile_size,
            sample_dir: String::from_str(sample_dir),
            reflections: true,
            names,
            vox_paths,
            rotations,
            connectors,
            voxes,
            generated,
        };
        Ok(tiles)
    }

    /// Switches the variants that reflections make on or off.
    pub fn set_reflections(&mut self, reflections: bool)
        requires
            old(self).wf(),
        ensures
            final(self).wf(),
            final(self)@ == (TilesModel {
                size: old(self)@.size,
                dir: old(self)@.dir,
                reflections,
                tiles: old(self)@.tiles,
            }),
    {
        self.reflections = reflections;
        assert(self@.tiles =~= old(self)@.tiles);
    }

    /// Generates transformed tiles and voxel grids for each tile: every tile
    /// is followed at once by its variants, first those that rotations make
    /// and then those that reflections make.
    pub fn generate_transformed_tiles(&mut self)
        requires
            old(self).wf(),
        ensures
            final(self).wf(),
            final(self)@ == old(self)@.spec_expanded(),
    {
        let list = transforms(self.reflections);
        let count = self.names.len();
        let mut expanded = Tiles::empty(self.size, self.sample_dir.clone(), self.reflections);
        let mut generated_count: usize = 0;
        let ghost before = self@;
        for i in 0..count
            invariant
                self.wf(),
                self@ == before,
                count == before.tiles.len(),
                list@ == spec_transforms(before.reflections),
                expanded.inv(),
                expanded@.size == before.size,
                expanded@.dir == before.dir,
                expanded@.reflections == before.reflections,
                expanded@.tiles == spec_expanded(before.tiles, list@, i as int),
                generated_count + i == expanded@.tiles.len(),
        {
            let ghost tile = before.tiles[i as int];
            let ghost base = expanded@.tiles.push(tile);
            let ghost first = generated_count as nat;
            let connectors = self.connectors[i];
            expanded.push(
                self.names[i].clone(),
                self.rotations[i],
                connectors,
                self.voxes[i].clone(),
                self.generated[i],
            );
            assert(expanded@.tiles == base);
            let mut visited: Vec<Connectors> = Vec::new();
            visited.push(connectors);
            assert(visited@[0] == connectors);
            for k in 0..list.len()
                invariant
                    self.wf(),
                    self@ == before,
                    i < count,
                    count == before.tiles.len(),
                    tile == before.tiles[i as int],
                    connectors == tile.connectors,
                    list@ == spec_transforms(before.reflections),
                    expanded.inv(),
                    expanded@.size == before.size,
                    expanded@.dir == before.dir,
                    expanded@.reflections == before.reflections,
                    expanded@.tiles == base + tile.spec_variants(list@, k as int, first),
                    generated_count == first + tile.spec_variants(list@, k as int, first).len(),
                    generated_count + i + 1 == expanded@.tiles.len(),
                    forall|c: Connectors|
                        visited@.contains(c) <==> (c == connectors || exists|j: int|
                            0 <= j < k && #[trigger] list@[j].spec_connectors(connectors) == c),
            {
                let transform = list[k];
                let generated_connectors = transform.connectors(&connectors);
                let ghost earlier = tile.spec_variants(list@, k as int, first);
                let ghost seen = visited@;
                if !seen_before(&visited, &generated_connectors) {
                    assert(spec_fresh(connectors, list@, k as int));
                    visited.push(generated_connectors);
                    let name = generated_name(generated_count, self.names[i].as_str(), &transform);
                    let generated_vox = transform.vox(&self.voxes[i]);
                    expanded.push(
                        name,
                        transform.rotation(),
                        generated_connectors,
                        generated_vox,
                        true,
                    );
                    let total = expanded.len();
                    assert(generated_count < total);
                    generated_count += 1;
                    assert(expanded@.tiles =~= base + earlier.push(
                        tile.spec_variant(transform, (first + earlier.len()) as nat),
                    ));
                } else {
                    assert(!spec_fresh(connectors, list@, k as int)) by {
                        if generated_connectors != connectors {
                            let j = choose|j: int|
                                0 <= j < k && #[trigger] list@[j].spec_connectors(connectors)
                                    == generated_connectors;
                            assert(list@[j].spec_connectors(connectors) == list@[k as int].spec_connectors(
                                connectors,
                            ));
                        }
                    }
                }
                assert forall|c: Connectors|
                    visited@.contains(c) <==> (c == connectors || exists|j: int|
                        0 <= j < k + 1 && #[trigger] list@[j].spec_connectors(connectors)
                            == c) by {
                    if visited@.contains(c) {
                        if !seen.contains(c) {
                            assert(c == generated_connectors);
                            assert(list@[k as int].spec_connectors(connectors) == c);
                        }
                    }
                    if c == generated_connectors {
                        if seen.contains(c) {
                            assert(visited@.contains(c));
                        } else {
                            assert(visited@[visited@.len() - 1] == c);
                        }
                    }
                    if seen.contains(c) {
                        let p = choose|p: int| 0 <= p < seen.len() && seen[p] == c;
                        assert(visited@[p] == c);
                    }
                }
            }
            assert(expanded@.tiles =~= spec_expanded(before.tiles, list@, i + 1));
        }
        *self = expanded;
        proof {
            lemma_expanded(before.tiles, list@, count as int);
        }
    }

    /// Returns valid tiles for each tile on each face: tile `other` may stand
    /// on the `face` side of tile `tile` exactly when the connector of `tile`
    /// on `face` fits the connector of `other` on the opposite face.
    pub fn constraints(&self) -> (r: Constraints)
        requires
            self.wf(),
        ensures
            r.wf(),
            r.symmetric(),
            spec_built_from(r, self@.spec_connectors()),
    {
        let count = self.connectors.len();
        let mut constraints = Constraints::new(count);
        let ghost connectors = self.connectors@;
        for f in 0..crate::face::FACE_COUNT
            invariant
                count == connectors.len(),
                connectors == self.connectors@,
                constraints.wf(),
                constraints.spec_tile_count() == count,
                forall|face: Face, tile: int, other: int|
                    #[trigger] constraints.spec_allows(face, tile, other) == (face.spec_index() < f
                        && 0 <= tile < count && 0 <= other < count && connectors[tile].spec_accepts(
                        face,
                        connectors[other],
                    )),
        {
            let face = Face::from_index(f).unwrap();
            for tile in 0..count
                invariant
                    f < crate::face::FACE_COUNT,
                    face == Face::spec_from_index(f as int),
                    count == connectors.len(),
                    connectors == self.connectors@,
                    constraints.wf(),
                    constraints.spec_tile_count() == count,
                    forall|g: Face, t: int, u: int|
                        #[trigger] constraints.spec_allows(g, t, u) == ((g.spec_index() < f || (g
                            == face && t < tile)) && 0 <= t < count && 0 <= u < count
                            && connectors[t].spec_accepts(g, connectors[u])),
            {
                for other in 0..count
                    invariant
                        f < crate::face::FACE_COUNT,
                        face == Face::spec_from_index(f as int),
                        tile < count,
                        count == connectors.len(),
                        connectors == self.connectors@,
                        constraints.wf(),
                        constraints.spec_tile_count() == count,
                        forall|g: Face, t: int, u: int|
                            #[trigger] constraints.spec_allows(g, t, u) == ((g.spec_index() < f || (
                            g == face && (t < tile || (t == tile && u < other)))) && 0 <= t < count
                                && 0 <= u < count && connectors[t].spec_accepts(g, connectors[u])),
                {
                    let fits = self.connectors[tile].accepts(&face, &self.connectors[other]);
                    constraints.set(face, tile, other, fits);
                    proof {
                        assert forall|g: Face, t: int, u: int|
                            #[trigger] constraints.spec_allows(g, t, u) == ((g.spec_index() < f || (
                            g == face && (t < tile || (t == tile && u < other + 1)))) && 0 <= t
                                < count && 0 <= u < count && connectors[t].spec_accepts(
                                g,
                                connectors[u],
                            )) by {
                            g.lemma_index_round_trip();
                            face.lemma_index_round_trip();
                        }
                    }
                }
            }
            proof {
                assert forall|g: Face, t: int, u: int|
                    #[trigger] constraints.spec_allows(g, t, u) == (g.spec_index() < f + 1 && 0
                        <= t < count && 0 <= u < count && connectors[t].spec_accepts(
                        g,
                        connectors[u],
                    )) by {
                    g.lemma_index_round_trip();
                    face.lemma_index_round_trip();
                }
            }
        }
        proof {
            assert(connectors =~= self@.spec_connectors());
            assert forall|face: Face, tile: int, other: int|
                #[trigger] constraints.spec_allows(face, tile, other) == (0 <= tile < count && 0
                    <= other < count && connectors[tile].spec_accepts(face, connectors[other])) by {
                face.lemma_index_round_trip();
            }
            lemma_built_symmetric(constraints, connectors);
        }
        constraints
    }

    /// Returns the edge length of a tile in voxels.
    pub fn size(&self) -> (r: usize)
        ensures
            r == self@.size,
    {
        self.size
    }

    /// Returns the number of tiles.
    pub fn len(&self) -> (r: usize)
        ensures
            r == self@.tiles.len(),
    {
        self.names.len()
    }

    /// Returns the path of the voxel asset of each tile.
    pub fn vox_paths(&self) -> (r: &Vec<String>)
        ensures
            r@ == self.spec_vox_paths(),
    {
        &self.vox_paths
    }

    /// Returns the connectors of each tile.
    pub fn connectors(&self) -> (r: &Vec<Connectors>)
        ensures
            r@ == self.spec_connectors(),
    {
        &self.connectors
    }

    /// Returns the voxel asset of each tile.
    pub fn voxes(&self) -> (r: &Vec<Vox>)
        ensures
            r@ == self.spec_voxes(),
    {
        &self.voxes
    }

    /// Returns the rotation that made the tile `tile` of its base tile.
    pub fn rotation(&self, tile: usize) -> (r: Rotation)
        requires
            self.wf(),
            tile < self@.tiles.len(),
        ensures
            r == self@.tiles[tile as int].rotation,
    {
        self.rotations[tile]
    }

    /// Returns whether the tile `tile` was made of another by a
    /// transformation.
    pub fn is_generated(&self, tile: usize) -> (r: bool)
        requires
            self.wf(),
            tile < self@.tiles.len(),
        ensures
            r == self@.tiles[tile as int].generated,
    {
        self.generated[tile]
    }
}

/// Whether the table `constraints` is the one of the tiles with the given
/// connectors: it speaks of as many tiles as there are connectors, and tile
/// `other` may stand on the `face` side of tile `tile` exactly when the
/// connectors of `tile` accept those of `other` on `face`.
pub open spec fn spec_built_from(constraints: Constraints, connectors: Seq<Connectors>) -> bool {
    &&& constraints.spec_tile_count() == connectors.len()
    &&& forall|face: Face, tile: int, other: int|
        #[trigger] constraints.spec_allows(face, tile, other) == (0 <= tile < connectors.len() && 0
            <= other < connectors.len() && connectors[tile].spec_accepts(face, connectors[other]))
}

/// The table of a tile set is symmetric: `other` may stand on the `face`
/// side of `tile` exactly when `tile` may stand on the opposite side of
/// `other`.
pub proof fn lemma_built_symmetric(constraints: Constraints, connectors: Seq<Connectors>)
    requires
        spec_built_from(constraints, connectors),
    ensures
        constraints.symmetric(),
{
    assert forall|face: Face, tile: int, other: int|
        #[trigger] constraints.spec_allows(face, tile, other) == constraints.spec_allows(
            face.spec_opposite(),
            other,
            tile,
        ) by {
        if 0 <= tile < connectors.len() && 0 <= other < connectors.len() {
            crate::connector::lemma_accepts_symmetric(connectors[tile], face, connectors[other]);
        }
    }
    assert forall|tile: int, other: int|
        constraints.spec_allows(Face::Left, tile, other) == constraints.spec_allows(
            Face::Right,
            other,
            tile,
        ) by {
        assert(Face::Left.spec_opposite() == Face::Right);
    }
    assert forall|tile: int, other: int|
        constraints.spec_allows(Face::Front, tile, other) == constraints.spec_allows(
            Face::Back,
            other,
            tile,
        ) by {
        assert(Face::Front.spec_opposite() == Face::Back);
    }
    assert forall|tile: int, other: int|
        constraints.spec_allows(Face::Down, tile, other) == constraints.spec_allows(
            Face::Up,
            other,
            tile,
        ) by {
        assert(Face::Down.spec_opposite() == Face::Up);
    }
}

/// The table of a tile set depends on nothing but the connectors of its
/// tiles: two tables of the same connectors allow the same.
pub proof fn lemma_built_unique(a: Constraints, b: Constraints, connectors: Seq<Connectors>)
    requires
        spec_built_from(a, connectors),
        spec_built_from(b, connectors),
    ensures
        a.spec_tile_count() == b.spec_tile_count(),
        forall|face: Face, tile: int, other: int|
            a.spec_allows(face, tile, other) == b.spec_allows(face, tile, other),
{
}

/// The reason for which `config` and `voxes` make no tile set, if they make
/// none: a wrong number of assets, or else a rotation index out of range.
pub open spec fn spec_from_error(config: Config, voxes: Seq<Vox>) -> Option<TilesError> {
    if voxes.len() != config.tile_configs@.len() {
        Some(TilesError::AssetCount)
    } else if exists|i: int|
        0 <= i < config.tile_configs@.len() && !(#[trigger] config.tile_configs@[i]).connectors.wf() {
        Some(TilesError::RotationIndex)
    } else {
        None
    }
}

} // verus!
