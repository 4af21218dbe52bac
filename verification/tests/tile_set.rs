use wfc::connector::{Axis, Connector, Connectors, Rotation, Symmetry, VerticalConnector};
use wfc::face::Face;
use wfc::text::{decimal, third_segment};
use wfc::tile::{generated_name, transforms, vox_path, Config, TileConfig, Tiles, TilesError, Transform};
use wfc::vox::{Rgba, Vox, Voxel};

fn blank_palette() -> [Rgba; 256] {
    [Rgba { r: 0, g: 0, b: 0, a: 0 }; 256]
}

fn small_vox() -> Vox {
    let voxels = vec![Voxel { x: 0, y: 1, z: 0, i: 7 }, Voxel { x: 1, y: 1, z: 1, i: 9 }];
    Vox::new(2, 2, 2, voxels, blank_palette()).unwrap()
}

fn label(id: i64, symmetry: Symmetry) -> Connector {
    Connector { id, symmetry }
}

fn flat(id: i64, rotation: u8) -> VerticalConnector {
    VerticalConnector { id, symmetry: Symmetry::Symmetrical, rotation }
}

fn asymmetric() -> Connectors {
    Connectors {
        left: label(1, Symmetry::Normal),
        right: label(2, Symmetry::Normal),
        front: label(3, Symmetry::Normal),
        back: label(4, Symmetry::Normal),
        down: flat(9, 0),
        up: flat(9, 0),
    }
}

fn column() -> Connectors {
    let side = label(5, Symmetry::Symmetrical);
    Connectors { left: side, right: side, front: side, back: side, down: flat(9, 0), up: flat(9, 0) }
}

fn tiles_of(list: Vec<(&str, Connectors)>) -> Tiles {
    let mut tile_configs = Vec::new();
    let mut voxes = Vec::new();
    for (name, connectors) in list {
        tile_configs.push(TileConfig { name: name.to_string(), connectors });
        voxes.push(small_vox());
    }
    Tiles::from("samples/demo", Config { tile_size: 2, tile_configs }, voxes).unwrap()
}

#[test]
fn decimal_writes_numbers_without_leading_zeros() {
    assert_eq!(decimal(0), "0");
    assert_eq!(decimal(7), "7");
    assert_eq!(decimal(10), "10");
    assert_eq!(decimal(405), "405");
    assert_eq!(decimal(1234567890), "1234567890");
    assert_eq!(decimal(usize::MAX), usize::MAX.to_string());
}

#[test]
fn third_segment_of_a_name() {
    assert_eq!(third_segment("config-1-road_turn_low"), "road_turn_low");
    assert_eq!(third_segment("a-b-c-d"), "c");
    assert_eq!(third_segment("a-b-"), "");
    assert_eq!(third_segment("a--c"), "c");
    assert_eq!(third_segment("plain"), "plain");
    assert_eq!(third_segment("two-parts"), "two-parts");
    assert_eq!(third_segment(""), "");
}

#[test]
fn vox_path_joins_directory_and_name() {
    assert_eq!(vox_path("samples/demo", "config-1-road"), "samples/demo/config-1-road.vox");
    assert_eq!(vox_path("", "a"), "/a.vox");
}

#[test]
fn generated_name_holds_count_segment_and_tag() {
    let quarter = Transform::Rotate(Rotation::R90);
    assert_eq!(generated_name(0, "config-1-road_turn_low", &quarter), "generated-0-road_turn_low_R90");
    assert_eq!(
        generated_name(12, "config-1-wall", &Transform::Rotate(Rotation::R180)),
        "generated-12-wall_R180"
    );
    assert_eq!(
        generated_name(3, "config-1-wall", &Transform::Rotate(Rotation::R270)),
        "generated-3-wall_R270"
    );
    assert_eq!(generated_name(4, "config-1-wall", &Transform::Reflect(Axis::X)), "generated-4-wall_fX");
    assert_eq!(generated_name(5, "wall", &Transform::Reflect(Axis::Y)), "generated-5-wall_fY");
}

#[test]
fn transforms_come_in_a_fixed_order() {
    assert_eq!(
        transforms(true),
        vec![
            Transform::Rotate(Rotation::R90),
            Transform::Rotate(Rotation::R180),
            Transform::Rotate(Rotation::R270),
            Transform::Reflect(Axis::X),
            Transform::Reflect(Axis::Y),
        ]
    );
    assert_eq!(
        transforms(false),
        vec![
            Transform::Rotate(Rotation::R90),
            Transform::Rotate(Rotation::R180),
            Transform::Rotate(Rotation::R270),
        ]
    );
}

#[test]
fn from_keeps_manifest_order() {
    let tiles = tiles_of(vec![("config-1-a", asymmetric()), ("config-2-b", column())]);
    assert_eq!(tiles.len(), 2);
    assert_eq!(tiles.size(), 2);
    assert_eq!(
        tiles.vox_paths(),
        &vec!["samples/demo/config-1-a.vox".to_string(), "samples/demo/config-2-b.vox".to_string()]
    );
    assert_eq!(tiles.connectors(), &vec![asymmetric(), column()]);
    assert_eq!(tiles.rotation(0), Rotation::R0);
    assert!(!tiles.is_generated(0));
    assert!(!tiles.is_generated(1));
    assert_eq!(tiles.voxes().len(), 2);
}

#[test]
fn from_rejects_wrong_asset_count() {
    let config = Config {
        tile_size: 2,
        tile_configs: vec![TileConfig { name: "a".to_string(), connectors: column() }],
    };
    let r = Tiles::from("dir", config, vec![]);
    assert!(matches!(r, Err(TilesError::AssetCount)));
}

#[test]
fn from_rejects_rotation_index_out_of_range() {
    let mut connectors = column();
    connectors.up.rotation = 4;
    let config = Config {
        tile_size: 2,
        tile_configs: vec![TileConfig { name: "a".to_string(), connectors }],
    };
    let r = Tiles::from("dir", config, vec![small_vox()]);
    assert!(matches!(r, Err(TilesError::RotationIndex)));
}

#[test]
fn symmetric_orbit() {
    let mut tiles = tiles_of(vec![("config-1-asym", asymmetric())]);
    tiles.set_reflections(false);
    tiles.generate_transformed_tiles();
    assert_eq!(tiles.len(), 4);
    assert_eq!(tiles.rotation(0), Rotation::R0);
    assert_eq!(tiles.rotation(1), Rotation::R90);
    assert_eq!(tiles.rotation(2), Rotation::R180);
    assert_eq!(tiles.rotation(3), Rotation::R270);
    assert!(!tiles.is_generated(0));
    assert!(tiles.is_generated(1) && tiles.is_generated(2) && tiles.is_generated(3));
}

#[test]
fn column_gets_its_rotations_but_no_reflections() {
    let mut tiles = tiles_of(vec![("config-1-column", column())]);
    tiles.generate_transformed_tiles();
    assert_eq!(tiles.len(), 4);
    let connectors = tiles.connectors();
    assert_eq!(connectors[1], column().rotated(&Rotation::R90));
    assert_eq!(connectors[1].up.rotation, 1);
    assert_eq!(connectors[2].up.rotation, 2);
    assert_eq!(connectors[3].up.rotation, 3);
}

#[test]
fn asymmetric_tile_with_reflections_has_six_variants() {
    let mut tiles = tiles_of(vec![("config-1-asym", asymmetric())]);
    tiles.generate_transformed_tiles();
    assert_eq!(tiles.len(), 6);
    let connectors = tiles.connectors();
    assert_eq!(connectors[0], asymmetric());
    assert_eq!(connectors[1], asymmetric().rotated(&Rotation::R90));
    assert_eq!(connectors[2], asymmetric().rotated(&Rotation::R180));
    assert_eq!(connectors[3], asymmetric().rotated(&Rotation::R270));
    assert_eq!(connectors[4], asymmetric().reflected(&Axis::X));
    assert_eq!(connectors[5], asymmetric().reflected(&Axis::Y));
    assert_eq!(tiles.rotation(4), Rotation::R0);
    assert_eq!(tiles.rotation(5), Rotation::R0);
    assert_eq!(
        tiles.vox_paths(),
        &vec![
            "samples/demo/config-1-asym.vox".to_string(),
            "samples/demo/generated-0-asym_R90.vox".to_string(),
            "samples/demo/generated-1-asym_R180.vox".to_string(),
            "samples/demo/generated-2-asym_R270.vox".to_string(),
            "samples/demo/generated-3-asym_fX.vox".to_string(),
            "samples/demo/generated-4-asym_fY.vox".to_string(),
        ]
    );
}

#[test]
fn variants_follow_their_base_tile_at_once() {
    let mut tiles = tiles_of(vec![("config-1-asym", asymmetric()), ("config-2-column", column())]);
    tiles.set_reflections(false);
    tiles.generate_transformed_tiles();
    assert_eq!(tiles.len(), 8);
    let generated: Vec<bool> = (0..8).map(|i| tiles.is_generated(i)).collect();
    assert_eq!(generated, vec![false, true, true, true, false, true, true, true]);
    assert_eq!(tiles.connectors()[4], column());
    assert_eq!(tiles.vox_paths()[4], "samples/demo/config-2-column.vox");
    assert_eq!(tiles.vox_paths()[5], "samples/demo/generated-3-column_R90.vox");
    assert_eq!(tiles.vox_paths()[7], "samples/demo/generated-5-column_R270.vox");
}

#[test]
fn generated_assets_are_transformed_grids() {
    let mut tiles = tiles_of(vec![("config-1-asym", asymmetric())]);
    tiles.generate_transformed_tiles();
    let voxes = tiles.voxes();
    let base = small_vox();
    assert_eq!(voxes[0].voxels(), base.voxels());
    assert_eq!(voxes[1].voxels(), base.rotated(&Rotation::R90).voxels());
    assert_eq!(voxes[2].voxels(), base.rotated(&Rotation::R180).voxels());
    assert_eq!(voxes[3].voxels(), base.rotated(&Rotation::R270).voxels());
    assert_eq!(voxes[4].voxels(), base.reflected(&Axis::X).voxels());
    assert_eq!(voxes[5].voxels(), base.reflected(&Axis::Y).voxels());
    assert_ne!(voxes[1].voxels(), base.voxels());
}

#[test]
fn mirror_symmetric_tile_gets_no_reflection_variant() {
    let side = label(1, Symmetry::Symmetrical);
    let other = label(2, Symmetry::Symmetrical);
    let connectors =
        Connectors { left: side, right: side, front: other, back: other, down: flat(9, 0), up: flat(9, 1) };
    let mut tiles = tiles_of(vec![("config-1-m", connectors)]);
    tiles.generate_transformed_tiles();
    assert_eq!(tiles.len(), 4);
}

#[test]
fn constraints_follow_the_connectors() {
    let mut tiles = tiles_of(vec![("config-1-asym", asymmetric()), ("config-2-column", column())]);
    tiles.generate_transformed_tiles();
    let constraints = tiles.constraints();
    let connectors = tiles.connectors();
    assert_eq!(constraints.tile_count(), tiles.len());
    let faces = [Face::Left, Face::Right, Face::Front, Face::Back, Face::Down, Face::Up];
    for face in faces.iter() {
        for t in 0..tiles.len() {
            for u in 0..tiles.len() {
                assert_eq!(constraints.allows(*face, t, u), connectors[t].accepts(face, &connectors[u]));
            }
        }
    }
}

#[test]
fn compatibility_symmetry() {
    let mut tiles = tiles_of(vec![("config-1-asym", asymmetric()), ("config-2-column", column())]);
    tiles.generate_transformed_tiles();
    let constraints = tiles.constraints();
    let faces = [Face::Left, Face::Right, Face::Front, Face::Back, Face::Down, Face::Up];
    let mut allowed = 0;
    for face in faces.iter() {
        for t in 0..tiles.len() {
            for u in 0..tiles.len() {
                assert_eq!(constraints.allows(*face, t, u), constraints.allows(face.opposite(), u, t));
                if constraints.allows(*face, t, u) {
                    allowed += 1;
                }
            }
        }
    }
    assert!(allowed > 0);
}

#[test]
fn constraint_construction_is_pure() {
    let mut tiles = tiles_of(vec![("config-1-asym", asymmetric()), ("config-2-column", column())]);
    tiles.generate_transformed_tiles();
    let first = tiles.constraints();
    let second = tiles.constraints();
    let faces = [Face::Left, Face::Right, Face::Front, Face::Back, Face::Down, Face::Up];
    for face in faces.iter() {
        for t in 0..tiles.len() {
            assert_eq!(first.row(*face, t), second.row(*face, t));
        }
    }
}

#[test]
fn vertical_rotation_lock() {
    let side = label(1, Symmetry::Symmetrical);
    let a = Connectors { left: side, right: side, front: side, back: side, down: flat(9, 0), up: flat(9, 0) };
    let b = Connectors { left: side, right: side, front: side, back: side, down: flat(9, 1), up: flat(9, 1) };
    let mut tiles = tiles_of(vec![("config-1-a", a), ("config-2-b", b)]);
    tiles.set_reflections(false);
    tiles.generate_transformed_tiles();
    assert_eq!(tiles.len(), 8);
    let constraints = tiles.constraints();
    let above: Vec<usize> = (4..8).filter(|u| constraints.allows(Face::Up, 0, *u)).collect();
    assert_eq!(above, vec![7]);
    assert_eq!(tiles.rotation(7), Rotation::R270);
    assert!(constraints.allows(Face::Down, 7, 0));
}
