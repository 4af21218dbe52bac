use wfc::graphics::{connector_map, insert, insert_connections, reflect_x, reflect_y, rotate90, ConnectorMap};
use wfc::tiles::{is_valid, Config, Direction, Graphic, Tiles, Transformation};

fn empty_map() -> ConnectorMap {
    ConnectorMap { left: vec![], right: vec![], up: vec![], down: vec![] }
}

#[test]
fn test_new() {
    let sample_dir = "src/unit_tests";
    let config = Config {
        size: 10,
        extension: "png".to_string(),
        graphics: vec![
            Graphic { name: "corner".to_string(), rotation_count: 3, left: 0, right: 1, up: 1, down: 0 },
            Graphic { name: "empty".to_string(), rotation_count: 0, left: 0, right: 0, up: 0, down: 0 },
        ],
    };
    assert!(is_valid(&config));
    let tiles = Tiles::new(sample_dir, config);
    assert_eq!(tiles.len, 5);
    assert_eq!(tiles.path, sample_dir.to_string());
    assert_eq!(tiles.size, 10);
    assert_eq!(tiles.extension, "png".to_string());
    assert_eq!(tiles.connectors.get(Direction::Left), &vec![0, 0, 1, 1, 0]);
    assert_eq!(tiles.connectors.get(Direction::Right), &vec![1, 1, 0, 0, 0]);
    assert_eq!(tiles.connectors.get(Direction::Up), &vec![1, 0, 0, 1, 0]);
    assert_eq!(tiles.connectors.get(Direction::Down), &vec![0, 1, 1, 0, 0]);
    assert_eq!(Direction::Left.reverse(), Direction::Right);
    assert_eq!(Direction::Right.reverse(), Direction::Left);
    assert_eq!(Direction::Up.reverse(), Direction::Down);
    assert_eq!(Direction::Down.reverse(), Direction::Up);
    assert_eq!(
        tiles.graphics(),
        &vec![
            "corner".to_string(),
            "corner".to_string(),
            "corner".to_string(),
            "corner".to_string(),
            "empty".to_string(),
        ]
    );
    assert_eq!(
        tiles.transformations(),
        &vec![
            Transformation::Identity,
            Transformation::Rotate90,
            Transformation::Rotate180,
            Transformation::Rotate270,
            Transformation::Identity,
        ]
    );
}

#[test]
fn graphic_quarter_turn_counts_down() {
    let mut graphic =
        Graphic { name: "g".to_string(), rotation_count: 2, left: 1, right: 2, up: 3, down: 4 };
    graphic.rotate90();
    assert_eq!((graphic.left, graphic.right, graphic.up, graphic.down), (4, 3, 1, 2));
    assert_eq!(graphic.rotation_count, 1);
    assert_eq!(graphic.name, "g");
}

#[test]
fn manifest_with_too_many_quarter_turns_is_invalid() {
    let config = Config {
        size: 1,
        extension: "png".to_string(),
        graphics: vec![Graphic { name: "g".to_string(), rotation_count: 4, left: 0, right: 0, up: 0, down: 0 }],
    };
    assert!(!is_valid(&config));
    assert_eq!(Transformation::of_turns(0), Transformation::Identity);
    assert_eq!(Transformation::of_turns(3), Transformation::Rotate270);
}

#[test]
fn direction_from_usize_follows_the_fixed_order() {
    let all = [
        wfc::graphics::Direction::Left,
        wfc::graphics::Direction::Right,
        wfc::graphics::Direction::Up,
        wfc::graphics::Direction::Down,
    ];
    for (i, direction) in all.iter().enumerate() {
        assert_eq!(wfc::graphics::Direction::from_usize(i), *direction);
        assert_eq!(direction.index(), i);
    }
}

#[test]
fn rotate90_moves_and_turns_connectors() {
    let spec = [(1, 0), (2, 3), (3, -1), (4, 2)];
    assert_eq!(rotate90(spec), [(4, 3), (3, -1), (1, 1), (2, 0)]);
    let mut turned = spec;
    for _ in 0..4 {
        turned = rotate90(turned);
    }
    assert_eq!(turned, spec);
}

#[test]
fn rotate90_keeps_the_sign_of_odd_rotations() {
    assert_eq!(rotate90([(0, -2), (0, -6), (0, 126), (0, 127)]), [(0, 0), (0, 3), (0, -1), (0, -1)]);
}

#[test]
fn reflections_swap_and_turn_by_two() {
    let spec = [(1, 0), (2, 3), (3, -1), (4, 2)];
    assert_eq!(reflect_x(spec), [(1, 2), (2, 1), (4, 2), (3, -1)]);
    assert_eq!(reflect_y(spec), [(2, 3), (1, 0), (3, 1), (4, 0)]);
}

#[test]
fn insert_appends_one_connector_to_each_side() {
    let mut map = empty_map();
    insert(&mut map, [(1, 0), (2, 1), (3, 2), (4, 3)]);
    insert(&mut map, [(5, 0), (6, 1), (7, 2), (8, 3)]);
    assert_eq!(map.left, vec![(1, 0), (5, 0)]);
    assert_eq!(map.right, vec![(2, 1), (6, 1)]);
    assert_eq!(map.up, vec![(3, 2), (7, 2)]);
    assert_eq!(map.down, vec![(4, 3), (8, 3)]);
}

#[test]
fn insert_connections_lists_the_quarter_turns() {
    let spec = [(1, 0), (2, 0), (3, 0), (4, 0)];
    let mut map = empty_map();
    insert_connections(&mut map, spec, 2);
    assert_eq!(map.left, vec![(1, 0), (4, 1), (2, 2)]);
    assert_eq!(map.right, vec![(2, 0), (3, 1), (1, 2)]);
    assert_eq!(map.up, vec![(3, 0), (1, 1), (4, 2)]);
    assert_eq!(map.down, vec![(4, 0), (2, 1), (3, 2)]);
    assert_eq!(map.get(wfc::graphics::Direction::Up), &vec![(3, 0), (1, 1), (4, 2)]);
}

#[test]
fn connector_map_lists_reflections_after_the_graphic() {
    let spec = [(1, 0), (2, 0), (3, 0), (4, 0)];
    let config = wfc::graphics::Config {
        size: 4,
        extension: "png".to_string(),
        graphics: vec![
            wfc::graphics::Graphic {
                name: "a".to_string(),
                rotation_count: 1,
                reflect_x: true,
                reflect_y: true,
                connector_spec: spec,
            },
            wfc::graphics::Graphic {
                name: "b".to_string(),
                rotation_count: 0,
                reflect_x: false,
                reflect_y: false,
                connector_spec: [(9, -1); 4],
            },
        ],
    };
    let map = connector_map(&config);
    let expected = vec![
        spec,
        rotate90(spec),
        reflect_x(spec),
        rotate90(reflect_x(spec)),
        reflect_y(spec),
        rotate90(reflect_y(spec)),
        [(9, -1); 4],
    ];
    assert_eq!(map.left, expected.iter().map(|s| s[0]).collect::<Vec<_>>());
    assert_eq!(map.right, expected.iter().map(|s| s[1]).collect::<Vec<_>>());
    assert_eq!(map.up, expected.iter().map(|s| s[2]).collect::<Vec<_>>());
    assert_eq!(map.down, expected.iter().map(|s| s[3]).collect::<Vec<_>>());
    assert_eq!(map.left.len(), 7);
}
