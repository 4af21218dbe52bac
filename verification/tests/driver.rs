use wfc::connector::{Connector, Connectors, Symmetry, VerticalConnector};
use wfc::coordinate::Coordinates;
use wfc::face::Face;
use wfc::model::{Model, WfcError};
use wfc::tile::{Config, TileConfig, Tiles};
use wfc::vox::{Rgba, Vox};

fn blank() -> Vox {
    Vox::new(1, 1, 1, vec![], [Rgba { r: 0, g: 0, b: 0, a: 0 }; 256]).unwrap()
}

fn side(id: i64, symmetry: Symmetry) -> Connector {
    Connector { id, symmetry }
}

fn level(id: i64) -> VerticalConnector {
    VerticalConnector { id, symmetry: Symmetry::Symmetrical, rotation: 0 }
}

fn uniform(id: i64) -> Connectors {
    let s = side(id, Symmetry::Symmetrical);
    Connectors { left: s, right: s, front: s, back: s, down: level(id), up: level(id) }
}

fn tiles_of(list: Vec<Connectors>) -> Tiles {
    let mut tile_configs = Vec::new();
    let mut voxes = Vec::new();
    for (i, connectors) in list.into_iter().enumerate() {
        tile_configs.push(TileConfig { name: format!("config-{}-tile", i), connectors });
        voxes.push(blank());
    }
    Tiles::from("dir", Config { tile_size: 8, tile_configs }, voxes).unwrap()
}

fn members(row: &Vec<bool>) -> Vec<usize> {
    (0..row.len()).filter(|t| row[*t]).collect()
}

fn check_solution(model: &Model, tiles: &Tiles, rows: &Vec<Vec<bool>>) {
    let coordinates = Coordinates::new(model.width(), model.depth(), model.height());
    let connectors = tiles.connectors();
    assert_eq!(rows.len(), coordinates.len());
    for (c, list) in coordinates.graph().iter().enumerate() {
        assert_eq!(rows[c].len(), tiles.len());
        let here = members(&rows[c]);
        assert_eq!(here.len(), 1);
        for (n, face) in list.iter() {
            let there = members(&rows[*n]);
            assert_eq!(there.len(), 1);
            assert!(connectors[here[0]].accepts(face, &connectors[there[0]]));
        }
    }
}

#[test]
fn model_keeps_what_it_was_given() {
    let model = Model::new("samples/concrete", 16, 8, 5, "output/concrete.txt");
    assert_eq!(model.sample_dir(), "samples/concrete");
    assert_eq!(model.output_file(), "output/concrete.txt");
    assert_eq!((model.width(), model.depth(), model.height()), (16, 8, 5));
    assert_eq!(model.edge_wave(3, 2, 1), 3 + 2 * 16 + 16 * 8);
    assert_eq!(
        model.wave_edges(0, 7, 4),
        vec![(1 + 7 * 16 + 4 * 128, Face::Right), (6 * 16 + 4 * 128, Face::Front), (7 * 16 + 3 * 128, Face::Down)]
    );
}

#[test]
fn trivial() {
    let model = Model::new("dir", 1, 1, 1, "out.txt");
    let tiles = tiles_of(vec![uniform(1)]);
    let rows = model.wfc(&tiles).unwrap();
    assert_eq!(rows, vec![vec![true]]);
    let coordinates = Coordinates::new(1, 1, 1);
    let paths = vec!["/abs/dir/config-0-tile.vox".to_string()];
    let text = model.render(tiles.size(), &paths, coordinates.xyzs(), &rows);
    assert_eq!(text, "// Generated wfc output\nmv_import 8\n0 0 0 /abs/dir/config-0-tile.vox\n");
    assert_eq!(text.lines().filter(|line| line.ends_with(".vox")).count(), 1);
}

#[test]
fn single_cell_succeeds_iff_a_tile_exists() {
    let model = Model::new("dir", 1, 1, 1, "out.txt");
    let none = tiles_of(vec![]);
    assert!(matches!(model.wfc(&none), Err(WfcError::NoTiles)));
    let two = tiles_of(vec![uniform(1), uniform(2)]);
    for _ in 0..20 {
        let rows = model.wfc(&two).unwrap();
        assert_eq!(members(&rows[0]).len(), 1);
    }
}

#[test]
fn empty_grid_succeeds_without_tiles() {
    let model = Model::new("dir", 0, 3, 3, "out.txt");
    let rows = model.wfc(&tiles_of(vec![])).unwrap();
    assert!(rows.is_empty());
    let text = model.render(8, &vec![], &vec![], &rows);
    assert_eq!(text, "// Generated wfc output\nmv_import 24\n");
}

#[test]
fn single_compatible_tile_fills_every_cell() {
    let model = Model::new("dir", 3, 2, 2, "out.txt");
    let tiles = tiles_of(vec![uniform(1)]);
    for _ in 0..10 {
        let rows = model.wfc(&tiles).unwrap();
        assert_eq!(rows, vec![vec![true]; 12]);
        check_solution(&model, &tiles, &rows);
    }
}

#[test]
fn no_legal_adjacency_is_a_contradiction() {
    let model = Model::new("dir", 2, 2, 1, "out.txt");
    let normal = side(1, Symmetry::Normal);
    let lonely = Connectors {
        left: normal,
        right: normal,
        front: normal,
        back: normal,
        down: VerticalConnector { id: 1, symmetry: Symmetry::Normal, rotation: 0 },
        up: VerticalConnector { id: 1, symmetry: Symmetry::Normal, rotation: 0 },
    };
    let tiles = tiles_of(vec![lonely, lonely]);
    for _ in 0..20 {
        match model.wfc(&tiles) {
            Err(WfcError::Contradiction(contradiction)) => {
                assert!(contradiction.wave < 4);
                assert_eq!(members(&contradiction.tiles).len(), 1);
            },
            other => panic!("{:?}", other),
        }
    }
    assert!(matches!(model.wfc_with_restarts(&tiles, 5), Err(WfcError::Contradiction(_))));
}

#[test]
fn strip() {
    let s = side(9, Symmetry::Symmetrical);
    let a = Connectors {
        left: side(2, Symmetry::Normal),
        right: side(1, Symmetry::Normal),
        front: s,
        back: s,
        down: level(9),
        up: level(9),
    };
    let b = Connectors {
        left: side(1, Symmetry::Inverse),
        right: side(2, Symmetry::Inverse),
        front: s,
        back: s,
        down: level(9),
        up: level(9),
    };
    let tiles = tiles_of(vec![a, b]);
    let model = Model::new("dir", 3, 1, 1, "out.txt");
    let mut starts = [false, false];
    for _ in 0..100 {
        let rows = model.wfc(&tiles).unwrap();
        check_solution(&model, &tiles, &rows);
        let line: Vec<usize> = rows.iter().map(|row| members(row)[0]).collect();
        assert!(line == vec![0, 1, 0] || line == vec![1, 0, 1]);
        starts[line[0]] = true;
    }
    assert!(starts[0] && starts[1]);
}

#[test]
fn retry() {
    let s = side(9, Symmetry::Symmetrical);
    let x = Connectors {
        left: side(1, Symmetry::Inverse),
        right: side(1, Symmetry::Normal),
        front: s,
        back: s,
        down: level(9),
        up: level(9),
    };
    let y = Connectors {
        left: side(1, Symmetry::Inverse),
        right: side(2, Symmetry::Normal),
        front: s,
        back: s,
        down: level(9),
        up: level(9),
    };
    let tiles = tiles_of(vec![x, y]);
    let model = Model::new("dir", 2, 1, 1, "out.txt");
    let mut failures = 0;
    for _ in 0..400 {
        match model.wfc(&tiles) {
            Ok(rows) => check_solution(&model, &tiles, &rows),
            Err(WfcError::Contradiction(contradiction)) => {
                failures += 1;
                assert_eq!(contradiction.wave, 0);
                assert_eq!(contradiction.face, Face::Right);
                assert_eq!(contradiction.tiles, vec![false, true]);
            },
            Err(WfcError::NoTiles) => panic!("tiles exist"),
        }
    }
    assert!(failures > 0 && failures < 400);
    for _ in 0..20 {
        let rows = model.wfc_with_restarts(&tiles, 200).unwrap();
        check_solution(&model, &tiles, &rows);
    }
}

#[test]
fn generated_tile_set_fills_a_grid() {
    let s = side(9, Symmetry::Symmetrical);
    let a = Connectors {
        left: side(1, Symmetry::Symmetrical),
        right: side(2, Symmetry::Symmetrical),
        front: s,
        back: s,
        down: level(9),
        up: level(9),
    };
    let mut tiles = tiles_of(vec![uniform(9), a]);
    tiles.generate_transformed_tiles();
    let model = Model::new("dir", 3, 3, 2, "out.txt");
    let rows = model.wfc_with_restarts(&tiles, 10000).unwrap();
    check_solution(&model, &tiles, &rows);
}

#[test]
fn render_lists_every_surviving_tile() {
    let model = Model::new("dir", 2, 1, 3, "out.txt");
    let coordinates = Coordinates::new(2, 1, 3);
    let paths = vec!["/a.vox".to_string(), "/b.vox".to_string()];
    let rows = vec![
        vec![true, false],
        vec![false, true],
        vec![true, true],
        vec![false, false],
        vec![false, true],
        vec![true, false],
    ];
    let text = model.render(16, &paths, coordinates.xyzs(), &rows);
    assert_eq!(
        text,
        "// Generated wfc output\nmv_import 48\n0 0 0 /a.vox\n16 0 0 /b.vox\n0 0 16 /a.vox\n0 0 16 /b.vox\n0 0 32 /b.vox\n16 0 32 /a.vox\n"
    );
}
