use wfc::constraints::Constraints;
use wfc::coordinate::Coordinates;
use wfc::face::Face;
use wfc::wave::Waves;

const ONE: u128 = 4294967296;

const FACES: [Face; 6] = [Face::Left, Face::Right, Face::Front, Face::Back, Face::Down, Face::Up];

fn table(tile_count: usize, allowed: &[(Face, usize, usize)]) -> Constraints {
    let mut constraints = Constraints::new(tile_count);
    for (face, tile, other) in allowed.iter() {
        constraints.set(*face, *tile, *other, true);
        constraints.set(face.opposite(), *other, *tile, true);
    }
    constraints
}

fn everything(tile_count: usize) -> Constraints {
    let mut constraints = Constraints::new(tile_count);
    for face in FACES.iter() {
        for t in 0..tile_count {
            for u in 0..tile_count {
                constraints.set(*face, t, u, true);
            }
        }
    }
    constraints
}

fn members(row: &Vec<bool>) -> Vec<usize> {
    (0..row.len()).filter(|t| row[*t]).collect()
}

#[test]
fn new_table_allows_nothing() {
    let constraints = Constraints::new(3);
    assert_eq!(constraints.tile_count(), 3);
    for face in FACES.iter() {
        for t in 0..3 {
            assert_eq!(constraints.row(*face, t), &vec![false, false, false]);
            for u in 0..4 {
                assert!(!constraints.allows(*face, t, u));
            }
        }
    }
}

#[test]
fn set_changes_one_entry() {
    let mut constraints = Constraints::new(2);
    constraints.set(Face::Up, 1, 0, true);
    for face in FACES.iter() {
        for t in 0..2 {
            for u in 0..2 {
                assert_eq!(constraints.allows(*face, t, u), *face == Face::Up && t == 1 && u == 0);
            }
        }
    }
    constraints.set(Face::Up, 1, 0, false);
    assert!(!constraints.allows(Face::Up, 1, 0));
}

#[test]
fn new_waves_allow_every_tile() {
    let coordinates = Coordinates::new(2, 2, 1);
    let constraints = everything(3);
    let waves = Waves::new(coordinates.graph(), &constraints);
    assert!(!waves.are_collapsed());
    assert_eq!(waves.collapsed_count(), 0);
    assert_eq!(waves.tiles(), &vec![vec![true, true, true]; 4]);
    for c in 0..4 {
        assert!(waves.entropy(c) >= 3 * ONE);
        assert!(waves.entropy(c) < 4 * ONE);
        assert_eq!(waves.candidates(c), vec![0, 1, 2]);
    }
}

#[test]
fn min_entropy_wave_is_the_smallest_positive() {
    let coordinates = Coordinates::new(3, 1, 1);
    let constraints = everything(2);
    let mut waves = Waves::new(coordinates.graph(), &constraints);
    let first = waves.min_entropy_wave();
    for c in 0..3 {
        assert!(waves.entropy(first) <= waves.entropy(c));
        if c < first {
            assert!(waves.entropy(first) < waves.entropy(c));
        }
    }
    waves.observe_tile(first, 0);
    let second = waves.min_entropy_wave();
    assert_ne!(second, first);
    assert!(waves.entropy(second) > 0);
    for c in 0..3 {
        if c != first {
            assert!(waves.entropy(second) <= waves.entropy(c));
        }
    }
}

#[test]
fn min_entropy_wave_of_collapsed_waves_is_zero() {
    let coordinates = Coordinates::new(2, 1, 1);
    let constraints = everything(1);
    let mut waves = Waves::new(coordinates.graph(), &constraints);
    waves.observe_tile(1, 0);
    assert_eq!(waves.min_entropy_wave(), 0);
    waves.observe_tile(0, 0);
    assert!(waves.are_collapsed());
    assert_eq!(waves.min_entropy_wave(), 0);
}

#[test]
fn observe_tile_collapses_the_cell() {
    let coordinates = Coordinates::new(2, 1, 1);
    let constraints = everything(3);
    let mut waves = Waves::new(coordinates.graph(), &constraints);
    let other = waves.entropy(0);
    waves.observe_tile(1, 2);
    assert_eq!(waves.tiles()[1], vec![false, false, true]);
    assert_eq!(waves.tiles()[0], vec![true, true, true]);
    assert_eq!(waves.entropy(1), 0);
    assert_eq!(waves.entropy(0), other);
    assert_eq!(waves.collapsed_count(), 1);
    assert!(!waves.are_collapsed());
}

#[test]
fn observe_picks_one_of_the_candidates() {
    let coordinates = Coordinates::new(1, 1, 1);
    let constraints = everything(5);
    let mut seen = vec![false; 5];
    for _ in 0..200 {
        let mut waves = Waves::new(coordinates.graph(), &constraints);
        let tile = waves.observe(0);
        assert!(tile < 5);
        assert_eq!(members(&waves.tiles()[0]), vec![tile]);
        assert_eq!(waves.entropy(0), 0);
        assert!(waves.are_collapsed());
        seen[tile] = true;
    }
    assert!(seen.iter().filter(|s| **s).count() >= 2);
}

#[test]
fn propagate_removes_what_the_observed_tile_rules_out() {
    let coordinates = Coordinates::new(3, 1, 1);
    let constraints = table(3, &[(Face::Right, 0, 1), (Face::Right, 1, 2), (Face::Right, 2, 0)]);
    let mut waves = Waves::new(coordinates.graph(), &constraints);
    let before: Vec<u128> = (0..3).map(|c| waves.entropy(c)).collect();
    waves.observe_tile(0, 0);
    assert!(waves.propogate(0).is_ok());
    assert_eq!(waves.tiles(), &vec![vec![true, false, false], vec![false, true, false], vec![false, false, true]]);
    assert_eq!(waves.entropy(0), 0);
    assert_eq!(waves.entropy(1), before[1] - 2 * ONE);
    assert_eq!(waves.entropy(2), before[2] - 2 * ONE);
    assert_eq!(waves.collapsed_count(), 1);
    assert!(!waves.are_collapsed());
}

#[test]
fn propagate_stops_at_unchanged_cells() {
    let coordinates = Coordinates::new(3, 1, 1);
    let constraints = table(
        2,
        &[(Face::Right, 0, 0), (Face::Right, 0, 1), (Face::Right, 1, 0), (Face::Right, 1, 1)],
    );
    let mut waves = Waves::new(coordinates.graph(), &constraints);
    let before: Vec<u128> = (0..3).map(|c| waves.entropy(c)).collect();
    waves.observe_tile(1, 0);
    assert!(waves.propogate(1).is_ok());
    assert_eq!(waves.tiles(), &vec![vec![true, true], vec![true, false], vec![true, true]]);
    assert_eq!(waves.entropy(0), before[0]);
    assert_eq!(waves.entropy(2), before[2]);
}

#[test]
fn propagate_on_single_cell_is_a_no_op() {
    let coordinates = Coordinates::new(1, 1, 1);
    let constraints = Constraints::new(2);
    let mut waves = Waves::new(coordinates.graph(), &constraints);
    waves.observe_tile(0, 1);
    assert!(waves.propogate(0).is_ok());
    assert_eq!(waves.tiles(), &vec![vec![false, true]]);
    assert!(waves.are_collapsed());
}

#[test]
fn forced_contradiction() {
    let coordinates = Coordinates::new(2, 1, 1);
    let constraints = Constraints::new(2);
    let mut waves = Waves::new(coordinates.graph(), &constraints);
    waves.observe(1);
    let observed = waves.tiles()[1].clone();
    let contradiction = waves.propogate(1).unwrap_err();
    assert_eq!(contradiction.wave, 1);
    assert_eq!(contradiction.face, Face::Left);
    assert_eq!(contradiction.tiles, observed);
    assert_eq!(members(&contradiction.tiles).len(), 1);
    assert_eq!(waves.tiles()[0], vec![false, false]);
}

#[test]
fn contradiction_names_the_supporter_further_down_the_strip() {
    let coordinates = Coordinates::new(3, 1, 1);
    let constraints = table(3, &[(Face::Right, 0, 1), (Face::Right, 0, 2)]);
    let mut waves = Waves::new(coordinates.graph(), &constraints);
    waves.observe_tile(0, 0);
    let contradiction = waves.propogate(0).unwrap_err();
    assert_eq!(contradiction.wave, 1);
    assert_eq!(contradiction.face, Face::Right);
    assert_eq!(contradiction.tiles, vec![false, true, true]);
}

#[test]
fn entropy_never_increases() {
    let coordinates = Coordinates::new(3, 3, 2);
    let constraints = table(
        3,
        &[
            (Face::Right, 0, 1),
            (Face::Right, 1, 2),
            (Face::Right, 2, 0),
            (Face::Right, 0, 0),
            (Face::Back, 0, 0),
            (Face::Back, 1, 1),
            (Face::Back, 2, 2),
            (Face::Back, 0, 1),
            (Face::Up, 0, 0),
            (Face::Up, 1, 1),
            (Face::Up, 2, 2),
            (Face::Up, 1, 0),
        ],
    );
    for _ in 0..20 {
        let mut waves = Waves::new(coordinates.graph(), &constraints);
        let mut last: Vec<u128> = (0..18).map(|c| waves.entropy(c)).collect();
        while !waves.are_collapsed() {
            let wave = waves.min_entropy_wave();
            waves.observe(wave);
            let now: Vec<u128> = (0..18).map(|c| waves.entropy(c)).collect();
            for c in 0..18 {
                assert!(now[c] <= last[c]);
            }
            last = now;
            let result = waves.propogate(wave);
            let now: Vec<u128> = (0..18).map(|c| waves.entropy(c)).collect();
            for c in 0..18 {
                assert!(now[c] <= last[c]);
            }
            last = now;
            if result.is_err() {
                break;
            }
        }
    }
}

#[test]
fn success_is_arc_consistent_and_all_collapsed() {
    let coordinates = Coordinates::new(4, 3, 2);
    let graph = coordinates.graph();
    let constraints = table(
        2,
        &[
            (Face::Right, 0, 1),
            (Face::Right, 1, 0),
            (Face::Right, 0, 0),
            (Face::Back, 0, 0),
            (Face::Back, 1, 1),
            (Face::Back, 0, 1),
            (Face::Up, 0, 0),
            (Face::Up, 1, 1),
            (Face::Up, 0, 1),
            (Face::Up, 1, 0),
        ],
    );
    let mut successes = 0;
    for _ in 0..50 {
        let mut waves = Waves::new(graph, &constraints);
        let mut failed = false;
        while !waves.are_collapsed() {
            let wave = waves.min_entropy_wave();
            waves.observe(wave);
            if waves.propogate(wave).is_err() {
                failed = true;
                break;
            }
        }
        if failed {
            continue;
        }
        successes += 1;
        assert_eq!(waves.collapsed_count(), 24);
        let tiles = waves.tiles();
        for c in 0..24 {
            assert_eq!(members(&tiles[c]).len(), 1);
            assert_eq!(waves.entropy(c), 0);
            for (n, face) in graph[c].iter() {
                for t in members(&tiles[c]) {
                    assert!(members(&tiles[*n]).iter().any(|u| constraints.allows(*face, t, *u)));
                }
            }
        }
        let rows = waves.into_tiles();
        assert_eq!(rows.len(), 24);
    }
    assert!(successes > 0);
}
