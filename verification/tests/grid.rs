use wfc::coordinate::{edge_wave, edges, Coordinates};
use wfc::face::Face;

#[test]
fn edge_wave_counts_x_first() {
    assert_eq!(edge_wave(3, 2, 0, 0, 0), 0);
    assert_eq!(edge_wave(3, 2, 2, 0, 0), 2);
    assert_eq!(edge_wave(3, 2, 0, 1, 0), 3);
    assert_eq!(edge_wave(3, 2, 1, 1, 1), 10);
    assert_eq!(edge_wave(3, 2, 2, 1, 3), 23);
}

#[test]
fn inner_cell_has_six_neighbours_in_order() {
    let list = edges(3, 3, 3, 1, 1, 1);
    assert_eq!(
        list,
        vec![
            (12, Face::Left),
            (14, Face::Right),
            (10, Face::Front),
            (16, Face::Back),
            (4, Face::Down),
            (22, Face::Up),
        ]
    );
}

#[test]
fn corner_cell_has_three_neighbours() {
    assert_eq!(edges(2, 2, 2, 0, 0, 0), vec![(1, Face::Right), (2, Face::Back), (4, Face::Up)]);
    assert_eq!(edges(2, 2, 2, 1, 1, 1), vec![(6, Face::Left), (5, Face::Front), (3, Face::Down)]);
}

#[test]
fn single_cell_has_no_neighbour() {
    assert_eq!(edges(1, 1, 1, 0, 0, 0), vec![]);
    let coordinates = Coordinates::new(1, 1, 1);
    assert_eq!(coordinates.len(), 1);
    assert_eq!(coordinates.xyzs(), &vec![(0, 0, 0)]);
    assert_eq!(coordinates.graph(), &vec![vec![]]);
}

#[test]
fn coordinates_list_cells_in_index_order() {
    let coordinates = Coordinates::new(3, 2, 2);
    assert_eq!(coordinates.len(), 12);
    let xyzs = coordinates.xyzs();
    for (i, (x, y, z)) in xyzs.iter().enumerate() {
        assert_eq!(i, x + y * 3 + z * 3 * 2);
        assert_eq!(coordinates.graph()[i], edges(3, 2, 2, *x, *y, *z));
    }
    assert_eq!(xyzs[0], (0, 0, 0));
    assert_eq!(xyzs[1], (1, 0, 0));
    assert_eq!(xyzs[3], (0, 1, 0));
    assert_eq!(xyzs[6], (0, 0, 1));
    assert_eq!(xyzs[11], (2, 1, 1));
}

#[test]
fn graph_holds_every_edge_in_both_directions() {
    let coordinates = Coordinates::new(3, 4, 2);
    let graph = coordinates.graph();
    for (c, list) in graph.iter().enumerate() {
        for (n, face) in list.iter() {
            assert_ne!(*n, c);
            assert!(*n < graph.len());
            assert!(graph[*n].contains(&(c, face.opposite())));
        }
    }
}

#[test]
fn empty_grid_has_no_cells() {
    let coordinates = Coordinates::new(0, 5, 5);
    assert_eq!(coordinates.len(), 0);
    assert!(coordinates.graph().is_empty());
    assert!(coordinates.xyzs().is_empty());
}

#[test]
fn max_dimension_size_is_the_largest() {
    assert_eq!(Coordinates::new(3, 2, 1).max_dimension_size(), 3);
    assert_eq!(Coordinates::new(1, 4, 2).max_dimension_size(), 4);
    assert_eq!(Coordinates::new(1, 2, 5).max_dimension_size(), 5);
    assert_eq!(Coordinates::new(2, 2, 2).max_dimension_size(), 2);
}
