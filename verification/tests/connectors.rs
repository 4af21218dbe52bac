use wfc::connector::{Axis, Connector, Connectors, Rotation, Symmetry, VerticalConnector};
use wfc::face::Face;

fn horizontal(id: i64, symmetry: Symmetry) -> Connector {
    Connector { id, symmetry }
}

fn vertical(id: i64, symmetry: Symmetry, rotation: u8) -> VerticalConnector {
    VerticalConnector { id, symmetry, rotation }
}

fn sample() -> Connectors {
    Connectors {
        left: horizontal(1, Symmetry::Normal),
        right: horizontal(2, Symmetry::Inverse),
        front: horizontal(3, Symmetry::Symmetrical),
        back: horizontal(4, Symmetry::Normal),
        down: vertical(5, Symmetry::Normal, 0),
        up: vertical(6, Symmetry::Symmetrical, 3),
    }
}

#[test]
fn opposite_faces_are_fixed() {
    assert_eq!(Face::Left.opposite(), Face::Right);
    assert_eq!(Face::Right.opposite(), Face::Left);
    assert_eq!(Face::Front.opposite(), Face::Back);
    assert_eq!(Face::Back.opposite(), Face::Front);
    assert_eq!(Face::Down.opposite(), Face::Up);
    assert_eq!(Face::Up.opposite(), Face::Down);
}

#[test]
fn face_index_round_trip() {
    let faces = [Face::Left, Face::Right, Face::Front, Face::Back, Face::Down, Face::Up];
    for (i, face) in faces.iter().enumerate() {
        assert_eq!(face.index(), i);
        assert_eq!(Face::from_index(i), Some(*face));
    }
    assert_eq!(Face::from_index(6), None);
    assert!(Face::Up.is_vertical());
    assert!(Face::Down.is_vertical());
    assert!(!Face::Left.is_vertical());
}

#[test]
fn inverse_flips_normal_and_inverse() {
    assert_eq!(Symmetry::Normal.inverse(), Symmetry::Inverse);
    assert_eq!(Symmetry::Inverse.inverse(), Symmetry::Normal);
    assert_eq!(Symmetry::Symmetrical.inverse(), Symmetry::Symmetrical);
    let c = horizontal(7, Symmetry::Normal);
    assert_eq!(c.inverse(), horizontal(7, Symmetry::Inverse));
    assert_eq!(c.inverse().inverse(), c);
}

#[test]
fn horizontal_faces_fit_when_ids_match_and_symmetries_meet() {
    let normal = horizontal(1, Symmetry::Normal);
    let inverse = horizontal(1, Symmetry::Inverse);
    let symmetrical = horizontal(1, Symmetry::Symmetrical);
    assert!(normal.fits(&inverse));
    assert!(inverse.fits(&normal));
    assert!(symmetrical.fits(&symmetrical));
    assert!(!normal.fits(&normal));
    assert!(!inverse.fits(&inverse));
    assert!(!normal.fits(&symmetrical));
    assert!(!symmetrical.fits(&inverse));
    assert!(!normal.fits(&horizontal(2, Symmetry::Inverse)));
}

#[test]
fn vertical_faces_need_equal_rotation_indices() {
    let below = vertical(1, Symmetry::Symmetrical, 2);
    assert!(below.fits(&vertical(1, Symmetry::Symmetrical, 2)));
    assert!(!below.fits(&vertical(1, Symmetry::Symmetrical, 3)));
    assert!(!below.fits(&vertical(2, Symmetry::Symmetrical, 2)));
    assert!(vertical(1, Symmetry::Normal, 0).fits(&vertical(1, Symmetry::Inverse, 0)));
    assert!(!vertical(1, Symmetry::Normal, 0).fits(&vertical(1, Symmetry::Normal, 0)));
}

#[test]
fn quarter_turn_moves_back_to_left() {
    let c = sample();
    let turned = c.rotated(&Rotation::R90);
    assert_eq!(turned.left, c.back);
    assert_eq!(turned.right, c.front);
    assert_eq!(turned.front, c.left);
    assert_eq!(turned.back, c.right);
    assert_eq!(turned.down, vertical(5, Symmetry::Normal, 1));
    assert_eq!(turned.up, vertical(6, Symmetry::Symmetrical, 0));
}

#[test]
fn half_turn_and_three_quarter_turn() {
    let c = sample();
    let half = c.rotated(&Rotation::R180);
    assert_eq!(half.left, c.right);
    assert_eq!(half.right, c.left);
    assert_eq!(half.front, c.back);
    assert_eq!(half.back, c.front);
    assert_eq!(half.down.rotation, 2);
    assert_eq!(half.up.rotation, 1);
    let three = c.rotated(&Rotation::R270);
    assert_eq!(three.left, c.front);
    assert_eq!(three.right, c.back);
    assert_eq!(three.front, c.right);
    assert_eq!(three.back, c.left);
    assert_eq!(three.down.rotation, 3);
    assert_eq!(three.up.rotation, 2);
    assert_eq!(half, c.rotated(&Rotation::R90).rotated(&Rotation::R90));
    assert_eq!(three, half.rotated(&Rotation::R90));
}

#[test]
fn four_quarter_turns_are_the_identity() {
    let c = sample();
    let mut turned = c;
    for _ in 0..4 {
        turned = turned.rotated(&Rotation::R90);
    }
    assert_eq!(turned, c);
    assert_eq!(c.rotated(&Rotation::R0), c);
}

#[test]
fn quarter_turn_never_fixes_connectors() {
    let s = horizontal(1, Symmetry::Symmetrical);
    let column = Connectors {
        left: s,
        right: s,
        front: s,
        back: s,
        down: vertical(2, Symmetry::Symmetrical, 0),
        up: vertical(2, Symmetry::Symmetrical, 0),
    };
    assert_ne!(column.rotated(&Rotation::R90), column);
}

#[test]
fn reflection_across_x_swaps_front_and_back() {
    let c = sample();
    let mirrored = c.reflected(&Axis::X);
    assert_eq!(mirrored.left, horizontal(1, Symmetry::Inverse));
    assert_eq!(mirrored.right, horizontal(2, Symmetry::Normal));
    assert_eq!(mirrored.front, c.back);
    assert_eq!(mirrored.back, c.front);
    assert_eq!(mirrored.down, c.down);
    assert_eq!(mirrored.up, c.up);
}

#[test]
fn reflection_across_y_swaps_left_and_right() {
    let c = sample();
    let mirrored = c.reflected(&Axis::Y);
    assert_eq!(mirrored.left, c.right);
    assert_eq!(mirrored.right, c.left);
    assert_eq!(mirrored.front, horizontal(3, Symmetry::Symmetrical));
    assert_eq!(mirrored.back, horizontal(4, Symmetry::Inverse));
    assert_eq!(mirrored.down, c.down);
    assert_eq!(mirrored.up, c.up);
}

#[test]
fn reflecting_twice_is_the_identity() {
    let c = sample();
    assert_eq!(c.reflected(&Axis::X).reflected(&Axis::X), c);
    assert_eq!(c.reflected(&Axis::Y).reflected(&Axis::Y), c);
}

#[test]
fn get_returns_label_of_each_face() {
    let c = sample();
    assert_eq!(c.get(&Face::Left), c.left);
    assert_eq!(c.get(&Face::Right), c.right);
    assert_eq!(c.get(&Face::Front), c.front);
    assert_eq!(c.get(&Face::Back), c.back);
    assert_eq!(c.get(&Face::Down), horizontal(5, Symmetry::Normal));
    assert_eq!(c.get(&Face::Up), horizontal(6, Symmetry::Symmetrical));
    assert_eq!(c.rotation(&Face::Left), None);
    assert_eq!(c.rotation(&Face::Down), Some(0));
    assert_eq!(c.rotation(&Face::Up), Some(3));
}

#[test]
fn accepts_is_symmetric_across_opposite_faces() {
    let a = sample();
    let b = a.rotated(&Rotation::R90);
    let c = a.reflected(&Axis::X);
    let all = [a, b, c];
    let faces = [Face::Left, Face::Right, Face::Front, Face::Back, Face::Down, Face::Up];
    for x in all.iter() {
        for y in all.iter() {
            for face in faces.iter() {
                assert_eq!(x.accepts(face, y), y.accepts(&face.opposite(), x));
            }
        }
    }
}

#[test]
fn rotation_index_out_of_range_is_invalid() {
    let mut c = sample();
    assert!(c.is_valid());
    c.up.rotation = 4;
    assert!(!c.is_valid());
    c.up.rotation = 3;
    c.down.rotation = 200;
    assert!(!c.is_valid());
    assert!(c.rotated(&Rotation::R90).is_valid());
    assert_eq!(c.rotated(&Rotation::R90).down.rotation, 1);
}
