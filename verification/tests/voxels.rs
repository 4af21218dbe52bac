use wfc::connector::{Axis, Rotation};
use wfc::vox::{Rgba, Vox, Voxel};
use wfc::vox_file::{Chunk, VoxError};

fn palette() -> [Rgba; 256] {
    let mut palette = [Rgba { r: 0, g: 0, b: 0, a: 0 }; 256];
    for i in 1..256 {
        palette[i] = Rgba { r: i as u8, g: (255 - i) as u8, b: (i * 7 % 256) as u8, a: 255 };
    }
    palette
}

fn sample() -> Vox {
    let voxels = vec![
        Voxel { x: 0, y: 0, z: 0, i: 1 },
        Voxel { x: 3, y: 0, z: 1, i: 2 },
        Voxel { x: 1, y: 2, z: 3, i: 200 },
    ];
    Vox::new(4, 4, 4, voxels, palette()).unwrap()
}

fn same(a: &Vox, b: &Vox) -> bool {
    a.x_size() == b.x_size()
        && a.y_size() == b.y_size()
        && a.z_size() == b.z_size()
        && a.voxels() == b.voxels()
        && a.palette()[..] == b.palette()[..]
}

fn put_int(bytes: &mut Vec<u8>, at: usize, v: i32) {
    bytes[at..at + 4].copy_from_slice(&v.to_le_bytes());
}

#[test]
fn new_rejects_invalid_grids() {
    assert!(Vox::new(4, 4, 4, vec![Voxel { x: 4, y: 0, z: 0, i: 1 }], palette()).is_none());
    assert!(Vox::new(4, 4, 4, vec![Voxel { x: 0, y: 0, z: 4, i: 1 }], palette()).is_none());
    assert!(Vox::new(-1, 4, 4, vec![], palette()).is_none());
    assert!(Vox::new(4, 257, 4, vec![], palette()).is_none());
    let mut bad = palette();
    bad[0] = Rgba { r: 1, g: 0, b: 0, a: 0 };
    assert!(Vox::new(4, 4, 4, vec![], bad).is_none());
    assert!(Vox::new(256, 256, 256, vec![Voxel { x: 255, y: 255, z: 255, i: 0 }], palette()).is_some());
    assert!(Vox::new(0, 0, 0, vec![], palette()).is_some());
}

#[test]
fn rotation_by_zero_is_the_identity() {
    let vox = sample();
    assert!(same(&vox.rotated(&Rotation::R0), &vox));
}

#[test]
fn test_rotate_90_z() {
    let vox = sample();
    let rotated_vox = vox.rotated(&Rotation::R90);
    assert_eq!(
        rotated_vox.voxels(),
        &vec![
            Voxel { x: 3, y: 0, z: 0, i: 1 },
            Voxel { x: 3, y: 3, z: 1, i: 2 },
            Voxel { x: 1, y: 1, z: 3, i: 200 },
        ]
    );
    let bytes = rotated_vox.write();
    assert!(same(&Vox::open(&bytes).unwrap(), &rotated_vox));
}

#[test]
fn half_turn_and_three_quarter_turn_of_a_grid() {
    let vox = sample();
    assert_eq!(
        vox.rotated(&Rotation::R180).voxels(),
        &vec![
            Voxel { x: 3, y: 3, z: 0, i: 1 },
            Voxel { x: 0, y: 3, z: 1, i: 2 },
            Voxel { x: 2, y: 1, z: 3, i: 200 },
        ]
    );
    assert_eq!(
        vox.rotated(&Rotation::R270).voxels(),
        &vec![
            Voxel { x: 0, y: 3, z: 0, i: 1 },
            Voxel { x: 0, y: 0, z: 1, i: 2 },
            Voxel { x: 2, y: 2, z: 3, i: 200 },
        ]
    );
}

#[test]
fn four_quarter_turns_of_a_grid_are_the_identity() {
    let vox = sample();
    let mut turned = vox.clone();
    for _ in 0..4 {
        turned = turned.rotated(&Rotation::R90);
    }
    assert!(same(&turned, &vox));
    let twice = vox.rotated(&Rotation::R90).rotated(&Rotation::R90);
    assert!(same(&twice, &vox.rotated(&Rotation::R180)));
}

#[test]
fn quarter_turn_swaps_width_and_depth() {
    let vox = Vox::new(4, 2, 3, vec![Voxel { x: 3, y: 1, z: 2, i: 1 }], palette()).unwrap();
    let turned = vox.rotated(&Rotation::R90);
    assert_eq!((turned.x_size(), turned.y_size(), turned.z_size()), (2, 4, 3));
    assert_eq!(turned.voxels(), &vec![Voxel { x: 0, y: 3, z: 2, i: 1 }]);
    let back = turned.rotated(&Rotation::R270);
    assert!(same(&back, &vox));
}

#[test]
fn reflections_mirror_about_the_centre() {
    let vox = sample();
    assert_eq!(
        vox.reflected(&Axis::X).voxels(),
        &vec![
            Voxel { x: 0, y: 3, z: 0, i: 1 },
            Voxel { x: 3, y: 3, z: 1, i: 2 },
            Voxel { x: 1, y: 1, z: 3, i: 200 },
        ]
    );
    assert_eq!(
        vox.reflected(&Axis::Y).voxels(),
        &vec![
            Voxel { x: 3, y: 0, z: 0, i: 1 },
            Voxel { x: 0, y: 0, z: 1, i: 2 },
            Voxel { x: 2, y: 2, z: 3, i: 200 },
        ]
    );
    assert!(same(&vox.reflected(&Axis::X).reflected(&Axis::X), &vox));
    assert!(same(&vox.reflected(&Axis::Y).reflected(&Axis::Y), &vox));
}

#[test]
fn written_file_has_the_fixed_layout() {
    let vox = sample();
    let bytes = vox.write();
    assert_eq!(bytes.len(), 4 * (274 + 3));
    assert_eq!(&bytes[0..4], b"VOX ");
    assert_eq!(&bytes[4..8], &150i32.to_le_bytes());
    assert_eq!(&bytes[8..12], b"MAIN");
    assert_eq!(&bytes[12..16], &0i32.to_le_bytes());
    assert_eq!(&bytes[16..20], &(1076i32 + 12).to_le_bytes());
    assert_eq!(&bytes[20..24], b"SIZE");
    assert_eq!(&bytes[24..28], &12i32.to_le_bytes());
    assert_eq!(&bytes[28..32], &0i32.to_le_bytes());
    assert_eq!(&bytes[32..36], &4i32.to_le_bytes());
    assert_eq!(&bytes[36..40], &4i32.to_le_bytes());
    assert_eq!(&bytes[40..44], &4i32.to_le_bytes());
    assert_eq!(&bytes[44..48], b"XYZI");
    assert_eq!(&bytes[48..52], &16i32.to_le_bytes());
    assert_eq!(&bytes[52..56], &0i32.to_le_bytes());
    assert_eq!(&bytes[56..60], &3i32.to_le_bytes());
    assert_eq!(&bytes[60..64], &[0, 0, 0, 1]);
    assert_eq!(&bytes[64..68], &[3, 0, 1, 2]);
    assert_eq!(&bytes[68..72], &[1, 2, 3, 200]);
    assert_eq!(&bytes[72..76], b"RGBA");
    assert_eq!(&bytes[76..80], &1024i32.to_le_bytes());
    assert_eq!(&bytes[80..84], &0i32.to_le_bytes());
    assert_eq!(&bytes[84..88], &[1, 254, 7, 255]);
    assert_eq!(&bytes[84 + 4 * 254..88 + 4 * 254], &[255, 0, (255 * 7 % 256) as u8, 255]);
    assert_eq!(&bytes[bytes.len() - 4..], &[0, 0, 0, 0]);
}

#[test]
fn test_read_vox() {
    let bytes = sample().write();
    let vox = Vox::open(&bytes).unwrap();
    assert!(same(&vox, &sample()));
    let again = vox.write();
    assert_eq!(again, bytes);
    assert!(same(&Vox::open(&again).unwrap(), &vox));
}

#[test]
fn open_ignores_chunk_sizes_and_what_follows_the_palette() {
    let mut bytes = sample().write();
    put_int(&mut bytes, 12, 77);
    put_int(&mut bytes, 16, -5);
    put_int(&mut bytes, 48, 123456);
    bytes.truncate(bytes.len() - 4);
    assert!(same(&Vox::open(&bytes).unwrap(), &sample()));
    bytes.extend_from_slice(b"nTRN and more");
    assert!(same(&Vox::open(&bytes).unwrap(), &sample()));
}

#[test]
fn open_reads_negative_numbers() {
    let mut bytes = sample().write();
    put_int(&mut bytes, 32, -1);
    assert_eq!(Vox::open(&bytes).err(), Some(VoxError::InvalidSize));
    put_int(&mut bytes, 32, 4);
    put_int(&mut bytes, 56, -3);
    assert_eq!(Vox::open(&bytes).err(), Some(VoxError::InvalidCount));
    put_int(&mut bytes, 56, i32::MIN);
    assert_eq!(Vox::open(&bytes).err(), Some(VoxError::InvalidCount));
}

#[test]
fn open_reports_what_is_wrong() {
    let good = sample().write();
    assert_eq!(Vox::open(&[]).err(), Some(VoxError::Truncated));
    assert_eq!(Vox::open(&good[..3]).err(), Some(VoxError::Truncated));
    assert_eq!(Vox::open(&good[..7]).err(), Some(VoxError::Truncated));
    assert_eq!(Vox::open(&good[..40]).err(), Some(VoxError::Truncated));
    assert_eq!(Vox::open(&good[..good.len() - 5]).err(), Some(VoxError::Truncated));
    let mut bytes = good.clone();
    bytes[3] = b'X';
    assert_eq!(Vox::open(&bytes).err(), Some(VoxError::UnsupportedFormat));
    let mut bytes = good.clone();
    put_int(&mut bytes, 4, 200);
    assert_eq!(Vox::open(&bytes).err(), Some(VoxError::UnsupportedVersion));
    let mut bytes = good.clone();
    bytes[8] = b'm';
    assert_eq!(Vox::open(&bytes).err(), Some(VoxError::BadChunk(Chunk::Main)));
    let mut bytes = good.clone();
    bytes[20] = b's';
    assert_eq!(Vox::open(&bytes).err(), Some(VoxError::BadChunk(Chunk::Size)));
    let mut bytes = good.clone();
    bytes[47] = b'J';
    assert_eq!(Vox::open(&bytes).err(), Some(VoxError::BadChunk(Chunk::Xyzi)));
    let mut bytes = good.clone();
    bytes[72] = b'r';
    assert_eq!(Vox::open(&bytes).err(), Some(VoxError::BadChunk(Chunk::Rgba)));
    let mut bytes = good.clone();
    put_int(&mut bytes, 56, 536870643);
    assert_eq!(Vox::open(&bytes).err(), Some(VoxError::InvalidCount));
    let mut bytes = good.clone();
    put_int(&mut bytes, 40, 257);
    assert_eq!(Vox::open(&bytes).err(), Some(VoxError::InvalidSize));
    let mut bytes = good.clone();
    bytes[60] = 4;
    assert_eq!(Vox::open(&bytes).err(), Some(VoxError::InvalidVoxel));
}

#[test]
fn chunk_tags_are_their_names() {
    assert_eq!(&Chunk::Main.tag(), b"MAIN");
    assert_eq!(&Chunk::Size.tag(), b"SIZE");
    assert_eq!(&Chunk::Xyzi.tag(), b"XYZI");
    assert_eq!(&Chunk::Rgba.tag(), b"RGBA");
}
