use rustenstein::codec::AssetError;
use rustenstein::levels::{load_maps, parse_map_head, MapLevelHeader};
use rustenstein::tilemap::{Actor, Direction, Tile, TileMap};

#[test]
fn level_header_fields_are_read_little_endian() {
    let mut h = vec![0u8; 38];
    h[0..4].copy_from_slice(&[0x04, 0x03, 0x02, 0x01]); // plane 0 offset
    h[4..8].copy_from_slice(&[0x2A, 0x00, 0x00, 0x00]); // plane 1 offset
    h[8..12].copy_from_slice(&[0x00, 0x00, 0x00, 0x00]); // plane 2 offset
    h[12..14].copy_from_slice(&[0x10, 0x00]); // plane 0 length
    h[14..16].copy_from_slice(&[0x20, 0x00]); // plane 1 length
    h[16..18].copy_from_slice(&[0x30, 0x00]); // plane 2 length
    h[18..20].copy_from_slice(&[64, 0]);
    h[20..22].copy_from_slice(&[64, 0]);
    h[22..32].copy_from_slice(b"Wolf1 Map1");
    let header = MapLevelHeader::new(&h);
    assert_eq!(header.offset_plane0, 0x01020304);
    assert_eq!(header.offset_plane1, 42);
    assert_eq!(header.offset_plane2, 0);
    assert_eq!(header.length_plane0, 16);
    assert_eq!(header.length_plane1, 32);
    assert_eq!(header.length_plane2, 48);
    assert_eq!(header.width_n_tiles, 64);
    assert_eq!(header.height_n_tiles, 64);
    assert_eq!(header.name, b"Wolf1 Map1");
}

#[test]
fn map_head_keeps_only_positive_pointers() {
    let mut data = vec![0u8; 410];
    data[0] = 0xCD;
    data[1] = 0xAB;
    data[2..6].copy_from_slice(&100u32.to_le_bytes());
    // record 1 stays zero: dropped
    data[10..14].copy_from_slice(&0xFFFF_FFFFu32.to_le_bytes()); // negative: dropped
    data[14..18].copy_from_slice(&7u32.to_le_bytes());
    data[402..410].copy_from_slice(b"titlebts");
    let head = parse_map_head(&data, None).unwrap();
    assert_eq!(head.magic, [0xCD, 0xAB]);
    assert_eq!(head.pointers, vec![100, 7]);
    assert_eq!(head.title, b"titlebts");

    // A record limit cuts the scan short.
    let head2 = parse_map_head(&data, Some(2)).unwrap();
    assert_eq!(head2.pointers, vec![100]);
}

#[test]
fn map_head_too_short_is_rejected() {
    assert_eq!(parse_map_head(&[0u8; 401], None).unwrap_err(), AssetError::OutOfBounds);
}

// A compressed plane that Carmack-passes-through to a 4-byte prefix plus an
// RLEW run of 4096 copies of `word`.
fn plane_bytes(word: u16) -> Vec<u8> {
    let mut p = vec![0x00, 0x20, 0x00, 0x00, 0xCD, 0xAB, 0x00, 0x10];
    p.extend_from_slice(&word.to_le_bytes());
    p
}

fn synthetic_map_files(width: u16, plane0_word: u16, plane1_word: u16) -> (Vec<u8>, Vec<u8>) {
    let mut maphead = vec![0u8; 402];
    maphead[0] = 0xCD;
    maphead[1] = 0xAB;
    maphead[2..6].copy_from_slice(&2u32.to_le_bytes()); // header at offset 2 of map data
    let mut gamemaps = vec![0u8, 0u8];
    let mut header = vec![0u8; 38];
    header[0..4].copy_from_slice(&40u32.to_le_bytes()); // plane 0 at byte 40
    header[4..8].copy_from_slice(&50u32.to_le_bytes()); // plane 1 at byte 50
    header[12..14].copy_from_slice(&10u16.to_le_bytes());
    header[14..16].copy_from_slice(&10u16.to_le_bytes());
    header[18..20].copy_from_slice(&width.to_le_bytes());
    header[20..22].copy_from_slice(&64u16.to_le_bytes());
    header[22..26].copy_from_slice(b"Test");
    gamemaps.extend_from_slice(&header);
    gamemaps.extend_from_slice(&plane_bytes(plane0_word));
    gamemaps.extend_from_slice(&plane_bytes(plane1_word));
    (maphead, gamemaps)
}

#[test]
fn load_maps_decodes_a_synthetic_level() {
    let (maphead, gamemaps) = synthetic_map_files(64, 7, 0);
    let maps = load_maps(&maphead, &gamemaps, None).unwrap();
    assert_eq!(maps.len(), 1);
    let level = &maps[0];
    assert_eq!(level.name, b"Test");
    assert_eq!(level.width_n_tiles, 64);
    assert_eq!(level.height_n_tiles, 64);
    let plane0 = level.plane0.as_ref().unwrap();
    assert_eq!(plane0.len(), 8192);
    assert!(plane0.chunks(2).all(|w| w == [7, 0]));
    assert!(level.plane2.is_none());
}

#[test]
fn load_maps_rejects_plane_range_outside_file() {
    let (maphead, mut gamemaps) = synthetic_map_files(64, 7, 0);
    gamemaps.truncate(45); // plane 0 range now leaves the file
    assert_eq!(load_maps(&maphead, &gamemaps, None).unwrap_err(), AssetError::OutOfBounds);
}

fn grid(word: u16) -> Vec<u16> {
    vec![word; 4096]
}

#[test]
fn tile_classification_matches_the_taxonomy() {
    let mut plane0 = grid(0);
    plane0[0] = 90; // (0,0) vertical door, lock 0
    plane0[1] = 101; // (0,1) horizontal door, lock 5
    plane0[2] = 106; // (0,2) ambush marker: floor
    plane0[3] = 50; // (0,3) wall
    plane0[4] = 107; // (0,4) floor
    plane0[5] = 96; // (0,5) vertical door, lock 3
    let map = TileMap::new(plane0, grid(0), b"t".to_vec());
    assert!(matches!(map.tile_at(0, 0), Tile::Door { vertical: true, lock: 0 }));
    assert!(matches!(map.tile_at(0, 1), Tile::Door { vertical: false, lock: 5 }));
    assert!(matches!(map.tile_at(0, 2), Tile::Floor));
    assert!(matches!(map.tile_at(0, 3), Tile::Wall(50)));
    assert!(matches!(map.tile_at(0, 4), Tile::Floor));
    assert!(matches!(map.tile_at(0, 5), Tile::Door { vertical: true, lock: 3 }));
    assert!(matches!(map.tile_at(0, 6), Tile::Wall(0)));
    assert!(matches!(map.tile_at(63, 63), Tile::Wall(0)));
}

#[test]
fn actor_classification_matches_the_taxonomy() {
    let mut plane1 = grid(0);
    plane1[0] = 19;
    plane1[1] = 30;
    plane1[2] = 98;
    plane1[3] = 124;
    plane1[4] = 150;
    plane1[5] = 5;
    let map = TileMap::new(grid(0), plane1, Vec::new());
    assert!(matches!(map.actor_at(0, 0), Some(Actor::Player(Direction::North))));
    assert!(matches!(map.actor_at(0, 1), Some(Actor::Item)));
    assert!(matches!(map.actor_at(0, 2), Some(Actor::PushWall)));
    assert!(matches!(map.actor_at(0, 3), Some(Actor::DeadGuard)));
    assert!(matches!(map.actor_at(0, 4), Some(Actor::Enemy)));
    assert!(map.actor_at(0, 5).is_none());
}

#[test]
fn find_player_start_returns_the_first_marker() {
    let mut plane1 = grid(0);
    plane1[2 * 64 + 5] = 20; // (2,5) facing east
    plane1[3 * 64] = 19; // (3,0): later in x-major order
    let map = TileMap::new(grid(0), plane1, Vec::new());
    let (x, y, dir) = map.find_player_start().unwrap();
    assert_eq!((x, y), (2, 5));
    assert!(matches!(dir, Direction::East));
}

#[test]
fn find_player_scales_the_start_cell() {
    let mut plane1 = grid(0);
    plane1[2 * 64 + 5] = 20;
    let map = TileMap::new(grid(0), plane1, Vec::new());
    let ps = map.find_player().unwrap();
    assert_eq!(ps.x, 16 * 2 + 5);
    assert_eq!(ps.y, 16 * 5 + 8);
    assert!(matches!(ps.facing, Direction::East));
}

#[test]
fn find_player_without_marker_is_none() {
    let map = TileMap::new(grid(0), grid(0), Vec::new());
    assert!(map.find_player_start().is_none());
    assert!(map.find_player().is_none());
}
