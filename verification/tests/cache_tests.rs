use rustenstein::cache::{init, load_tilemaps, split_pages, Cache};
use rustenstein::codec::AssetError;
use rustenstein::tilemap::Tile;

// An all-zero Huffman dictionary: every node pair is (0, 0), so any bit
// emits the literal byte 0 — enough to exercise the decode plumbing.
fn zero_dict() -> Vec<u8> {
    vec![0u8; 1024]
}

// Chunk-offset headers for a graphics archive whose picture directory ends
// at byte 78 and whose 144 picture chunks take 5 bytes each after it.
fn graph_headers() -> Vec<u8> {
    let mut offsets = vec![0u32; 148];
    offsets[1] = 78;
    offsets[2] = 78;
    for c in 3..148 {
        offsets[c] = 78 + 5 * (c as u32 - 3);
    }
    let mut bytes = Vec::new();
    for off in offsets {
        bytes.extend_from_slice(&off.to_le_bytes()[0..3]);
    }
    bytes
}

// The graphics archive itself: 74 bytes of Huffman bits for the 588-byte
// picture directory, then per picture a 4-byte expanded length of 1 and one
// byte of bits.
fn graph_file() -> Vec<u8> {
    let mut graph = vec![0u8; 78];
    for _ in 0..144 {
        graph.extend_from_slice(&[1, 0, 0, 0, 0]);
    }
    graph
}

// A page archive with one texture page, one compiled sprite page and one
// sound page.
fn vswap_file() -> Vec<u8> {
    let mut v = Vec::new();
    v.extend_from_slice(&4u16.to_le_bytes()); // pages in the file
    v.extend_from_slice(&1u16.to_le_bytes()); // first sprite page
    v.extend_from_slice(&2u16.to_le_bytes()); // first sound page
    for off in [34u32, 36, 168, 172, 172] {
        v.extend_from_slice(&off.to_le_bytes());
    }
    for len in [2u16, 132, 4, 0] {
        v.extend_from_slice(&len.to_le_bytes());
    }
    assert_eq!(v.len(), 34);
    v.extend_from_slice(&[0xAA, 0xBB]); // the texture page
    let mut sprite = vec![0u8; 132];
    sprite[0..2].copy_from_slice(&1u16.to_le_bytes()); // left pixel
    sprite[2..4].copy_from_slice(&2u16.to_le_bytes()); // right pixel
    sprite[4..6].copy_from_slice(&300u16.to_le_bytes()); // first data offset
    v.extend_from_slice(&sprite);
    v.extend_from_slice(&[1, 2, 3, 4]); // the sound page
    v
}

fn plane_bytes(word: u16) -> Vec<u8> {
    let mut p = vec![0x00, 0x20, 0x00, 0x00, 0xCD, 0xAB, 0x00, 0x10];
    p.extend_from_slice(&word.to_le_bytes());
    p
}

fn map_files(width: u16) -> (Vec<u8>, Vec<u8>) {
    let mut maphead = vec![0u8; 402];
    maphead[0] = 0xCD;
    maphead[1] = 0xAB;
    maphead[2..6].copy_from_slice(&2u32.to_le_bytes());
    let mut gamemaps = vec![0u8, 0u8];
    let mut header = vec![0u8; 38];
    header[0..4].copy_from_slice(&40u32.to_le_bytes());
    header[4..8].copy_from_slice(&50u32.to_le_bytes());
    header[12..14].copy_from_slice(&10u16.to_le_bytes());
    header[14..16].copy_from_slice(&10u16.to_le_bytes());
    header[18..20].copy_from_slice(&width.to_le_bytes());
    header[20..22].copy_from_slice(&64u16.to_le_bytes());
    header[22..26].copy_from_slice(b"Test");
    gamemaps.extend_from_slice(&header);
    gamemaps.extend_from_slice(&plane_bytes(7));
    gamemaps.extend_from_slice(&plane_bytes(0));
    (maphead, gamemaps)
}

#[test]
fn split_pages_sorts_the_three_categories() {
    let (textures, sprites, sounds) = split_pages(&vswap_file()).unwrap();
    assert_eq!(textures, vec![vec![0xAA, 0xBB]]);
    assert_eq!(sprites.len(), 1);
    assert_eq!(sprites[0].0.left_pix, 1);
    assert_eq!(sprites[0].0.right_pix, 2);
    assert_eq!(sprites[0].0.dataofs.len(), 64);
    assert_eq!(sprites[0].0.dataofs[0], 300);
    assert_eq!(sprites[0].1.len(), 132);
    assert_eq!(sounds, vec![vec![1, 2, 3, 4]]);
}

#[test]
fn split_pages_skips_sparse_pages() {
    let mut v = vswap_file();
    v[6..10].copy_from_slice(&0u32.to_le_bytes()); // texture page now sparse
    let (textures, sprites, sounds) = split_pages(&v).unwrap();
    assert!(textures.is_empty());
    assert_eq!(sprites.len(), 1);
    assert_eq!(sounds.len(), 1);
}

#[test]
fn split_pages_rejects_a_short_sprite_page() {
    let mut v = vswap_file();
    // End the sprite page two bytes after it starts.
    v[14..18].copy_from_slice(&38u32.to_le_bytes());
    assert_eq!(split_pages(&v).unwrap_err(), AssetError::ShortSprite);
}

#[test]
fn split_pages_rejects_a_page_leaving_the_file() {
    let mut v = vswap_file();
    v[10..14].copy_from_slice(&9999u32.to_le_bytes());
    assert_eq!(split_pages(&v).unwrap_err(), AssetError::OutOfBounds);
}

#[test]
fn load_tilemaps_builds_the_grid() {
    let (maphead, gamemaps) = map_files(64);
    let maps = load_tilemaps(&maphead, &gamemaps).unwrap();
    assert_eq!(maps.len(), 1);
    assert_eq!(maps[0].name, b"Test");
    for x in 0..64u8 {
        for y in 0..64u8 {
            assert!(matches!(maps[0].tile_at(x, y), Tile::Wall(7)));
            assert!(maps[0].actor_at(x, y).is_none());
        }
    }
}

#[test]
fn load_tilemaps_rejects_wrong_dimensions() {
    let (maphead, gamemaps) = map_files(63);
    assert_eq!(load_tilemaps(&maphead, &gamemaps).unwrap_err(), AssetError::BadDimensions);
}

#[test]
fn load_tilemaps_rejects_a_short_plane() {
    let (maphead, mut gamemaps) = map_files(64);
    // Shrink the run so the plane expands to fewer words than the grid.
    gamemaps[46..48].copy_from_slice(&8u16.to_le_bytes());
    assert_eq!(load_tilemaps(&maphead, &gamemaps).unwrap_err(), AssetError::ShortPlane);
}

#[test]
fn init_loads_every_asset_family() {
    let (maphead, gamemaps) = map_files(64);
    let cache = init(
        &zero_dict(),
        &graph_headers(),
        &graph_file(),
        &vswap_file(),
        &maphead,
        &gamemaps,
    )
    .unwrap();
    let pic = cache.get_pic(3);
    assert_eq!(pic.width, 0);
    assert_eq!(pic.height, 0);
    assert_eq!(pic.data, vec![0u8]);
    let last = cache.get_pic(146);
    assert_eq!(last.data, vec![0u8]);
    assert_eq!(cache.get_texture(0), &vec![0xAA, 0xBB]);
    assert_eq!(cache.get_sprite(0).0.left_pix, 1);
    assert_eq!(cache.get_sound(0), &vec![1, 2, 3, 4]);
    let map = cache.get_map(0, 0);
    assert!(matches!(map.tile_at(10, 20), Tile::Wall(7)));
}

#[test]
fn init_fails_when_one_family_is_malformed() {
    let (maphead, gamemaps) = map_files(64);
    // A graphics archive shorter than its picture directory.
    let r = init(&zero_dict(), &graph_headers(), &[0u8; 10], &vswap_file(), &maphead, &gamemaps);
    assert!(matches!(r, Err(AssetError::OutOfBounds)));
}

#[test]
fn cache_new_keeps_what_it_is_given() {
    let cache = Cache::new(Vec::new(), vec![vec![9, 9]], Vec::new(), Vec::new(), Vec::new());
    assert_eq!(cache.get_texture(0), &vec![9, 9]);
}
