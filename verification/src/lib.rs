//! Core of a Wolfenstein-3D-style ray-casting engine: the binary asset
//! decoding pipeline (Huffman, Carmack and RLEW decompression, picture and
//! map-file parsing) and the tile-map, player-movement and input logic that
//! the renderer consumes.

pub mod cache;
pub mod codec;
pub mod constants;
pub mod controls;
pub mod levels;
pub mod player;
pub mod ray_caster;
pub mod tilemap;
