use rustenstein::codec::{carmack_decompress, huff_expand, rlew_decompress, AssetError};

#[test]
fn cache_test_rlew_decompress() {
    assert_eq!(
        rlew_decompress(
            &[0x00, 0x01, 0x03, 0x04, 0xFE, 0xFE, 0x05, 0x00, 0xA0, 0x0A],
            &[0xFE, 0xFE]
        ),
        &[0x00, 0x01, 0x03, 0x04, 0xA0, 0x0A, 0xA0, 0x0A, 0xA0, 0x0A, 0xA0, 0x0A, 0xA0, 0x0A]
    );
}

#[test]
fn map_parser_test_rlew_decompress() {
    assert_eq!(
        rlew_decompress(
            &[0x00, 0x01, 0x03, 0x04, 0xFE, 0xFE, 0x05, 0x00, 0xA0, 0x0A],
            &[0xFE, 0xFE]
        ),
        &[0x00, 0x01, 0x03, 0x04, 0xA0, 0x0A, 0xA0, 0x0A, 0xA0, 0x0A, 0xA0, 0x0A, 0xA0, 0x0A]
    );
}

#[test]
fn cache_test_carmack_decompress_escaped() {
    assert_eq!(
        carmack_decompress(&[0x00, 0xA7, 0x12, 0xEE, 0xFF, 0x00, 0xA8, 0x34, 0xCC, 0xDD]).unwrap(),
        &[0x12, 0xA7, 0xEE, 0xFF, 0x34, 0xA8, 0xCC, 0xDD]
    );
}

#[test]
fn map_parser_test_carmack_decompress_escaped() {
    assert_eq!(
        carmack_decompress(&[0x00, 0xA7, 0x12, 0xEE, 0xFF, 0x00, 0xA8, 0x34, 0xCC, 0xDD]).unwrap(),
        &[0x12, 0xA7, 0xEE, 0xFF, 0x34, 0xA8, 0xCC, 0xDD]
    );
}

#[test]
fn cache_test_carmack_decompress_near_pointer() {
    assert_eq!(
        carmack_decompress(&[
            0x00, 0x01, 0x02, 0x03, 0x04, 0x05, 0x06, 0x07, 0x08, 0x09, 0x0A, 0x0B, 0x04, 0xA7,
            0x06, 0x00, 0x01
        ])
        .unwrap(),
        &[
            0x00, 0x01, 0x02, 0x03, 0x04, 0x05, 0x06, 0x07, 0x08, 0x09, 0x0A, 0x0B, 0x00, 0x01,
            0x02, 0x03, 0x04, 0x05, 0x06, 0x07, 0x00, 0x01
        ]
    );
}

#[test]
fn map_parser_test_carmack_decompress_near_pointer() {
    assert_eq!(
        carmack_decompress(&[
            0x00, 0x01, 0x02, 0x03, 0x04, 0x05, 0x06, 0x07, 0x08, 0x09, 0x0A, 0x0B, 0x04, 0xA7,
            0x06, 0x00, 0x01
        ])
        .unwrap(),
        &[
            0x00, 0x01, 0x02, 0x03, 0x04, 0x05, 0x06, 0x07, 0x08, 0x09, 0x0A, 0x0B, 0x00, 0x01,
            0x02, 0x03, 0x04, 0x05, 0x06, 0x07, 0x00, 0x01
        ]
    );
}

#[test]
fn cache_test_carmack_decompress() {
    assert_eq!(
        carmack_decompress(&[
            0xEA, 0xEB, 0xEC, 0x00, 0xA7, 0x14, 0xDE, 0xFA, 0x00, 0xA8, 0x34, 0xCC, 0xDD, 0xAB,
            0x01, 0x03, 0xA7, 0x07, 0x00, 0x02, 0xA8, 0x0A, 0x00, 0x02, 0x02, 0x03, 0xFF, 0x0A,
            0x2A, 0x00, 0xA7, 0xFF
        ])
        .unwrap(),
        &[
            0xEA, 0xEB, 0xEC, 0x00, 0xA7, 0x14, 0xDE, 0xFA, 0x34, 0xA8, 0xCC, 0xDD, 0xAB, 0x01,
            0xEA, 0xEB, 0xEC, 0x00, 0xA7, 0x14, 0x00, 0x02, 0xA8, 0x0A, 0x00, 0x02, 0x02, 0x03,
            0xFF, 0x0A, 0x2A, 0x00, 0xA7, 0xFF
        ]
    );
}

#[test]
fn map_parser_test_carmack_decompress() {
    assert_eq!(
        carmack_decompress(&[
            0xEA, 0xEB, 0xEC, 0x00, 0xA7, 0x14, 0xDE, 0xFA, 0x00, 0xA8, 0x34, 0xCC, 0xDD, 0xAB,
            0x01, 0x03, 0xA7, 0x07, 0x00, 0x02, 0xA8, 0x0A, 0x00, 0x02, 0x02, 0x03, 0xFF, 0x0A,
            0x2A, 0x00, 0xA7, 0xFF
        ])
        .unwrap(),
        &[
            0xEA, 0xEB, 0xEC, 0x00, 0xA7, 0x14, 0xDE, 0xFA, 0x34, 0xA8, 0xCC, 0xDD, 0xAB, 0x01,
            0xEA, 0xEB, 0xEC, 0x00, 0xA7, 0x14, 0x00, 0x02, 0xA8, 0x0A, 0x00, 0x02, 0x02, 0x03,
            0xFF, 0x0A, 0x2A, 0x00, 0xA7, 0xFF
        ]
    );
}

#[test]
fn rlew_sentinel_without_count_stops_gracefully() {
    // A sentinel as the very last word: what was decoded so far is returned.
    assert_eq!(
        rlew_decompress(&[0x11, 0x22, 0xFE, 0xFE], &[0xFE, 0xFE]),
        &[0x11, 0x22]
    );
    // A sentinel with a count but no value word stops too.
    assert_eq!(
        rlew_decompress(&[0x11, 0x22, 0xFE, 0xFE, 0x02, 0x00], &[0xFE, 0xFE]),
        &[0x11, 0x22]
    );
}

#[test]
fn rlew_ignores_trailing_odd_byte() {
    assert_eq!(rlew_decompress(&[0x11, 0x22, 0x33], &[0xFE, 0xFE]), &[0x11, 0x22]);
}

#[test]
fn carmack_short_inputs_pass_through() {
    assert_eq!(carmack_decompress(&[]).unwrap(), &[0u8; 0]);
    assert_eq!(carmack_decompress(&[0x42]).unwrap(), &[0x42]);
    assert_eq!(carmack_decompress(&[0x03, 0xA7]).unwrap(), &[0x03, 0xA7]);
}

#[test]
fn carmack_bad_back_reference_is_rejected() {
    // A near pointer reaching 5 words back into empty output.
    assert_eq!(
        carmack_decompress(&[0x02, 0xA7, 0x05, 0x00, 0x00]),
        Err(AssetError::BadBackReference)
    );
    // A far pointer past the output produced so far.
    assert_eq!(
        carmack_decompress(&[0x01, 0xA8, 0x00, 0x00, 0x00, 0x00]),
        Err(AssetError::BadBackReference)
    );
}

#[test]
fn carmack_truncated_far_pointer_is_rejected() {
    assert_eq!(carmack_decompress(&[0x01, 0xA8, 0x00]), Err(AssetError::TruncatedWord));
}

// A table whose root (node 254) emits the literal 65 on a 0 bit and moves
// to node 0 on a 1 bit; node 0 emits 66 on 0 and 67 on 1. The codes are
// A = 0, B = 10, C = 11 (bits in decoding order).
fn small_table() -> Vec<(u16, u16)> {
    let mut table = vec![(0u16, 0u16); 255];
    table[0] = (66, 67);
    table[254] = (65, 256);
    table
}

#[test]
fn huffman_decodes_known_codes() {
    // "ABC" = bits 0, 1 0, 1 1; least significant bit first: 0b00011010.
    let out = huff_expand(&small_table(), &[0x1A], 3).unwrap();
    assert_eq!(out, &[65, 66, 67]);
}

#[test]
fn huffman_round_trip_concrete() {
    // Encode "BACA" with the table's own codes and decode it back.
    // B = 10, A = 0, C = 11, A = 0: bits 1,0,0,1,1,0 -> 0b00011001.
    let out = huff_expand(&small_table(), &[0x19], 4).unwrap();
    assert_eq!(out, &[66, 65, 67, 65]);
}

#[test]
fn huffman_zero_length_is_empty() {
    let out = huff_expand(&small_table(), &[], 0).unwrap();
    assert_eq!(out.len(), 0);
}

#[test]
fn huffman_exhausted_source_is_rejected() {
    assert_eq!(huff_expand(&small_table(), &[0x00], 9), Err(AssetError::SourceExhausted));
    assert_eq!(huff_expand(&small_table(), &[], 1), Err(AssetError::SourceExhausted));
}

#[test]
fn huffman_node_outside_table_is_rejected() {
    // A table too short to hold the root node.
    let table = vec![(0u16, 0u16); 10];
    assert_eq!(huff_expand(&table, &[0x00], 1), Err(AssetError::BadNode));
    // A child index that leaves a full-size table.
    let mut table = vec![(0u16, 0u16); 255];
    table[254] = (65, 256 + 300);
    assert_eq!(huff_expand(&table, &[0xFF], 1), Err(AssetError::BadNode));
}
