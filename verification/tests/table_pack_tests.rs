//! The packed solver-table format.

use cube_core::solve::install_packed_table;
use cube_core::table_pack::{decode_packed, encode_packed, try_decode_packed, u16s, u8s, TableData};

fn sample() -> TableData {
    let mut move_tables = Vec::new();
    for k in 0..6u16 {
        let rows: Vec<Vec<u16>> = (0..5u16)
            .map(|r| (0..3u16).map(|c| r.wrapping_mul(7919).wrapping_add(c * 13 + k) ^ 0x8001).collect())
            .collect();
        move_tables.push(rows);
    }
    let mut pruning_tables = Vec::new();
    for k in 0..4u8 {
        let rows: Vec<Vec<u8>> = (0..3u8).map(|r| (0..5u8).map(|c| (r * 5 + c + k) % 14).collect()).collect();
        pruning_tables.push(rows);
    }
    TableData { move_tables, pruning_tables }
}

#[test]
fn packed_tables_decode_to_what_was_encoded() {
    let t = sample();
    let packed = encode_packed(&t);
    assert_eq!(&packed[..6], b"KWPK2\0");
    let back = decode_packed(&packed).expect("decodes");
    assert_eq!(back.move_tables, t.move_tables);
    assert_eq!(back.pruning_tables, t.pruning_tables);
}

#[test]
fn section_header_counts_rows_and_row_length() {
    let packed = encode_packed(&sample());
    assert_eq!(&packed[6..10], &5u32.to_le_bytes());
    assert_eq!(&packed[10..14], &3u32.to_le_bytes());
}

#[test]
fn empty_tables_round_trip() {
    let t = TableData { move_tables: vec![Vec::new(); 6], pruning_tables: vec![Vec::new(); 4] };
    let back = decode_packed(&encode_packed(&t)).expect("decodes");
    assert_eq!(back.move_tables, t.move_tables);
    assert_eq!(back.pruning_tables, t.pruning_tables);
}

#[test]
fn odd_cell_count_pads_the_last_nibble() {
    let mut t = sample();
    t.pruning_tables[0] = vec![vec![13, 1, 7]];
    let back = decode_packed(&encode_packed(&t)).expect("decodes");
    assert_eq!(back.pruning_tables[0], vec![vec![13, 1, 7]]);
}

#[test]
fn depths_keep_only_four_bits() {
    let mut t = sample();
    t.pruning_tables[1] = vec![vec![0x1f, 0x02]];
    let back = decode_packed(&encode_packed(&t)).expect("decodes");
    assert_eq!(back.pruning_tables[1], vec![vec![0x0f, 0x02]]);
}

#[test]
fn bad_magic_is_refused() {
    assert_eq!(decode_packed(b"KWPK1\0").err().as_deref(), Some("not a packed solver table (bad magic)"));
    assert_eq!(decode_packed(b"KW").err().as_deref(), Some("not a packed solver table (bad magic)"));
}

#[test]
fn truncated_tables_are_refused() {
    let packed = encode_packed(&sample());
    assert_eq!(decode_packed(&packed[..10]).err().as_deref(), Some("truncated header"));
    assert_eq!(decode_packed(&packed[..20]).err().as_deref(), Some("truncated section payload"));
    assert_eq!(decode_packed(b"KWPK2\0").err().as_deref(), Some("truncated header"));
}

#[test]
fn payload_that_does_not_inflate_is_refused() {
    let mut bytes = b"KWPK2\0".to_vec();
    bytes.extend_from_slice(&1u32.to_le_bytes());
    bytes.extend_from_slice(&1u32.to_le_bytes());
    bytes.extend_from_slice(&2u32.to_le_bytes());
    bytes.extend_from_slice(&[0xff, 0xff]);
    let e = decode_packed(&bytes).err().expect("refused");
    assert!(e.starts_with("inflate: "), "{e}");
}

#[test]
fn size_mismatch_is_refused() {
    let mut t = sample();
    let packed = encode_packed(&t);
    // Claim one more row in the first section than its payload holds.
    let mut bytes = packed.clone();
    bytes[6] = 6;
    assert_eq!(decode_packed(&bytes).err().as_deref(), Some("section size mismatch (u16)"));
    t.pruning_tables = vec![Vec::new(); 4];
    t.pruning_tables[0] = vec![vec![1, 2]];
    let packed = encode_packed(&t);
    let at = find_pruning_section(&packed);
    let mut bytes = packed.clone();
    bytes[at] = 3;
    assert_eq!(decode_packed(&bytes).err().as_deref(), Some("section size mismatch (u8)"));
}

fn find_pruning_section(packed: &[u8]) -> usize {
    let mut pos = 6;
    for _ in 0..6 {
        let plen = u32::from_le_bytes(packed[pos + 8..pos + 12].try_into().unwrap()) as usize;
        pos += 12 + plen;
    }
    pos
}

#[test]
fn pruning_rows_without_columns_are_not_split() {
    let mut t = sample();
    t.pruning_tables[2] = vec![Vec::new(), Vec::new()];
    let packed = encode_packed(&t);
    assert!(try_decode_packed(&packed).is_none());
    let e = install_packed_table(&packed).err().expect("refused");
    assert_eq!(e.to_string(), "solver table failed to decode: pruning section with rows but no columns");
}

fn shaped() -> TableData {
    let grid16 = |rows: usize, cols: usize| vec![vec![0u16; cols]; rows];
    let grid8 = |rows: usize, cols: usize| vec![vec![0u8; cols]; rows];
    TableData {
        move_tables: vec![
            grid16(2187, 18),
            grid16(2048, 18),
            grid16(495, 18),
            grid16(40320, 10),
            grid16(40320, 10),
            grid16(24, 10),
        ],
        pruning_tables: vec![grid8(2187, 495), grid8(2048, 495), grid8(40320, 24), grid8(40320, 24)],
    }
}

#[test]
fn packed_table_installs() {
    let packed = encode_packed(&shaped());
    assert!(install_packed_table(&packed).is_ok());
    assert!(install_packed_table(b"nope").is_err());
}

#[test]
fn misshaped_tables_are_refused() {
    let e = install_packed_table(&encode_packed(&sample())).err().expect("refused");
    assert_eq!(e.to_string(), "solver table failed to decode: table dimensions do not match the solver");
    // An entry that is not a row of its table.
    let mut t = shaped();
    t.move_tables[5][3][0] = 24;
    let e = install_packed_table(&encode_packed(&t)).err().expect("refused");
    assert_eq!(e.to_string(), "solver table failed to decode: table dimensions do not match the solver");
}

#[test]
fn raw_section_bytes_are_little_endian_rows() {
    assert_eq!(u16s(&vec![vec![0x0102, 0xa0b0], vec![7]]), vec![0x02, 0x01, 0xb0, 0xa0, 7, 0]);
    assert_eq!(u8s(&vec![vec![1, 2], vec![], vec![3]]), vec![1, 2, 3]);
    assert!(u16s(&Vec::new()).is_empty());
}
