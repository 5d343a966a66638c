//! Length prefixes of a bincode solver table, checked before decoding.

use cube_core::solve::install_table;
use cube_core::table_bytes::table_prefixes_fit;

#[test]
fn short_and_fitting_prefixes_pass() {
    assert!(table_prefixes_fit(&[]));
    // One row of two entries, then the bytes end: the decoder stops there.
    assert!(table_prefixes_fit(&[1, 2, 5, 7]));
    // A u16 row count (251 + two bytes) that fits.
    assert!(table_prefixes_fit(&[251, 1, 0, 0]));
}

#[test]
fn overlong_prefixes_are_caught() {
    // A row count near u64::MAX.
    let mut huge = vec![253u8];
    huge.extend_from_slice(&[0xff; 8]);
    assert!(!table_prefixes_fit(&huge));
    // A row length longer than what follows.
    assert!(!table_prefixes_fit(&[1, 9, 1, 2]));
    let e = install_table(&huge).err().expect("refused");
    assert_eq!(e.to_string(), "solver table failed to decode: table length prefix exceeds the data");
}
