//! Interface language list.

use cube_core::csv::{csv_lookup, parse_csv, translate};
use cube_core::lang::{Lang, LANG_COUNT};

#[test]
fn language_codes_are_unique_and_resolvable() {
    let mut codes: Vec<&str> = (0..LANG_COUNT).map(|i| Lang(i).code()).collect();
    codes.sort_unstable();
    let n = codes.len();
    codes.dedup();
    assert_eq!(codes.len(), n, "duplicate language codes");
    for i in 0..LANG_COUNT {
        let l = Lang(i);
        assert_eq!(Lang::from_code(l.code()), Some(Lang(i)));
        assert!(!l.native().is_empty());
    }
}

#[test]
fn unknown_codes_and_out_of_range_indices() {
    assert_eq!(Lang::from_code("xx"), None);
    assert_eq!(Lang::from_code("en"), Some(Lang(0)));
    assert_eq!(Lang::from_code("no"), Some(Lang(1)));
    // Out-of-range indices fall back to the last language.
    assert_eq!(Lang(200).code(), Lang(LANG_COUNT - 1).code());
}

#[test]
fn quoted_csv_fields_round_trip() {
    let table = parse_csv("key,text\nA,plain\nB,\"has, comma\"\nC,\"say \"\"hi\"\"\"\n");
    assert_eq!(csv_lookup(&table, "A").as_deref(), Some("plain"));
    assert_eq!(csv_lookup(&table, "B").as_deref(), Some("has, comma"));
    assert_eq!(csv_lookup(&table, "C").as_deref(), Some("say \"hi\""));
}

#[test]
fn csv_header_row_is_skipped_and_later_rows_override() {
    let table = parse_csv("A,header\r\nA,first\r\n\r\nA,second\n,empty key\nlonely\n");
    assert_eq!(table.len(), 2);
    assert_eq!(csv_lookup(&table, "A").as_deref(), Some("second"));
    assert_eq!(csv_lookup(&table, ""), None);
    assert_eq!(csv_lookup(&table, "lonely"), None);
}

#[test]
fn csv_unterminated_quote_runs_to_the_end() {
    let table = parse_csv("k,v\nX,\"open, \"\"text");
    assert_eq!(csv_lookup(&table, "X").as_deref(), Some("open, \"text"));
}

#[test]
fn translation_falls_back_to_english() {
    let t = vec![
        ("next".to_string(), "Neste".to_string()),
        ("back".to_string(), "".to_string()),
        ("next".to_string(), "Videre".to_string()),
    ];
    assert_eq!(translate(true, Some(&t), "next", "Next"), "Next");
    assert_eq!(translate(false, None, "next", "Next"), "Next");
    // The last entry with the key wins.
    assert_eq!(translate(false, Some(&t), "next", "Next"), "Videre");
    // Empty or missing text: English.
    assert_eq!(translate(false, Some(&t), "back", "Back"), "Back");
    assert_eq!(translate(false, Some(&t), "menu", "Menu"), "Menu");
}
