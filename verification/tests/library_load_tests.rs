//! Building the library from the file's entries.

use cube_core::library::{CaseEntry, LoadError, Library};
use cube_core::{CaseSet, RecogKind};

fn entry(id: &str, set: &str, moves: &str, recognition: &str) -> CaseEntry {
    CaseEntry {
        id: id.to_string(),
        set: set.to_string(),
        name: format!("{id} name"),
        group: "g".to_string(),
        moves: moves.to_string(),
        recognition: recognition.to_string(),
    }
}

#[test]
fn entries_become_cases() {
    let lib = Library::from_entries(&vec![
        entry("oll-27", "OLL", "R U R' U R U2 R'", "oll"),
        entry("pll-t", "PLL", "R U R' U' R' F R2 U' R' U' R U R' F'", "pll"),
        entry("lbl-1", "Beginner", "R U R' U'", "none"),
    ])
    .expect("loads");
    assert_eq!(lib.rec.defs().len(), 3);
    assert_eq!(lib.rec.case(0).set, CaseSet::Oll);
    assert_eq!(lib.rec.case(1).recognition, RecogKind::Pll);
    assert_eq!(lib.rec.case(2).set, CaseSet::Lbl);
    assert_eq!(lib.rec.case(2).recognition, RecogKind::Manual);
    assert_eq!(lib.rec.case(1).name, "pll-t name");
    assert_eq!(lib.cases_in_set(CaseSet::Pll), vec![1]);
}

#[test]
fn bad_moves_name_their_case() {
    let r = Library::from_entries(&vec![
        entry("oll-27", "OLL", "R U R' U R U2 R'", "oll"),
        entry("oops", "OLL", "R Q", "oll"),
    ]);
    match r {
        Err(LoadError::Moves { id, .. }) => assert_eq!(id, "oops"),
        _ => panic!("expected a notation error"),
    }
}

#[test]
fn colliding_cases_are_refused() {
    let r = Library::from_entries(&vec![
        entry("a", "OLL", "R U R' U R U2 R'", "oll"),
        entry("b", "OLL", "R U R' U R U2 R'", "oll"),
    ]);
    assert!(matches!(r, Err(LoadError::Library(_))));
}
