//! Interface rules: time formatting, tab labels, the net editor's color
//! cycle, the guide's settings and the trained-case toggle.

use cube_core::ui::{format_ms, next_color, set_tab_label, toggle_trained, HintMode, HintSettings};
use cube_core::{CaseSet, Face};
use std::collections::HashSet;

#[test]
fn times_show_seconds_and_truncated_hundredths() {
    assert_eq!(format_ms(0), "0.00");
    assert_eq!(format_ms(5), "0.00");
    assert_eq!(format_ms(1234), "1.23");
    assert_eq!(format_ms(1239), "1.23");
    assert_eq!(format_ms(60_050), "60.05");
    assert_eq!(format_ms(987_654), "987.65");
}

#[test]
fn tab_labels_name_the_sets() {
    assert_eq!(set_tab_label(CaseSet::Pll), "PLL");
    assert_eq!(set_tab_label(CaseSet::Oll), "OLL");
    assert_eq!(set_tab_label(CaseSet::F2l), "F2L");
    assert_eq!(set_tab_label(CaseSet::Lbl), "ABC");
}

#[test]
fn net_colors_cycle_both_ways() {
    assert_eq!(next_color(Face::U, false), Face::R);
    assert_eq!(next_color(Face::B, false), Face::U);
    assert_eq!(next_color(Face::U, true), Face::B);
    assert_eq!(next_color(Face::R, true), Face::U);
    for f in [Face::U, Face::R, Face::F, Face::D, Face::L, Face::B] {
        assert_eq!(next_color(next_color(f, false), true), f);
    }
}

#[test]
fn default_hint_settings() {
    let h = HintSettings::default();
    assert_eq!(h.mode, HintMode::Full);
    assert_eq!(h.max_extra, 6);
    assert!(h.preferred.is_empty());
}

#[test]
fn toggling_trained_keeps_the_preferred_list_in_step() {
    let mut trained: HashSet<u16> = HashSet::new();
    let mut hints = HintSettings { mode: HintMode::Practice, max_extra: 4, preferred: vec![7, 3] };
    // Newly trained: joins at the lowest priority.
    assert!(toggle_trained(&mut trained, &mut hints, 5));
    assert!(trained.contains(&5));
    assert_eq!(hints.preferred, vec![7, 3, 5]);
    // Already listed: not added twice.
    assert!(toggle_trained(&mut trained, &mut hints, 3));
    assert_eq!(hints.preferred, vec![7, 3, 5]);
    // No longer trained: leaves the list.
    assert!(!toggle_trained(&mut trained, &mut hints, 3));
    assert!(!trained.contains(&3));
    assert_eq!(hints.preferred, vec![7, 5]);
    assert_eq!(hints.mode, HintMode::Practice);
    assert_eq!(hints.max_extra, 4);
}
