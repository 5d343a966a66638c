//! Plain logic behind the app's screens: time formatting, picker tabs,
//! training attempts and the sticker-color cycle of the net editor.

use vstd::prelude::*;
use std::collections::HashSet;
use crate::cases::CaseSet;
use crate::facelet::Face;
use crate::moves::Turns;
use crate::text::{decimal, digit, digit_char, push_decimal, string_push};

verus! {

broadcast use vstd::std_specs::hash::group_hash_axioms;

/// `ms` milliseconds as seconds with two decimals: whole seconds, a dot,
/// then the hundredths (truncated), always two digits.
pub open spec fn format_ms_spec(ms: u64) -> Seq<char> {
    let h = ((ms % 1000) / 10) as nat;
    decimal((ms / 1000) as nat) + seq!['.', digit_char(h / 10), digit_char(h % 10)]
}

/// Milliseconds as seconds with two decimals ("12.34").
pub fn format_ms(ms: u64) -> (r: String)
    ensures
        r@ == format_ms_spec(ms),
{
    let mut out = String::new();
    push_decimal(&mut out, ms / 1000);
    string_push(&mut out, '.');
    let h = (ms % 1000) / 10;
    string_push(&mut out, digit(h / 10));
    string_push(&mut out, digit(h % 10));
    assert(out@ =~= format_ms_spec(ms));
    out
}

/// One timed training attempt.
#[derive(Clone, Copy, PartialEq, Eq, Structural, Debug)]
pub struct Attempt {
    pub ms: u64,
    pub success: bool,
}

/// A tab of the training picker.
#[derive(Clone, Copy, PartialEq, Eq, Structural, Debug)]
pub enum PickerTab {
    /// Beginner lessons: the "start here" tab.
    Intro,
    Cases(CaseSet),
}

/// The label of a case set's picker tab.
pub open spec fn set_tab_label_spec(set: CaseSet) -> Seq<char> {
    match set {
        CaseSet::Pll => "PLL"@,
        CaseSet::Oll => "OLL"@,
        CaseSet::F2l => "F2L"@,
        CaseSet::Lbl => "ABC"@,
    }
}

pub fn set_tab_label(set: CaseSet) -> (r: &'static str)
    ensures
        r@ == set_tab_label_spec(set),
{
    match set {
        CaseSet::Pll => "PLL",
        CaseSet::Oll => "OLL",
        CaseSet::F2l => "F2L",
        CaseSet::Lbl => "ABC",
    }
}

/// The next sticker color when editing the net: one step forward (or
/// back) through U R F D L B, wrapping around.
pub fn next_color(c: Face, backwards: bool) -> (r: Face)
    ensures
        r.ord() == if backwards {
            (c.ord() + 5) % 6
        } else {
            (c.ord() + 1) % 6
        },
{
    let i = c.index();
    let j = if backwards {
        (i + 5) % 6
    } else {
        (i + 1) % 6
    };
    Face::from_index(j)
}

/// How the solve guide uses trained algorithms.
#[derive(Clone, Copy, PartialEq, Eq, Structural, Debug)]
pub enum HintMode {
    /// Star chips and every move shown.
    Full,
    /// Practice stop: the guide halts at a chosen algorithm, shows only its
    /// name, and the user executes it from memory.
    Practice,
    /// Pure shortest solution, no algorithm weaving.
    Off,
}

/// The solve guide's settings.
#[derive(Clone, Debug)]
pub struct HintSettings {
    pub mode: HintMode,
    /// Hard cap on extra moves over the shortest solution (0..=12).
    pub max_extra: usize,
    /// Preferred algorithms in priority order (highest first).
    pub preferred: Vec<u16>,
}

impl Default for HintSettings {
    fn default() -> (r: HintSettings)
        ensures
            r.mode == HintMode::Full,
            r.max_extra == 6,
            r.preferred@.len() == 0,
    {
        HintSettings { mode: HintMode::Full, max_extra: 6, preferred: Vec::new() }
    }
}

/// Where the settings screen was opened from.
#[derive(Clone, Copy, PartialEq, Eq, Structural, Debug)]
pub enum SettingsFocus {
    /// From the front page or Solve: guide behaviour and priority.
    General,
    /// From Play: which algorithms to drill, and how the practice shuffle
    /// is built.
    Play,
}

/// Loading state of the solver table.
#[derive(Clone, Debug)]
pub enum TableState {
    Loading,
    Ready,
    Failed(String),
}

/// A screen-space arrow direction.
#[derive(Clone, Copy, PartialEq, Eq, Structural, Debug)]
pub enum ArrowDir {
    Left,
    Right,
    Up,
    Down,
}


/// The two turn arrows of a selected layer, from the screen motion of the
/// layer's near side under a clockwise turn: `horizontal` when that motion
/// is mostly horizontal, `positive` when it points right (horizontal) or
/// up (vertical). Each arrow comes with the turn that moves the near side
/// its way.
pub open spec fn turn_arrows_spec(horizontal: bool, positive: bool) -> [(ArrowDir, Turns); 2] {
    let along = if positive { Turns::Cw } else { Turns::Ccw };
    let against = if positive { Turns::Ccw } else { Turns::Cw };
    if horizontal {
        [(ArrowDir::Left, against), (ArrowDir::Right, along)]
    } else {
        [(ArrowDir::Up, along), (ArrowDir::Down, against)]
    }
}

/// The two turn arrows of a selected layer (see `turn_arrows_spec`).
pub fn turn_arrows(horizontal: bool, positive: bool) -> (r: [(ArrowDir, Turns); 2])
    ensures
        r == turn_arrows_spec(horizontal, positive),
{
    let along = if positive {
        Turns::Cw
    } else {
        Turns::Ccw
    };
    let against = along.inverse();
    if horizontal {
        [(ArrowDir::Left, against), (ArrowDir::Right, along)]
    } else {
        [(ArrowDir::Up, along), (ArrowDir::Down, against)]
    }
}


/// `v` without any occurrence of `c`.
pub open spec fn without(v: Seq<u16>, c: u16) -> Seq<u16> {
    v.filter(|x: u16| x != c)
}

/// Toggles whether a case is trained and keeps the guide's preferred list
/// in step: a newly trained case joins at the lowest priority (unless it
/// is already listed); a case no longer trained leaves the list. Returns
/// whether the case is trained now.
pub fn toggle_trained(trained: &mut HashSet<u16>, hints: &mut HintSettings, case_idx: u16) -> (now: bool)
    ensures
        now == !old(trained)@.contains(case_idx),
        final(trained)@ == (if now {
            old(trained)@.insert(case_idx)
        } else {
            old(trained)@.remove(case_idx)
        }),
        final(hints).mode == old(hints).mode,
        final(hints).max_extra == old(hints).max_extra,
        final(hints).preferred@ == (if !now {
            without(old(hints).preferred@, case_idx)
        } else if old(hints).preferred@.contains(case_idx) {
            old(hints).preferred@
        } else {
            old(hints).preferred@.push(case_idx)
        }),
{
    let now = if trained.contains(&case_idx) {
        trained.remove(&case_idx);
        false
    } else {
        trained.insert(case_idx);
        true
    };
    if now {
        let mut listed = false;
        let mut i: usize = 0;
        while i < hints.preferred.len()
            invariant
                0 <= i <= hints.preferred@.len(),
                listed <==> exists|j: int| 0 <= j < i && hints.preferred@[j] == case_idx,
            decreases hints.preferred@.len() - i,
        {
            if hints.preferred[i] == case_idx {
                listed = true;
            }
            i += 1;
        }
        if !listed {
            hints.preferred.push(case_idx);
        } else {
            proof {
                let j = choose|j: int| 0 <= j < i && hints.preferred@[j] == case_idx;
                assert(hints.preferred@.contains(case_idx));
            }
        }
    } else {
        let old_list = Ghost(hints.preferred@);
        let mut kept: Vec<u16> = Vec::new();
        let mut i: usize = 0;
        while i < hints.preferred.len()
            invariant
                0 <= i <= hints.preferred@.len(),
                hints.preferred@ == old_list@,
                kept@ == without(old_list@.take(i as int), case_idx),
            decreases hints.preferred@.len() - i,
        {
            let c = hints.preferred[i];
            proof {
                let t = old_list@.take(i as int + 1);
                assert(t.drop_last() =~= old_list@.take(i as int));
                assert(t.last() == c);
                reveal(Seq::filter);
            }
            if c != case_idx {
                kept.push(c);
            }
            i += 1;
        }
        proof {
            assert(old_list@.take(old_list@.len() as int) =~= old_list@);
        }
        hints.preferred = kept;
    }
    now
}

} // verus!
