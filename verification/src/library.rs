//! The algorithm library: the recognizer built from the case list, and the
//! names the library file uses for case sets and recognition kinds.

use vstd::prelude::*;
use crate::cases::{library_ok, reports, CaseDef, CaseSet, LibraryError, RecogKind, Recognizer};
use crate::lang::str_equal;
use crate::moves::{Alg, Move};
use crate::notation::{parse_spec, ParseError};

verus! {

/// The case set a library file names: "PLL", "OLL", "F2L", anything else
/// is a beginner (layer-by-layer) case.
pub open spec fn case_set_from_name_spec(name: Seq<char>) -> CaseSet {
    if name == "PLL"@ {
        CaseSet::Pll
    } else if name == "OLL"@ {
        CaseSet::Oll
    } else if name == "F2L"@ {
        CaseSet::F2l
    } else {
        CaseSet::Lbl
    }
}

pub fn case_set_from_name(name: &str) -> (r: CaseSet)
    ensures
        r == case_set_from_name_spec(name@),
{
    if str_equal(name, "PLL") {
        CaseSet::Pll
    } else if str_equal(name, "OLL") {
        CaseSet::Oll
    } else if str_equal(name, "F2L") {
        CaseSet::F2l
    } else {
        CaseSet::Lbl
    }
}

/// The recognition kind a library file names: "oll", "pll", "f2l",
/// anything else means no automatic recognition.
pub open spec fn recognition_from_name_spec(name: Seq<char>) -> RecogKind {
    if name == "oll"@ {
        RecogKind::Oll
    } else if name == "pll"@ {
        RecogKind::Pll
    } else if name == "f2l"@ {
        RecogKind::F2l
    } else {
        RecogKind::Manual
    }
}

pub fn recognition_from_name(name: &str) -> (r: RecogKind)
    ensures
        r == recognition_from_name_spec(name@),
{
    if str_equal(name, "oll") {
        RecogKind::Oll
    } else if str_equal(name, "pll") {
        RecogKind::Pll
    } else if str_equal(name, "f2l") {
        RecogKind::F2l
    } else {
        RecogKind::Manual
    }
}

/// One case as the library file lists it.
pub struct CaseEntry {
    pub id: String,
    pub set: String,
    pub name: String,
    pub group: String,
    pub moves: String,
    pub recognition: String,
}

/// Why a library file does not load.
#[derive(Debug)]
pub enum LoadError {
    /// A case's moves are not valid notation.
    Moves { id: String, error: ParseError },
    /// The cases do not pass the recognizer's checks.
    Library(LibraryError),
}

/// `d` is the case `e` describes.
pub open spec fn describes(e: CaseEntry, d: CaseDef) -> bool {
    &&& d.id@ == e.id@
    &&& d.name@ == e.name@
    &&& d.group@ == e.group@
    &&& d.set == case_set_from_name_spec(e.set@)
    &&& d.recognition == recognition_from_name_spec(e.recognition@)
    &&& parse_spec(e.moves@) == Ok::<Seq<Move>, (int, Seq<char>)>(d.alg@)
}

/// The moves of every entry parse.
pub open spec fn entries_parse(es: Seq<CaseEntry>) -> bool {
    forall|i: int| 0 <= i < es.len() ==> (#[trigger] parse_spec(es[i].moves@)) is Ok
}

/// `ds` lists the cases `es` describe.
pub open spec fn describes_all(es: Seq<CaseEntry>, ds: Seq<CaseDef>) -> bool {
    &&& ds.len() == es.len()
    &&& forall|i: int| 0 <= i < es.len() ==> describes(#[trigger] es[i], ds[i])
}

fn copy_string(s: &String) -> (r: String)
    ensures
        r@ == s@,
{
    s.clone()
}

/// The loaded algorithm library.
pub struct Library {
    pub rec: Recognizer,
}

impl Library {
    /// Builds the library from the file's entries: each entry's moves are
    /// parsed and its set and recognition names read, then the recognizer
    /// checks the cases.
    pub fn from_entries(entries: &Vec<CaseEntry>) -> (r: Result<Library, LoadError>)
        requires
            entries@.len() < 65536,
        ensures
            r matches Ok(lib) ==> entries_parse(entries@) && describes_all(entries@, lib.rec.cases())
                && lib.rec.wf() && library_ok(lib.rec.cases()),
            r matches Err(LoadError::Moves { id, .. }) ==> exists|i: int|
                0 <= i < entries@.len() && entries@[i].id@ == id@ && (#[trigger] parse_spec(
                    entries@[i].moves@,
                )) is Err && entries_parse(entries@.take(i)),
            r matches Err(LoadError::Library(e)) ==> entries_parse(entries@) && exists|ds: Seq<CaseDef>|
                describes_all(entries@, ds) && !library_ok(ds) && reports(ds, e),
    {
        let mut defs: Vec<CaseDef> = Vec::new();
        let mut i: usize = 0;
        while i < entries.len()
            invariant
                0 <= i <= entries@.len(),
                entries@.len() < 65536,
                defs@.len() == i,
                entries_parse(entries@.take(i as int)),
                forall|j: int| 0 <= j < i ==> describes(#[trigger] entries@[j], defs@[j]),
            decreases entries@.len() - i,
        {
            let e = &entries[i];
            let alg = match Alg::parse(e.moves.as_str()) {
                Ok(a) => a,
                Err(error) => {
                    return Err(LoadError::Moves { id: copy_string(&e.id), error });
                },
            };
            let d = CaseDef {
                id: copy_string(&e.id),
                set: case_set_from_name(e.set.as_str()),
                name: copy_string(&e.name),
                group: copy_string(&e.group),
                alg,
                recognition: recognition_from_name(e.recognition.as_str()),
            };
            defs.push(d);
            proof {
                assert forall|j: int| 0 <= j < i + 1 implies (#[trigger] parse_spec(
                    entries@.take(i + 1)[j].moves@,
                )) is Ok by {
                    if j < i {
                        assert(entries@.take(i + 1)[j] == entries@.take(i as int)[j]);
                    } else {
                        assert(describes(entries@[j], defs@[j]));
                    }
                }
            }
            i += 1;
        }
        assert(entries@.take(entries@.len() as int) =~= entries@);
        let ghost ds = defs@;
        assert(describes_all(entries@, ds));
        match Recognizer::new(defs) {
            Ok(rec) => Ok(Library { rec }),
            Err(e) => Err(LoadError::Library(e)),
        }
    }

    /// Indices of the cases of one set, in library order.
    pub fn cases_in_set(&self, set: CaseSet) -> (r: Vec<u16>)
        requires
            self.rec.wf(),
        ensures
            forall|k: int| 0 <= k < r@.len() ==> (#[trigger] r@[k]) < self.rec.cases().len()
                && self.rec.cases()[r@[k] as int].set == set,
            forall|a: int, b: int| 0 <= a < b < r@.len() ==> r@[a] < r@[b],
            forall|i: int|
                0 <= i < self.rec.cases().len() && (#[trigger] self.rec.cases()[i]).set == set
                    ==> r@.contains(i as u16),
    {
        let n = self.rec.defs().len();
        let mut out: Vec<u16> = Vec::new();
        let mut i: usize = 0;
        while i < n
            invariant
                0 <= i <= n,
                n == self.rec.cases().len(),
                n < 65536,
                forall|k: int| 0 <= k < out@.len() ==> (#[trigger] out@[k]) < i
                    && self.rec.cases()[out@[k] as int].set == set,
                forall|a: int, b: int| 0 <= a < b < out@.len() ==> out@[a] < out@[b],
                forall|j: int|
                    0 <= j < i && (#[trigger] self.rec.cases()[j]).set == set ==> out@.contains(j as u16),
            decreases n - i,
        {
            if self.rec.case(i as u16).set == set {
                let ghost before = out@;
                out.push(i as u16);
                proof {
                    assert(out@[before.len() as int] == i as u16);
                    assert forall|j: int|
                        0 <= j < i + 1 && (#[trigger] self.rec.cases()[j]).set == set implies out@.contains(j as u16) by {
                        if j < i {
                            let k = choose|k: int| 0 <= k < before.len() && before[k] == j as u16;
                            assert(out@[k] == j as u16);
                        } else {
                            assert(out@[before.len() as int] == j as u16);
                        }
                    }
                }
            }
            i += 1;
        }
        out
    }
}

} // verus!
