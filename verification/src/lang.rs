//! Interface languages: each language is an index into a fixed list of
//! language codes (BCP 47 tags) with the language's own name.

use vstd::prelude::*;
use crate::text::str_chars;

verus! {

/// Number of interface languages.
pub const LANG_COUNT: u8 = 31;

/// The language code of language `i` (0..31).
pub open spec fn lang_code_spec(i: int) -> Seq<char> {
    if i == 0 {
        "en"@
    } else if i == 1 {
        "no"@
    } else if i == 2 {
        "sv"@
    } else if i == 3 {
        "da"@
    } else if i == 4 {
        "fi"@
    } else if i == 5 {
        "is"@
    } else if i == 6 {
        "de"@
    } else if i == 7 {
        "fr"@
    } else if i == 8 {
        "es"@
    } else if i == 9 {
        "pt"@
    } else if i == 10 {
        "pt-BR"@
    } else if i == 11 {
        "it"@
    } else if i == 12 {
        "nl"@
    } else if i == 13 {
        "pl"@
    } else if i == 14 {
        "cs"@
    } else if i == 15 {
        "sk"@
    } else if i == 16 {
        "hu"@
    } else if i == 17 {
        "ro"@
    } else if i == 18 {
        "el"@
    } else if i == 19 {
        "tr"@
    } else if i == 20 {
        "uk"@
    } else if i == 21 {
        "ru"@
    } else if i == 22 {
        "bg"@
    } else if i == 23 {
        "hr"@
    } else if i == 24 {
        "sl"@
    } else if i == 25 {
        "ca"@
    } else if i == 26 {
        "zh-Hans"@
    } else if i == 27 {
        "zh-Hant"@
    } else if i == 28 {
        "ja"@
    } else if i == 29 {
        "ko"@
    } else {
        "vi"@
    }
}

/// The language's own name, as its speakers write it.
pub open spec fn lang_native_spec(i: int) -> Seq<char> {
    if i == 0 {
        "English"@
    } else if i == 1 {
        "Norsk bokmål"@
    } else if i == 2 {
        "Svenska"@
    } else if i == 3 {
        "Dansk"@
    } else if i == 4 {
        "Suomi"@
    } else if i == 5 {
        "Íslenska"@
    } else if i == 6 {
        "Deutsch"@
    } else if i == 7 {
        "Français"@
    } else if i == 8 {
        "Español"@
    } else if i == 9 {
        "Português"@
    } else if i == 10 {
        "Português (Brasil)"@
    } else if i == 11 {
        "Italiano"@
    } else if i == 12 {
        "Nederlands"@
    } else if i == 13 {
        "Polski"@
    } else if i == 14 {
        "Čeština"@
    } else if i == 15 {
        "Slovenčina"@
    } else if i == 16 {
        "Magyar"@
    } else if i == 17 {
        "Română"@
    } else if i == 18 {
        "Ελληνικά"@
    } else if i == 19 {
        "Türkçe"@
    } else if i == 20 {
        "Українська"@
    } else if i == 21 {
        "Русский"@
    } else if i == 22 {
        "Български"@
    } else if i == 23 {
        "Hrvatski"@
    } else if i == 24 {
        "Slovenščina"@
    } else if i == 25 {
        "Català"@
    } else if i == 26 {
        "简体中文"@
    } else if i == 27 {
        "繁體中文"@
    } else if i == 28 {
        "日本語"@
    } else if i == 29 {
        "한국어"@
    } else {
        "Tiếng Việt"@
    }
}

fn lang_code_at(i: u8) -> (r: &'static str)
    ensures
        r@ == lang_code_spec(i as int),
{
    if i == 0 {
        "en"
    } else if i == 1 {
        "no"
    } else if i == 2 {
        "sv"
    } else if i == 3 {
        "da"
    } else if i == 4 {
        "fi"
    } else if i == 5 {
        "is"
    } else if i == 6 {
        "de"
    } else if i == 7 {
        "fr"
    } else if i == 8 {
        "es"
    } else if i == 9 {
        "pt"
    } else if i == 10 {
        "pt-BR"
    } else if i == 11 {
        "it"
    } else if i == 12 {
        "nl"
    } else if i == 13 {
        "pl"
    } else if i == 14 {
        "cs"
    } else if i == 15 {
        "sk"
    } else if i == 16 {
        "hu"
    } else if i == 17 {
        "ro"
    } else if i == 18 {
        "el"
    } else if i == 19 {
        "tr"
    } else if i == 20 {
        "uk"
    } else if i == 21 {
        "ru"
    } else if i == 22 {
        "bg"
    } else if i == 23 {
        "hr"
    } else if i == 24 {
        "sl"
    } else if i == 25 {
        "ca"
    } else if i == 26 {
        "zh-Hans"
    } else if i == 27 {
        "zh-Hant"
    } else if i == 28 {
        "ja"
    } else if i == 29 {
        "ko"
    } else {
        "vi"
    }
}

fn lang_native_at(i: u8) -> (r: &'static str)
    ensures
        r@ == lang_native_spec(i as int),
{
    if i == 0 {
        "English"
    } else if i == 1 {
        "Norsk bokmål"
    } else if i == 2 {
        "Svenska"
    } else if i == 3 {
        "Dansk"
    } else if i == 4 {
        "Suomi"
    } else if i == 5 {
        "Íslenska"
    } else if i == 6 {
        "Deutsch"
    } else if i == 7 {
        "Français"
    } else if i == 8 {
        "Español"
    } else if i == 9 {
        "Português"
    } else if i == 10 {
        "Português (Brasil)"
    } else if i == 11 {
        "Italiano"
    } else if i == 12 {
        "Nederlands"
    } else if i == 13 {
        "Polski"
    } else if i == 14 {
        "Čeština"
    } else if i == 15 {
        "Slovenčina"
    } else if i == 16 {
        "Magyar"
    } else if i == 17 {
        "Română"
    } else if i == 18 {
        "Ελληνικά"
    } else if i == 19 {
        "Türkçe"
    } else if i == 20 {
        "Українська"
    } else if i == 21 {
        "Русский"
    } else if i == 22 {
        "Български"
    } else if i == 23 {
        "Hrvatski"
    } else if i == 24 {
        "Slovenščina"
    } else if i == 25 {
        "Català"
    } else if i == 26 {
        "简体中文"
    } else if i == 27 {
        "繁體中文"
    } else if i == 28 {
        "日本語"
    } else if i == 29 {
        "한국어"
    } else {
        "Tiếng Việt"
    }
}

/// Character-by-character string equality.
pub fn str_equal(a: &str, b: &str) -> (r: bool)
    ensures
        r == (a@ == b@),
{
    let x = str_chars(a);
    let y = str_chars(b);
    if x.len() != y.len() {
        return false;
    }
    let mut i: usize = 0;
    while i < x.len()
        invariant
            0 <= i <= x@.len(),
            x@.len() == y@.len(),
            x@ == a@,
            y@ == b@,
            forall|j: int| 0 <= j < i ==> x@[j] == y@[j],
        decreases x@.len() - i,
    {
        if x[i] != y[i] {
            assert(x@[i as int] != y@[i as int]);
            return false;
        }
        i += 1;
    }
    assert(x@ =~= y@);
    true
}

/// A language, by index into the language list.
#[derive(Clone, Copy, PartialEq, Eq, Structural, Debug)]
pub struct Lang(pub u8);

/// The list index a language uses: out-of-range indices mean the last
/// language.
pub open spec fn lang_index(l: Lang) -> int {
    if l.0 < LANG_COUNT {
        l.0 as int
    } else {
        LANG_COUNT - 1
    }
}

impl Lang {
    fn index(self) -> (i: u8)
        ensures
            i as int == lang_index(self),
    {
        if self.0 < LANG_COUNT {
            self.0
        } else {
            LANG_COUNT - 1
        }
    }

    /// The language's code.
    pub fn code(self) -> (r: &'static str)
        ensures
            r@ == lang_code_spec(lang_index(self)),
    {
        lang_code_at(self.index())
    }

    /// The language's own name.
    pub fn native(self) -> (r: &'static str)
        ensures
            r@ == lang_native_spec(lang_index(self)),
    {
        lang_native_at(self.index())
    }

    /// The first language with this code.
    pub fn from_code(code: &str) -> (r: Option<Lang>)
        ensures
            match r {
                Some(l) => l.0 < LANG_COUNT && lang_code_spec(l.0 as int) == code@ && forall|j: int|
                    0 <= j < l.0 ==> lang_code_spec(j) != code@,
                None => forall|j: int| 0 <= j < LANG_COUNT ==> lang_code_spec(j) != code@,
            },
            forall|j: int| 0 <= j < LANG_COUNT && #[trigger] lang_code_spec(j) == code@ ==> r == Some(
                Lang(j as u8),
            ),
    {
        let mut i: u8 = 0;
        while i < LANG_COUNT
            invariant
                0 <= i <= LANG_COUNT,
                forall|j: int| 0 <= j < i ==> lang_code_spec(j) != code@,
            decreases LANG_COUNT - i,
        {
            if str_equal(lang_code_at(i), code) {
                proof {
                    assert forall|j: int| 0 <= j < LANG_COUNT && #[trigger] lang_code_spec(j) == code@ implies Some(
                        Lang(i),
                    ) == Some(Lang(j as u8)) by {
                        lemma_lang_codes_unique(i as int, j);
                    }
                }
                return Some(Lang(i));
            }
            i += 1;
        }
        None
    }
}


/// Law: language codes are unique, so every language is the one its code
/// resolves to.
pub proof fn lemma_lang_codes_unique(i: int, j: int)
    requires
        0 <= i < LANG_COUNT,
        0 <= j < LANG_COUNT,
        lang_code_spec(i) == lang_code_spec(j),
    ensures
        i == j,
{
    reveal_strlit("en");
    reveal_strlit("no");
    reveal_strlit("sv");
    reveal_strlit("da");
    reveal_strlit("fi");
    reveal_strlit("is");
    reveal_strlit("de");
    reveal_strlit("fr");
    reveal_strlit("es");
    reveal_strlit("pt");
    reveal_strlit("pt-BR");
    reveal_strlit("it");
    reveal_strlit("nl");
    reveal_strlit("pl");
    reveal_strlit("cs");
    reveal_strlit("sk");
    reveal_strlit("hu");
    reveal_strlit("ro");
    reveal_strlit("el");
    reveal_strlit("tr");
    reveal_strlit("uk");
    reveal_strlit("ru");
    reveal_strlit("bg");
    reveal_strlit("hr");
    reveal_strlit("sl");
    reveal_strlit("ca");
    reveal_strlit("zh-Hans");
    reveal_strlit("zh-Hant");
    reveal_strlit("ja");
    reveal_strlit("ko");
    reveal_strlit("vi");
    let a = lang_code_spec(i);
    let b = lang_code_spec(j);
    assert(a.len() == b.len() && a[0] == b[0] && a[1] == b[1] && a[a.len() - 1] == b[b.len() - 1]);
}

} // verus!
