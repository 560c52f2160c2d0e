//! Which translation table serves a locale code.
use vstd::prelude::*;

use crate::text::{has_prefix, str_starts_with};

verus! {

/// The languages that have a translation table.
#[derive(Debug, PartialEq, Eq, Clone, Copy)]
pub enum Language {
    Zh,
    Es,
    De,
    Ja,
    Fr,
    Pt,
    Ru,
    En,
}

/// The table for the locale `lang`, chosen by its prefix (`"de-AT"` reads
/// German); English for every other locale.
pub open spec fn language_of(lang: Seq<char>) -> Language {
    if has_prefix(lang, "zh"@) {
        Language::Zh
    } else if has_prefix(lang, "es"@) {
        Language::Es
    } else if has_prefix(lang, "de"@) {
        Language::De
    } else if has_prefix(lang, "ja"@) {
        Language::Ja
    } else if has_prefix(lang, "fr"@) {
        Language::Fr
    } else if has_prefix(lang, "pt"@) {
        Language::Pt
    } else if has_prefix(lang, "ru"@) {
        Language::Ru
    } else {
        Language::En
    }
}

/// The code of `l`'s table.
pub open spec fn code_of(l: Language) -> Seq<char> {
    match l {
        Language::Zh => "zh"@,
        Language::Es => "es"@,
        Language::De => "de"@,
        Language::Ja => "ja"@,
        Language::Fr => "fr"@,
        Language::Pt => "pt"@,
        Language::Ru => "ru"@,
        Language::En => "en"@,
    }
}

/// A locale that begins with the code of one of the zh, es, de, ja, fr, pt
/// and ru tables is served by that table: the chosen table's code is the
/// locale's own two-letter prefix.
pub proof fn law_locale_prefix_picks_its_table(lang: Seq<char>)
    ensures
        has_prefix(lang, "zh"@) ==> language_of(lang) == Language::Zh,
        has_prefix(lang, "es"@) ==> language_of(lang) == Language::Es,
        has_prefix(lang, "de"@) ==> language_of(lang) == Language::De,
        has_prefix(lang, "ja"@) ==> language_of(lang) == Language::Ja,
        has_prefix(lang, "fr"@) ==> language_of(lang) == Language::Fr,
        has_prefix(lang, "pt"@) ==> language_of(lang) == Language::Pt,
        has_prefix(lang, "ru"@) ==> language_of(lang) == Language::Ru,
        language_of(lang) != Language::En ==> has_prefix(lang, code_of(language_of(lang))),
{
    reveal_strlit("zh");
    reveal_strlit("es");
    reveal_strlit("de");
    reveal_strlit("ja");
    reveal_strlit("fr");
    reveal_strlit("pt");
    reveal_strlit("ru");
    lemma_two_letter_prefix(lang, "zh"@);
    lemma_two_letter_prefix(lang, "es"@);
    lemma_two_letter_prefix(lang, "de"@);
    lemma_two_letter_prefix(lang, "ja"@);
    lemma_two_letter_prefix(lang, "fr"@);
    lemma_two_letter_prefix(lang, "pt"@);
    lemma_two_letter_prefix(lang, "ru"@);
}

/// A two-letter prefix is a matter of the first two characters.
proof fn lemma_two_letter_prefix(lang: Seq<char>, p: Seq<char>)
    requires
        p.len() == 2,
    ensures
        has_prefix(lang, p) <==> (lang.len() >= 2 && lang[0] == p[0] && lang[1] == p[1]),
{
    if lang.len() >= 2 && lang[0] == p[0] && lang[1] == p[1] {
        assert(lang.take(2) =~= p);
    }
    if has_prefix(lang, p) {
        assert(lang.take(2)[0] == p[0]);
        assert(lang.take(2)[1] == p[1]);
    }
}

/// The translation table that serves the locale code `lang`.
pub fn language_for(lang: &str) -> (l: Language)
    ensures
        l == language_of(lang@),
        has_prefix(lang@, "zh"@) ==> l == Language::Zh,
        has_prefix(lang@, "es"@) ==> l == Language::Es,
        has_prefix(lang@, "de"@) ==> l == Language::De,
        has_prefix(lang@, "ja"@) ==> l == Language::Ja,
        has_prefix(lang@, "fr"@) ==> l == Language::Fr,
        has_prefix(lang@, "pt"@) ==> l == Language::Pt,
        has_prefix(lang@, "ru"@) ==> l == Language::Ru,
{
    proof {
        law_locale_prefix_picks_its_table(lang@);
    }
    if str_starts_with(lang, "zh") {
        Language::Zh
    } else if str_starts_with(lang, "es") {
        Language::Es
    } else if str_starts_with(lang, "de") {
        Language::De
    } else if str_starts_with(lang, "ja") {
        Language::Ja
    } else if str_starts_with(lang, "fr") {
        Language::Fr
    } else if str_starts_with(lang, "pt") {
        Language::Pt
    } else if str_starts_with(lang, "ru") {
        Language::Ru
    } else {
        Language::En
    }
}

impl Language {
    /// The two-letter code of the language.
    pub fn code(&self) -> (c: &'static str)
        ensures
            c@ == match self {
                Language::Zh => "zh"@,
                Language::Es => "es"@,
                Language::De => "de"@,
                Language::Ja => "ja"@,
                Language::Fr => "fr"@,
                Language::Pt => "pt"@,
                Language::Ru => "ru"@,
                Language::En => "en"@,
            },
    {
        match self {
            Language::Zh => "zh",
            Language::Es => "es",
            Language::De => "de",
            Language::Ja => "ja",
            Language::Fr => "fr",
            Language::Pt => "pt",
            Language::Ru => "ru",
            Language::En => "en",
        }
    }
}

/// The text shown for `key`: its translation when the table has one, the
/// key itself otherwise, so that the interface never goes blank.
pub fn translated_or_key(found: Option<&str>, key: &str) -> (t: String)
    ensures
        t@ == match found {
            Some(f) => f@,
            None => key@,
        },
{
    match found {
        Some(f) => String::from_str(f),
        None => String::from_str(key),
    }
}

} // verus!
