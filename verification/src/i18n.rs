//! The language of the user interface.
//!
//! Only the choice of language stands here. The words are kept where they are
//! produced, each beside its other language.

use vstd::prelude::*;

verus! {

/// The language of the user interface.
#[derive(Debug, Clone, Copy, PartialEq, Eq, Structural)]
pub enum Lang {
    /// Japanese, the default.
    Ja,
    /// English.
    En,
}

impl Default for Lang {
    fn default() -> (r: Lang)
        ensures
            r == Lang::Ja,
    {
        Lang::Ja
    }
}

/// The words of a language.
pub open spec fn picked(lang: Lang, ja: Seq<char>, en: Seq<char>) -> Seq<char> {
    match lang {
        Lang::Ja => ja,
        Lang::En => en,
    }
}

/// The words of a language.
pub(crate) fn pick<'a>(lang: Lang, ja: &'a str, en: &'a str) -> (r: &'a str)
    ensures
        r@ == picked(lang, ja@, en@),
{
    match lang {
        Lang::Ja => ja,
        Lang::En => en,
    }
}

} // verus!
