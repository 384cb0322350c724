//! The languages of the interface.

use vstd::prelude::*;

use crate::text::same;

verus! {

/// A language of the interface.
#[derive(Clone, Copy, Debug, PartialEq, Eq, Structural)]
pub enum Lang {
    Zh,
    En,
    Ko,
    Ja,
    Fr,
}

/// The code of a language.
pub open spec fn code_of(lang: Lang) -> Seq<char> {
    match lang {
        Lang::Zh => "zh"@,
        Lang::En => "en"@,
        Lang::Ko => "ko"@,
        Lang::Ja => "ja"@,
        Lang::Fr => "fr"@,
    }
}

/// The language that comes after another one.
pub open spec fn after(lang: Lang) -> Lang {
    match lang {
        Lang::Zh => Lang::En,
        Lang::En => Lang::Ko,
        Lang::Ko => Lang::Ja,
        Lang::Ja => Lang::Fr,
        Lang::Fr => Lang::Zh,
    }
}

/// The codes are all different.
pub proof fn codes_differ(a: Lang, b: Lang)
    ensures
        code_of(a) == code_of(b) ==> a == b,
{
    reveal_strlit("zh");
    reveal_strlit("en");
    reveal_strlit("ko");
    reveal_strlit("ja");
    reveal_strlit("fr");
    assert(code_of(a)[0] == code_of(b)[0] && code_of(a)[1] == code_of(b)[1] ==> a == b);
}

/// Five steps lead through all languages and back.
pub proof fn languages_go_round(lang: Lang)
    ensures
        after(after(after(after(after(lang))))) == lang,
        forall|other: Lang|
            #![trigger code_of(other)]
            other == lang || other == after(lang) || other == after(after(lang)) || other == after(
                after(after(lang)),
            ) || other == after(after(after(after(lang)))),
{
}

impl Lang {
    /// The code of the language.
    pub fn code(&self) -> (code: &'static str)
        ensures
            code@ == code_of(*self),
    {
        match self {
            Lang::Zh => "zh",
            Lang::En => "en",
            Lang::Ko => "ko",
            Lang::Ja => "ja",
            Lang::Fr => "fr",
        }
    }

    /// The language with a code; `None` where no language has it.
    pub fn from_code(code: &str) -> (lang: Option<Lang>)
        ensures
            match lang {
                Some(lang) => code_of(lang) == code@,
                None => forall|lang: Lang| code_of(lang) != code@,
            },
    {
        if same(code, "zh") {
            Some(Lang::Zh)
        } else if same(code, "en") {
            Some(Lang::En)
        } else if same(code, "ko") {
            Some(Lang::Ko)
        } else if same(code, "ja") {
            Some(Lang::Ja)
        } else if same(code, "fr") {
            Some(Lang::Fr)
        } else {
            None
        }
    }

    /// The next language.
    pub fn next(&self) -> (lang: Lang)
        ensures
            lang == after(*self),
    {
        match self {
            Lang::Zh => Lang::En,
            Lang::En => Lang::Ko,
            Lang::Ko => Lang::Ja,
            Lang::Ja => Lang::Fr,
            Lang::Fr => Lang::Zh,
        }
    }
}

/// The code of a language is the two letters that it is known by everywhere.
pub proof fn codes_are_the_common_ones(lang: Lang)
    ensures
        code_of(lang) == match lang {
            Lang::Zh => seq!['z', 'h'],
            Lang::En => seq!['e', 'n'],
            Lang::Ko => seq!['k', 'o'],
            Lang::Ja => seq!['j', 'a'],
            Lang::Fr => seq!['f', 'r'],
        },
{
    reveal_strlit("zh");
    reveal_strlit("en");
    reveal_strlit("ko");
    reveal_strlit("ja");
    reveal_strlit("fr");
    assert("zh"@ =~= seq!['z', 'h']);
    assert("en"@ =~= seq!['e', 'n']);
    assert("ko"@ =~= seq!['k', 'o']);
    assert("ja"@ =~= seq!['j', 'a']);
    assert("fr"@ =~= seq!['f', 'r']);
}

/// The languages are offered in this order: Chinese, English, Korean, Japanese, French.
pub proof fn languages_follow_each_other()
    ensures
        after(Lang::Zh) == Lang::En,
        after(Lang::En) == Lang::Ko,
        after(Lang::Ko) == Lang::Ja,
        after(Lang::Ja) == Lang::Fr,
        after(Lang::Fr) == Lang::Zh,
{
}

} // verus!
