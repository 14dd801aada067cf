use vstd::prelude::*;
use crate::language::text::{text, str_eq};

verus! {

/// The languages texts can be translated into.
#[derive(Debug, Clone, Copy, PartialEq, Eq, Structural, Hash)]
pub enum Language {
    Ru,
    En,
    Es,
    De,
    Fr,
    Zh,
    Ja,
    Ko,
    It,
    Tr,
    Ar,
}

/// The two-letter code of a language.
pub open spec fn language_code(l: Language) -> Seq<char> {
    match l {
        Language::Ar => "ar"@,
        Language::De => "de"@,
        Language::En => "en"@,
        Language::Es => "es"@,
        Language::Fr => "fr"@,
        Language::It => "it"@,
        Language::Ja => "ja"@,
        Language::Ko => "ko"@,
        Language::Ru => "ru"@,
        Language::Tr => "tr"@,
        Language::Zh => "zh"@,
    }
}

impl Language {
    /// The two-letter code of this language.
    pub fn as_str(&self) -> (r: &'static str)
        ensures
            r@ == language_code(*self),
    {
        match self {
            Language::Ar => "ar",
            Language::De => "de",
            Language::En => "en",
            Language::Es => "es",
            Language::Fr => "fr",
            Language::It => "it",
            Language::Ja => "ja",
            Language::Ko => "ko",
            Language::Ru => "ru",
            Language::Tr => "tr",
            Language::Zh => "zh",
        }
    }
}

/// The text stored for `key` in language `lang`: the one added last.
pub open spec fn lookup(items: Seq<(Seq<char>, Language, Seq<char>)>, key: Seq<char>, lang: Language) -> Option<Seq<char>>
    decreases items.len(),
{
    if items.len() == 0 {
        None
    } else if items.last().0 == key && items.last().1 == lang {
        Some(items.last().2)
    } else {
        lookup(items.drop_last(), key, lang)
    }
}

/// The translation of `key` into `lang`: the text for `lang`, else the
/// English text, else the key itself.
pub open spec fn translation(items: Seq<(Seq<char>, Language, Seq<char>)>, key: Seq<char>, lang: Language) -> Seq<char> {
    match lookup(items, key, lang) {
        Some(t) => t,
        None => match lookup(items, key, Language::En) {
            Some(t) => t,
            None => key,
        },
    }
}

/// Texts by key and language.
#[derive(Debug, Clone)]
pub struct I18n {
    items: Vec<(String, Language, String)>,
}

impl I18n {
    /// The texts added, oldest first.
    pub closed spec fn items(&self) -> Seq<(Seq<char>, Language, Seq<char>)> {
        self.items@.map_values(|t: (String, Language, String)| (t.0@, t.1, t.2@))
    }

    /// No texts.
    pub fn new() -> (r: I18n)
        ensures
            forall|k: Seq<char>, l: Language| lookup(r.items(), k, l) is None,
    {
        let r = I18n { items: Vec::new() };
        assert(r.items().len() == 0);
        r
    }

    /// Sets the text of `key` in `lang`.
    pub fn add_item(&mut self, key: &str, lang: Language, value: &str)
        ensures
            forall|k: Seq<char>, l: Language| #[trigger] lookup(final(self).items(), k, l)
                == (if k == key@ && l == lang { Some(value@) } else { lookup(old(self).items(), k, l) }),
    {
        self.items.push((text(key), lang, text(value)));
        assert(self.items().drop_last() =~= old(self).items());
    }

    /// The text stored for `key` in `lang`, if any.
    fn find(&self, key: &str, lang: Language) -> (r: Option<String>)
        ensures
            match r {
                Some(t) => lookup(self.items(), key@, lang) == Some(t@),
                None => lookup(self.items(), key@, lang) is None,
            },
    {
        let mut i = self.items.len();
        assert(self.items().subrange(0, i as int) =~= self.items());
        while i > 0
            invariant
                i <= self.items@.len(),
                lookup(self.items(), key@, lang) == lookup(self.items().subrange(0, i as int), key@, lang),
            decreases i,
        {
            let ghost s = self.items().subrange(0, i as int);
            assert(s.drop_last() =~= self.items().subrange(0, i - 1));
            let t = &self.items[i - 1];
            if str_eq(t.0.as_str(), key) && t.1 == lang {
                return Some(t.2.clone());
            }
            i = i - 1;
        }
        None
    }

    /// The translation of `key` into `lang` (see `translation`).
    pub fn translate(&self, key: &str, lang: Language) -> (r: String)
        ensures
            r@ == translation(self.items(), key@, lang),
    {
        match self.find(key, lang) {
            Some(t) => t,
            None => match self.find(key, Language::En) {
                Some(t) => t,
                None => text(key),
            },
        }
    }
}

} // verus!
