use vstd::prelude::*;

use vstd::string::StrSliceExecFns;

verus! {

/// The code point of `c` with an ASCII capital letter folded to lower case.
pub open spec fn lower_u32(c: char) -> u32 {
    if 65 <= c as u32 <= 90 {
        (c as u32 + 32) as u32
    } else {
        c as u32
    }
}

/// ASCII-case-insensitive character equality.
pub open spec fn ci_eq(a: char, b: char) -> bool {
    lower_u32(a) == lower_u32(b)
}

/// The position of the first occurrence of `c` in `s`, or -1.
pub open spec fn spec_find(s: Seq<char>, c: char) -> int
    decreases s.len(),
{
    if s.len() == 0 {
        -1
    } else if s[0] == c {
        0
    } else {
        let r = spec_find(s.drop_first(), c);
        if r == -1 {
            -1
        } else {
            r + 1
        }
    }
}

/// `spec_find` names the first occurrence: before it the character is absent,
/// and -1 means it is absent altogether.
pub proof fn lemma_spec_find(s: Seq<char>, c: char)
    ensures
        spec_find(s, c) == -1 ==> forall|i: int| 0 <= i < s.len() ==> s[i] != c,
        spec_find(s, c) != -1 ==> {
            &&& 0 <= spec_find(s, c) < s.len()
            &&& s[spec_find(s, c)] == c
            &&& forall|j: int| 0 <= j < spec_find(s, c) ==> s[j] != c
        },
    decreases s.len(),
{
    if s.len() == 0 {
    } else if s[0] == c {
    } else {
        lemma_spec_find(s.drop_first(), c);
        let r = spec_find(s.drop_first(), c);
        if r == -1 {
            assert forall|i: int| 0 <= i < s.len() implies s[i] != c by {
                if i > 0 {
                    assert(s.drop_first()[i - 1] != c);
                }
            }
        } else {
            assert(s[r + 1] == s.drop_first()[r]);
            assert forall|j: int| 0 <= j < r + 1 implies s[j] != c by {
                if j > 0 {
                    assert(s.drop_first()[j - 1] != c);
                }
            }
        }
    }
}

/// A language understood by the localization layer.
#[derive(Debug, Clone, Copy, PartialEq, Eq, Structural)]
pub enum Language {
    En,
    Fr,
    It,
    De,
}

/// A country used to narrow a language to a regional locale.
#[derive(Debug, Clone, Copy, PartialEq, Eq, Structural)]
pub enum Country {
    Ch,
    De,
    Gb,
    Us,
}

impl Language {
    /// The language a two-letter code names, compared ASCII-case-insensitively.
    pub open spec fn spec_from(s: Seq<char>) -> Option<Language> {
        if s.len() != 2 {
            None
        } else if ci_eq(s[0], 'e') && ci_eq(s[1], 'n') {
            Some(Language::En)
        } else if ci_eq(s[0], 'f') && ci_eq(s[1], 'r') {
            Some(Language::Fr)
        } else if ci_eq(s[0], 'i') && ci_eq(s[1], 't') {
            Some(Language::It)
        } else if ci_eq(s[0], 'd') && ci_eq(s[1], 'e') {
            Some(Language::De)
        } else {
            None
        }
    }

    pub fn from_str(s: &str) -> (r: Option<Language>)
        ensures
            r == Language::spec_from(s@),
    {
        let n = s.unicode_len();
        if n != 2 {
            return None;
        }
        let c0 = lower_char_u32(s.get_char(0));
        let c1 = lower_char_u32(s.get_char(1));
        if c0 == 'e' as u32 && c1 == 'n' as u32 {
            Some(Language::En)
        } else if c0 == 'f' as u32 && c1 == 'r' as u32 {
            Some(Language::Fr)
        } else if c0 == 'i' as u32 && c1 == 't' as u32 {
            Some(Language::It)
        } else if c0 == 'd' as u32 && c1 == 'e' as u32 {
            Some(Language::De)
        } else {
            None
        }
    }

    /// The canonical name of the language, as its code with a capital first
    /// letter.
    pub fn to_string(&self) -> (r: String)
        ensures
            Language::spec_from(r@) == Some(*self),
    {
        match self {
            Language::En => {
                let s = "En";
                proof {
                    reveal_strlit("En");
                }
                s.to_owned()
            },
            Language::Fr => {
                let s = "Fr";
                proof {
                    reveal_strlit("Fr");
                }
                s.to_owned()
            },
            Language::It => {
                let s = "It";
                proof {
                    reveal_strlit("It");
                }
                s.to_owned()
            },
            Language::De => {
                let s = "De";
                proof {
                    reveal_strlit("De");
                }
                s.to_owned()
            },
        }
    }
}

impl Country {
    /// The country a two-letter code names, compared ASCII-case-insensitively.
    pub open spec fn spec_from(s: Seq<char>) -> Option<Country> {
        if s.len() != 2 {
            None
        } else if ci_eq(s[0], 'c') && ci_eq(s[1], 'h') {
            Some(Country::Ch)
        } else if ci_eq(s[0], 'd') && ci_eq(s[1], 'e') {
            Some(Country::De)
        } else if ci_eq(s[0], 'g') && ci_eq(s[1], 'b') {
            Some(Country::Gb)
        } else if ci_eq(s[0], 'u') && ci_eq(s[1], 's') {
            Some(Country::Us)
        } else {
            None
        }
    }

    pub fn from_str(s: &str) -> (r: Option<Country>)
        ensures
            r == Country::spec_from(s@),
    {
        let n = s.unicode_len();
        if n != 2 {
            return None;
        }
        let c0 = lower_char_u32(s.get_char(0));
        let c1 = lower_char_u32(s.get_char(1));
        if c0 == 'c' as u32 && c1 == 'h' as u32 {
            Some(Country::Ch)
        } else if c0 == 'd' as u32 && c1 == 'e' as u32 {
            Some(Country::De)
        } else if c0 == 'g' as u32 && c1 == 'b' as u32 {
            Some(Country::Gb)
        } else if c0 == 'u' as u32 && c1 == 's' as u32 {
            Some(Country::Us)
        } else {
            None
        }
    }
}

/// Folds an ASCII capital letter to lower case, as a code point.
fn lower_char_u32(c: char) -> (r: u32)
    ensures
        r == lower_u32(c),
{
    let u = c as u32;
    if 65 <= u && u <= 90 {
        u + 32
    } else {
        u
    }
}

/// A language, possibly narrowed by a country.
#[derive(Debug, Clone, Copy, PartialEq, Eq)]
pub struct Locale(pub Language, pub Option<Country>);

impl Locale {
    /// The locale a piece of text names: a language code alone, or a language
    /// and a country code joined by the first `-` or, failing that, the first
    /// `_`.  Both parts must parse for the whole to parse.
    pub open spec fn spec_from(s: Seq<char>) -> Option<Locale> {
        if spec_find(s, '-') >= 0 {
            let i = spec_find(s, '-');
            Locale::spec_combine(
                Language::spec_from(s.subrange(0, i)),
                Country::spec_from(s.subrange(i + 1, s.len() as int)),
            )
        } else if spec_find(s, '_') >= 0 {
            let i = spec_find(s, '_');
            Locale::spec_combine(
                Language::spec_from(s.subrange(0, i)),
                Country::spec_from(s.subrange(i + 1, s.len() as int)),
            )
        } else {
            match Language::spec_from(s) {
                Some(l) => Some(Locale(l, None)),
                None => None,
            }
        }
    }

    /// Both parts or nothing.
    pub open spec fn spec_combine(l: Option<Language>, c: Option<Country>) -> Option<Locale> {
        match (l, c) {
            (Some(l), Some(c)) => Some(Locale(l, Some(c))),
            _ => None,
        }
    }

    pub fn from_str(s: &str) -> (r: Option<Locale>)
        ensures
            r == Locale::spec_from(s@),
    {
        proof {
            lemma_spec_find(s@, '-');
            lemma_spec_find(s@, '_');
        }
        let n = s.unicode_len();
        if let Some(i) = find_char(s, '-') {
            assert(i < n);
            let language = s.substring_char(0, i);
            let country = s.substring_char(i + 1, n);
            return Locale::combine(Language::from_str(language), Country::from_str(country));
        }
        if let Some(i) = find_char(s, '_') {
            assert(i < n);
            let language = s.substring_char(0, i);
            let country = s.substring_char(i + 1, n);
            return Locale::combine(Language::from_str(language), Country::from_str(country));
        }
        match Language::from_str(s) {
            Some(l) => Some(Locale(l, None)),
            None => None,
        }
    }

    fn combine(l: Option<Language>, c: Option<Country>) -> (r: Option<Locale>)
        ensures
            r == Locale::spec_combine(l, c),
    {
        match (l, c) {
            (Some(l), Some(c)) => Some(Locale(l, Some(c))),
            _ => None,
        }
    }
}

/// The position of the first occurrence of `c` in `s`, if any.
fn find_char(s: &str, c: char) -> (r: Option<usize>)
    ensures
        match r {
            Some(i) => i == spec_find(s@, c),
            None => spec_find(s@, c) == -1,
        },
{
    proof {
        lemma_spec_find(s@, c);
    }
    let n = s.unicode_len();
    let mut i: usize = 0;
    while i < n
        invariant
            n == s@.len(),
            i <= n,
            forall|j: int| 0 <= j < i ==> s@[j] != c,
            spec_find(s@, c) == -1 || 0 <= spec_find(s@, c) < s@.len(),
            spec_find(s@, c) != -1 ==> s@[spec_find(s@, c)] == c,
            spec_find(s@, c) != -1 ==> forall|j: int| 0 <= j < spec_find(s@, c) ==> s@[j] != c,
        decreases n - i,
    {
        if s.get_char(i) == c {
            proof {
                assert(spec_find(s@, c) != -1) by {
                    if spec_find(s@, c) == -1 {
                        lemma_spec_find(s@, c);
                        assert(s@[i as int] != c);
                    }
                }
                assert(spec_find(s@, c) == i);
            }
            return Some(i);
        }
        i += 1;
    }
    proof {
        assert(spec_find(s@, c) == -1) by {
            if spec_find(s@, c) != -1 {
                assert(s@[spec_find(s@, c)] == c);
            }
        }
    }
    None
}

/// The localization context, passed explicitly to call sites: the locales to
/// try in order, and the locale used when none of them matches.
pub struct Settings {
    pub fallback_locale: Locale,
    pub locales: Vec<Locale>,
}

impl Default for Settings {
    fn default() -> (r: Self)
        ensures
            r.fallback_locale == (Locale(Language::En, None)),
            r.locales@ == Seq::<Locale>::empty(),
    {
        Settings { fallback_locale: Locale(Language::En, None), locales: Vec::new() }
    }
}

/// Replaces the locale used when no configured locale matches.
pub fn set_fallback_locale(settings: &mut Settings, locale: Locale)
    ensures
        final(settings).fallback_locale == locale,
        final(settings).locales == old(settings).locales,
{
    settings.fallback_locale = locale;
}

/// Replaces the configured locale list.
pub fn set_locales(settings: &mut Settings, locales: &[Locale])
    ensures
        final(settings).locales@ == locales@,
        final(settings).fallback_locale == old(settings).fallback_locale,
{
    let n = locales.len();
    let mut list: Vec<Locale> = Vec::new();
    let mut i: usize = 0;
    while i < n
        invariant
            n == locales@.len(),
            i <= n,
            list@ == locales@.subrange(0, i as int),
        decreases n - i,
    {
        let ghost pre = list@;
        list.push(*vstd::slice::slice_index_get(locales, i));
        proof {
            assert(pre.push(locales@[i as int]) =~= locales@.subrange(0, i + 1 as int));
        }
        i += 1;
    }
    proof {
        assert(locales@.subrange(0, n as int) =~= locales@);
    }
    settings.locales = list;
}

/// The locales to try, in order: the configured list, then the fallback.
pub fn get_locales(settings: &Settings) -> (r: Vec<Locale>)
    ensures
        r@ == settings.locales@.push(settings.fallback_locale),
{
    let n = settings.locales.len();
    let mut list: Vec<Locale> = Vec::new();
    let mut i: usize = 0;
    while i < n
        invariant
            n == settings.locales@.len(),
            i <= n,
            list@ == settings.locales@.subrange(0, i as int),
        decreases n - i,
    {
        let ghost pre = list@;
        list.push(settings.locales[i]);
        proof {
            assert(pre.push(settings.locales@[i as int]) =~= settings.locales@.subrange(
                0,
                i + 1 as int,
            ));
        }
        i += 1;
    }
    proof {
        assert(settings.locales@.subrange(0, n as int) =~= settings.locales@);
    }
    list.push(settings.fallback_locale);
    list
}

/// A piece of text already resolved for display.
pub struct Localized {
    text: String,
}

impl View for Localized {
    type V = Seq<char>;

    closed spec fn view(&self) -> Seq<char> {
        self.text@
    }
}

impl Localized {
    pub fn from_string(s: String) -> (r: Localized)
        ensures
            r@ == s@,
    {
        Localized { text: s }
    }

    /// The resolved text.
    pub fn text(&self) -> (r: &String)
        ensures
            r@ == self@,
    {
        &self.text
    }
}

/// Something that can resolve itself to display text for a locale list.
/// Implemented by the simulation's own message types.
pub trait Localizable: Sized {
    fn localize_with(self, locales: &[Locale]) -> Localized;
}

impl Localizable for String {
    /// Plain text is already resolved; the locales are ignored.
    fn localize_with(self, _locales: &[Locale]) -> Localized {
        Localized::from_string(self)
    }
}

impl<'a> Localizable for &'a str {
    /// Plain text is already resolved; the locales are ignored.
    fn localize_with(self, _locales: &[Locale]) -> Localized {
        Localized::from_string(self.to_owned())
    }
}

/// Resolves `value` against the context's locale list, fallback included.
pub fn localize<L: Localizable>(value: L, settings: &Settings) -> Localized {
    let locales = get_locales(settings);
    value.localize_with(locales.as_slice())
}

} // verus!
