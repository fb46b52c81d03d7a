//! The interface's texts, in every language it supports.
//!
//! Each language is a flat JSON object of `key: text`. Texts with values
//! use `{name}` placeholders (see [`Texts::tf`]). A key missing from the
//! current language falls back to English, and then to the key itself, so
//! a gap never breaks the interface.

use vstd::prelude::*;

use std::collections::BTreeMap;

use crate::text::{chars_of, push_char, str_eq};

verus! {

/// The languages of the interface; their names are the values of the
/// `lang` setting.
#[derive(Debug, Clone, Copy, PartialEq, Eq, Structural)]
pub enum Lang {
    English,
    Spanish,
}

impl Default for Lang {
    fn default() -> (r: Lang)
        ensures
            r == Lang::English,
    {
        Lang::English
    }
}

pub open spec fn setting_spec(lang: Lang) -> Seq<char> {
    match lang {
        Lang::English => "ENGLISH"@,
        Lang::Spanish => "SPANISH"@,
    }
}

impl Lang {
    /// Every language, in the order a setting value is matched against.
    pub fn all() -> (r: [Lang; 2])
        ensures
            r@ == seq![Lang::English, Lang::Spanish],
    {
        [Lang::English, Lang::Spanish]
    }

    /// The value of the `lang` setting for this language.
    pub fn setting_value(self) -> (r: &'static str)
        ensures
            r@ == setting_spec(self),
    {
        proof {
            reveal_strlit("ENGLISH");
            reveal_strlit("SPANISH");
        }
        match self {
            Lang::English => "ENGLISH",
            Lang::Spanish => "SPANISH",
        }
    }

    /// The language a `lang` setting value names (English if none does).
    pub fn from_setting(value: &str) -> (r: Lang)
        ensures
            value@ == setting_spec(Lang::English) ==> r == Lang::English,
            value@ == setting_spec(Lang::Spanish) ==> r == Lang::Spanish,
            value@ != setting_spec(Lang::English) && value@ != setting_spec(Lang::Spanish) ==> r
                == Lang::English,
    {
        proof {
            reveal_strlit("ENGLISH");
            reveal_strlit("SPANISH");
            assert("ENGLISH"@[0] != "SPANISH"@[0]);
        }
        if str_eq(Lang::English.setting_value(), value) {
            Lang::English
        } else if str_eq(Lang::Spanish.setting_value(), value) {
            Lang::Spanish
        } else {
            Lang::default()
        }
    }
}

/// What a JSON object of strings reads as, its entries in key order
/// (`serde_json::from_str` into a `BTreeMap<String, String>`); `None` when
/// the text is not such an object.
pub uninterp spec fn json_string_table(text: Seq<char>) -> Option<Seq<(Seq<char>, Seq<char>)>>;

pub open spec fn pairs_view(v: Seq<(String, String)>) -> Seq<(Seq<char>, Seq<char>)> {
    v.map_values(|p: (String, String)| (p.0@, p.1@))
}

/// Reads a JSON object whose values are all strings, with
/// `serde_json::from_str` into a `BTreeMap<String, String>`. The entries
/// are the map's, in its (key) order; a map holds each key once.
#[verifier::external_body]
fn read_string_table(text: &str) -> (r: Option<Vec<(String, String)>>)
    ensures
        match r {
            Some(v) => json_string_table(text@) == Some(pairs_view(v@)),
            None => json_string_table(text@) is None,
        },
        r matches Some(v) ==> forall|i: int, j: int|
            0 <= i < j < v@.len() ==> (#[trigger] v@[i]).0@ != (#[trigger] v@[j]).0@,
{
    serde_json::from_str::<BTreeMap<String, String>>(text).ok().map(|m| m.into_iter().collect())
}

/// The text of the first entry of `table`, from `i` on, whose key is `key`.
pub open spec fn table_get_from(table: Seq<(Seq<char>, Seq<char>)>, key: Seq<char>, i: int) -> Option<
    Seq<char>,
>
    decreases table.len() - i,
{
    if i < 0 || i >= table.len() {
        None
    } else if table[i].0 == key {
        Some(table[i].1)
    } else {
        table_get_from(table, key, i + 1)
    }
}

pub open spec fn table_get(table: Seq<(Seq<char>, Seq<char>)>, key: Seq<char>) -> Option<Seq<char>> {
    table_get_from(table, key, 0)
}

/// `s` with every occurrence of `pattern` replaced by `value`, scanning
/// from the left and never re-reading a replacement.
pub open spec fn replace_all(s: Seq<char>, pattern: Seq<char>, value: Seq<char>) -> Seq<char>
    decreases s.len(),
{
    if pattern.len() == 0 || s.len() < pattern.len() {
        s
    } else if s.take(pattern.len() as int) == pattern {
        value + replace_all(s.skip(pattern.len() as int), pattern, value)
    } else {
        seq![s[0]] + replace_all(s.skip(1), pattern, value)
    }
}

/// The placeholder `{name}`.
pub open spec fn placeholder(name: Seq<char>) -> Seq<char> {
    seq!['{'] + name + seq!['}']
}

/// `text` with the placeholders of the first `n` arguments filled in, one
/// argument after the other.
pub open spec fn fill_placeholders(text: Seq<char>, args: Seq<(&str, &str)>, n: int) -> Seq<char>
    decreases n,
{
    if n <= 0 {
        text
    } else {
        replace_all(fill_placeholders(text, args, n - 1), placeholder(args[n - 1].0@), args[n - 1].1@)
    }
}

/// The texts of every language, and the current one.
pub struct Texts {
    current: Lang,
    english: Vec<(String, String)>,
    spanish: Vec<(String, String)>,
}

impl Texts {
    pub closed spec fn language_spec(&self) -> Lang {
        self.current
    }

    /// The entries of `lang`'s table.
    pub closed spec fn table(&self, lang: Lang) -> Seq<(Seq<char>, Seq<char>)> {
        match lang {
            Lang::English => pairs_view(self.english@),
            Lang::Spanish => pairs_view(self.spanish@),
        }
    }

    /// The text of `key` in the current language, else in English.
    pub open spec fn lookup_spec(&self, key: Seq<char>) -> Option<Seq<char>> {
        match table_get(self.table(self.language_spec()), key) {
            Some(t) => Some(t),
            None => table_get(self.table(Lang::English), key),
        }
    }

    /// Reads the tables of every language from their JSON text, English
    /// being current. `None` if a text is not a JSON object of strings.
    pub fn from_json(english: &str, spanish: &str) -> (r: Option<Texts>)
        ensures
            match (json_string_table(english@), json_string_table(spanish@)) {
                (Some(en), Some(es)) => r matches Some(t) && t.table(Lang::English) == en
                    && t.table(Lang::Spanish) == es && t.language_spec() == Lang::English,
                _ => r is None,
            },
    {
        let en = match read_string_table(english) {
            Some(v) => v,
            None => {
                return None;
            },
        };
        let es = match read_string_table(spanish) {
            Some(v) => v,
            None => {
                return None;
            },
        };
        Some(Texts { current: Lang::English, english: en, spanish: es })
    }

    pub fn set_language(&mut self, lang: Lang)
        ensures
            final(self).language_spec() == lang,
            forall|l: Lang| final(self).table(l) == old(self).table(l),
    {
        self.current = lang;
    }

    pub fn language(&self) -> (r: Lang)
        ensures
            r == self.language_spec(),
    {
        self.current
    }

    /// The text for `key` in the current language, falling back to English.
    pub fn lookup(&self, key: &str) -> (r: Option<String>)
        ensures
            match r {
                Some(t) => self.lookup_spec(key@) == Some(t@),
                None => self.lookup_spec(key@) is None,
            },
    {
        let table = match self.current {
            Lang::English => &self.english,
            Lang::Spanish => &self.spanish,
        };
        match table_lookup(table, key) {
            Some(t) => Some(t),
            None => table_lookup(&self.english, key),
        }
    }

    /// The text for `key`; the key itself if no language has it.
    pub fn t(&self, key: &str) -> (r: String)
        ensures
            r@ == match self.lookup_spec(key@) {
                Some(t) => t,
                None => key@,
            },
    {
        match self.lookup(key) {
            Some(t) => t,
            None => String::from_str(key),
        }
    }

    /// The text for `key` with each `{name}` replaced by its value, the
    /// arguments taken one after the other.
    pub fn tf(&self, key: &str, args: &[(&str, &str)]) -> (r: String)
        ensures
            r@ == fill_placeholders(
                match self.lookup_spec(key@) {
                    Some(t) => t,
                    None => key@,
                },
                args@,
                args@.len() as int,
            ),
    {
        let mut text = self.t(key);
        let n = args.len();
        let mut i: usize = 0;
        while i < n
            invariant
                n == args@.len(),
                i <= n,
                text@ == fill_placeholders(
                    match self.lookup_spec(key@) {
                        Some(t) => t,
                        None => key@,
                    },
                    args@,
                    i as int,
                ),
            decreases n - i,
        {
            let (name, value) = args[i];
            let mut pattern = String::new();
            push_char(&mut pattern, '{');
            pattern.append(name);
            push_char(&mut pattern, '}');
            assert(pattern@ =~= placeholder(args@[i as int].0@));
            assert(pattern@.len() > 0);
            text = replace(text.as_str(), pattern.as_str(), value);
            i = i + 1;
        }
        text
    }
}

/// The text of the first entry of `table` whose key is `key`.
fn table_lookup(table: &Vec<(String, String)>, key: &str) -> (r: Option<String>)
    ensures
        match r {
            Some(t) => table_get(pairs_view(table@), key@) == Some(t@),
            None => table_get(pairs_view(table@), key@) is None,
        },
{
    let n = table.len();
    let mut i: usize = 0;
    while i < n
        invariant
            n == table@.len(),
            i <= n,
            table_get(pairs_view(table@), key@) == table_get_from(pairs_view(table@), key@, i as int),
        decreases n - i,
    {
        if str_eq(table[i].0.as_str(), key) {
            return Some(table[i].1.clone());
        }
        i = i + 1;
    }
    None
}

/// Whether `pattern` occurs in `s` at `i`.
fn occurs_at(s: &Vec<char>, pattern: &Vec<char>, i: usize) -> (r: bool)
    requires
        i + pattern@.len() <= s@.len(),
    ensures
        r == (s@.skip(i as int).take(pattern@.len() as int) == pattern@),
{
    let m = pattern.len();
    let mut k: usize = 0;
    while k < m
        invariant
            m == pattern@.len(),
            i + m <= s@.len(),
            s@.len() == s.len(),
            k <= m,
            forall|j: int| 0 <= j < k ==> s@[i + j] == pattern@[j],
        decreases m - k,
    {
        if s[i + k] != pattern[k] {
            assert(s@.skip(i as int).take(m as int)[k as int] != pattern@[k as int]);
            return false;
        }
        k = k + 1;
    }
    assert(s@.skip(i as int).take(m as int) =~= pattern@);
    true
}

/// `s` with every occurrence of the non-empty `pattern` replaced by
/// `value`, from the left (what `str::replace` does).
pub fn replace(s: &str, pattern: &str, value: &str) -> (r: String)
    requires
        pattern@.len() > 0,
    ensures
        r@ == replace_all(s@, pattern@, value@),
{
    let text = chars_of(s);
    let pat = chars_of(pattern);
    let val = chars_of(value);
    let n = text.len();
    let m = pat.len();
    let mut out = String::new();
    let mut i: usize = 0;
    assert(s@.skip(0) =~= s@);
    while i < n
        invariant
            text@ == s@,
            pat@ == pattern@,
            val@ == value@,
            n == s@.len(),
            m == pattern@.len(),
            m > 0,
            i <= n,
            out@ + replace_all(s@.skip(i as int), pattern@, value@) == replace_all(
                s@,
                pattern@,
                value@,
            ),
        decreases n - i,
    {
        let ghost rest = s@.skip(i as int);
        if n - i < m {
            let ghost prefix = out@;
            let mut j = i;
            while j < n
                invariant
                    text@ == s@,
                    n == s@.len(),
                    i <= j <= n,
                    out@ == prefix + s@.subrange(i as int, j as int),
                decreases n - j,
            {
                push_char(&mut out, text[j]);
                assert(s@.subrange(i as int, j + 1) =~= s@.subrange(i as int, j as int).push(
                    s@[j as int],
                ));
                j = j + 1;
            }
            assert(s@.subrange(i as int, n as int) =~= rest);
            assert(replace_all(rest, pattern@, value@) == rest);
            i = n;
        } else if occurs_at(&text, &pat, i) {
            out.append(value);
            assert(rest.skip(m as int) =~= s@.skip(i + m));
            assert(out@ + replace_all(s@.skip(i + m), pattern@, value@) =~= replace_all(
                s@,
                pattern@,
                value@,
            ));
            i = i + m;
        } else {
            push_char(&mut out, text[i]);
            assert(rest.skip(1) =~= s@.skip(i + 1));
            assert(out@ + replace_all(s@.skip(i + 1), pattern@, value@) =~= replace_all(
                s@,
                pattern@,
                value@,
            ));
            i = i + 1;
        }
    }
    proof {
        assert(s@.skip(n as int) =~= Seq::<char>::empty());
    }
    out
}

} // verus!
