//! Localization: a small catalog of `key = value` lines per language,
//! with an English fallback.
//!
//! A catalog document holds one entry per line; blank lines and lines
//! whose first visible character is `#` are comments. A line's key is
//! everything before the first `=`, a line's value everything after it,
//! both with surrounding whitespace removed. A line without `=` is
//! ignored. Later entries for the same key replace earlier ones.

use vstd::prelude::*;
use vstd::string::StrSliceExecFns;

use crate::text::{
    find_char_from, find_equals_in, find_newline, lemma_find_char_bound, lines_from, split_lines,
    trim_range, trim_spec,
};

verus! {

/// The entry a single line contributes: its key and value, or nothing
/// for blank lines, comments, and lines without `=`.
pub open spec fn line_entry(line: Seq<char>) -> Option<(Seq<char>, Seq<char>)> {
    let t = trim_spec(line);
    if t.len() == 0 || t[0] == '#' {
        None
    } else {
        match find_char_from(t, '=', 0) {
            Some(e) => Some(
                (trim_spec(t.subrange(0, e)), trim_spec(t.subrange(e + 1, t.len() as int))),
            ),
            None => None,
        }
    }
}

/// The entry sequence a single line contributes.
pub open spec fn entry_seq(line: Seq<char>) -> Seq<(Seq<char>, Seq<char>)> {
    match line_entry(line) {
        Some(kv) => seq![kv],
        None => Seq::empty(),
    }
}

/// The entries of a sequence of lines, in document order.
pub open spec fn entries_of_lines(lines: Seq<Seq<char>>) -> Seq<(Seq<char>, Seq<char>)>
    decreases lines.len(),
{
    if lines.len() == 0 {
        Seq::empty()
    } else {
        entry_seq(lines[0]) + entries_of_lines(lines.drop_first())
    }
}

/// The entries of a whole catalog document, in document order.
pub open spec fn ftl_entries(content: Seq<char>) -> Seq<(Seq<char>, Seq<char>)> {
    entries_of_lines(split_lines(content))
}

/// The character sequences behind a vector of key–value strings.
pub open spec fn entries_view(entries: Seq<(String, String)>) -> Seq<(Seq<char>, Seq<char>)> {
    entries.map_values(|p: (String, String)| (p.0@, p.1@))
}

/// The value stored for `key`, where later entries replace earlier ones.
pub open spec fn lookup(entries: Seq<(Seq<char>, Seq<char>)>, key: Seq<char>) -> Option<Seq<char>>
    decreases entries.len(),
{
    if entries.len() == 0 {
        None
    } else if entries.last().0 == key {
        Some(entries.last().1)
    } else {
        lookup(entries.drop_last(), key)
    }
}

/// Adds the entry of the line `lo .. hi` of the document, if the line
/// carries one.
fn process_line(s: &str, lo: usize, hi: usize, n: usize, entries: &mut Vec<(String, String)>)
    requires
        lo <= hi <= n,
        n == s@.len(),
    ensures
        entries_view(final(entries)@) == entries_view(old(entries)@) + entry_seq(
            s@.subrange(lo as int, hi as int),
        ),
{
    let ghost line = s@.subrange(lo as int, hi as int);
    let ghost t = trim_spec(line);
    let (a, b) = trim_range(s, lo, hi, n);
    assert(t == s@.subrange(a as int, b as int));
    if a == b {
        assert(entries_view(entries@) =~= entries_view(entries@) + entry_seq(line));
        return ;
    }
    assert(t[0] == s@[a as int]);
    if s.get_char(a) == '#' {
        assert(entries_view(entries@) =~= entries_view(entries@) + entry_seq(line));
        return ;
    }
    match find_equals_in(s, a, b, n) {
        None => {
            assert(entries_view(entries@) =~= entries_view(entries@) + entry_seq(line));
        },
        Some(e) => {
            let (ka, kb) = trim_range(s, a, e, n);
            let (va, vb) = trim_range(s, e + 1, b, n);
            let key = s.substring_char(ka, kb).to_owned();
            let value = s.substring_char(va, vb).to_owned();
            proof {
                assert(t.subrange(0, e - a) =~= s@.subrange(a as int, e as int));
                assert(t.subrange(e - a + 1, t.len() as int) =~= s@.subrange(e + 1, b as int));
                assert(line_entry(line) == Some((key@, value@)));
            }
            let ghost before = entries@;
            entries.push((key, value));
            proof {
                assert(entries_view(entries@) =~= entries_view(before) + entry_seq(line));
            }
        },
    }
}

/// Parses a catalog document into its entries, in document order.
pub fn parse_ftl(content: &str) -> (entries: Vec<(String, String)>)
    ensures
        entries_view(entries@) == ftl_entries(content@),
{
    let n = content.unicode_len();
    let mut entries: Vec<(String, String)> = Vec::new();
    proof {
        assert(entries_view(entries@) =~= Seq::<(Seq<char>, Seq<char>)>::empty());
    }
    let mut start: usize = 0;
    loop
        invariant_except_break
            start <= n,
            n == content@.len(),
            entries_view(entries@) + entries_of_lines(lines_from(content@, start as int))
                =~= ftl_entries(content@),
        ensures
            entries_view(entries@) == ftl_entries(content@),
        decreases n - start,
    {
        match find_newline(content, start, n) {
            Some(e) => {
                let ghost rest = lines_from(content@, e + 1);
                let ghost line = content@.subrange(start as int, e as int);
                process_line(content, start, e, n, &mut entries);
                proof {
                    assert(lines_from(content@, start as int) == seq![line] + rest);
                    assert((seq![line] + rest)[0] == line);
                    assert((seq![line] + rest).drop_first() =~= rest);
                    assert(entries_of_lines(seq![line] + rest) == entry_seq(line)
                        + entries_of_lines(rest));
                    assert(entries_view(entries@) + entries_of_lines(rest) =~= ftl_entries(
                        content@,
                    ));
                }
                start = e + 1;
            },
            None => {
                let ghost line = content@.subrange(start as int, n as int);
                process_line(content, start, n, n, &mut entries);
                proof {
                    assert(lines_from(content@, start as int) == seq![line]);
                    assert(seq![line].drop_first() =~= Seq::<Seq<char>>::empty());
                    assert(entries_of_lines(Seq::<Seq<char>>::empty()) =~= Seq::<
                        (Seq<char>, Seq<char>),
                    >::empty());
                    assert(seq![line][0] == line);
                    assert(entries_of_lines(seq![line]) =~= entry_seq(line));
                    assert(entries_view(entries@) =~= ftl_entries(content@));
                }
                break ;
            },
        }
    }
    entries
}

/// The translation catalogs of the client: one per language code, and
/// the language looked up first.
pub struct I18nService {
    /// The language looked up first.
    pub current_lang: String,
    /// Catalogs by language code; later codes replace earlier ones.
    pub translations: Vec<(String, Vec<(String, String)>)>,
}

/// The catalog stored for `lang`, where later catalogs replace earlier
/// ones.
pub open spec fn lang_entries(
    ts: Seq<(String, Vec<(String, String)>)>,
    lang: Seq<char>,
) -> Option<Seq<(Seq<char>, Seq<char>)>>
    decreases ts.len(),
{
    if ts.len() == 0 {
        None
    } else if ts.last().0@ == lang {
        Some(entries_view(ts.last().1@))
    } else {
        lang_entries(ts.drop_last(), lang)
    }
}

/// The value `key` resolves to in the catalog of `lang`, if any.
pub open spec fn resolve(
    ts: Seq<(String, Vec<(String, String)>)>,
    lang: Seq<char>,
    key: Seq<char>,
) -> Option<Seq<char>> {
    match lang_entries(ts, lang) {
        Some(es) => lookup(es, key),
        None => None,
    }
}

/// What `translate` returns: the value under the current language, else
/// under the English fallback, else the key itself.
pub open spec fn translate_spec(svc: I18nService, key: Seq<char>) -> Seq<char> {
    match resolve(svc.translations@, svc.current_lang@, key) {
        Some(v) => v,
        None => match resolve(svc.translations@, "en-US"@, key) {
            Some(v) => v,
            None => key,
        },
    }
}

/// Finds the index of the catalog stored for `lang`.
fn find_lang(ts: &Vec<(String, Vec<(String, String)>)>, lang: &String) -> (r: Option<usize>)
    ensures
        match r {
            Some(ix) => ix < ts@.len() && lang_entries(ts@, lang@) == Some(
                entries_view(ts@[ix as int].1@),
            ),
            None => lang_entries(ts@, lang@) is None,
        },
{
    proof {
        assert(ts@.take(ts@.len() as int) =~= ts@);
    }
    let mut i = ts.len();
    while i > 0
        invariant
            i <= ts@.len(),
            lang_entries(ts@, lang@) == lang_entries(ts@.take(i as int), lang@),
        decreases i,
    {
        i = i - 1;
        proof {
            assert(ts@.take(i + 1).last() == ts@[i as int]);
            assert(ts@.take(i + 1).drop_last() =~= ts@.take(i as int));
        }
        if ts[i].0 == *lang {
            return Some(i);
        }
    }
    None
}

/// Finds the index of the entry that `key` resolves to.
fn lookup_index(entries: &Vec<(String, String)>, key: &String) -> (r: Option<usize>)
    ensures
        match r {
            Some(ix) => ix < entries@.len() && lookup(entries_view(entries@), key@) == Some(
                entries@[ix as int].1@,
            ),
            None => lookup(entries_view(entries@), key@) is None,
        },
{
    proof {
        assert(entries_view(entries@).take(entries@.len() as int) =~= entries_view(entries@));
    }
    let mut i = entries.len();
    while i > 0
        invariant
            i <= entries@.len(),
            lookup(entries_view(entries@), key@) == lookup(
                entries_view(entries@).take(i as int),
                key@,
            ),
        decreases i,
    {
        i = i - 1;
        proof {
            assert(entries_view(entries@).take(i + 1).last() == (
                entries@[i as int].0@,
                entries@[i as int].1@,
            ));
            assert(entries_view(entries@).take(i + 1).drop_last() =~= entries_view(
                entries@,
            ).take(i as int));
        }
        if entries[i].0 == *key {
            return Some(i);
        }
    }
    None
}

impl I18nService {
    /// Builds the service over the two catalogs the client ships, keyed
    /// `de-DE` and `en-US`, with `lang` as the language looked up first.
    pub fn new(lang: &str, de_content: &str, en_content: &str) -> (s: I18nService)
        ensures
            s.current_lang@ == lang@,
            s.translations@.len() == 2,
            s.translations@[0].0@ == "de-DE"@,
            s.translations@[1].0@ == "en-US"@,
            entries_view(s.translations@[0].1@) == ftl_entries(de_content@),
            entries_view(s.translations@[1].1@) == ftl_entries(en_content@),
    {
        let mut translations: Vec<(String, Vec<(String, String)>)> = Vec::new();
        translations.push(("de-DE".to_owned(), parse_ftl(de_content)));
        translations.push(("en-US".to_owned(), parse_ftl(en_content)));
        I18nService { current_lang: lang.to_owned(), translations }
    }

    /// Translates `key`: by the current language's catalog, else by the
    /// English one, else to the key itself.
    pub fn translate(&self, key: &str) -> (r: String)
        ensures
            r@ == translate_spec(*self, key@),
    {
        let key_owned = key.to_owned();
        match find_lang(&self.translations, &self.current_lang) {
            Some(li) => {
                match lookup_index(&self.translations[li].1, &key_owned) {
                    Some(vi) => {
                        return self.translations[li].1[vi].1.clone();
                    },
                    None => {},
                }
            },
            None => {},
        }
        let en = "en-US".to_owned();
        match find_lang(&self.translations, &en) {
            Some(li) => {
                match lookup_index(&self.translations[li].1, &key_owned) {
                    Some(vi) => {
                        return self.translations[li].1[vi].1.clone();
                    },
                    None => {},
                }
            },
            None => {},
        }
        key_owned
    }
}

} // verus!
