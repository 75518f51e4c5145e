//! Keys with a locale suffix (`Name[de_DE]`) and the locale fallback order.
use vstd::prelude::*;
use crate::text::{chars_of, extend_chars, slice_chars, string_of};

verus! {

/// The index of the first `c` in `s`, or `s.len()` where there is none.
pub open spec fn first_index(s: Seq<char>, c: char) -> int
    decreases s.len(),
{
    if s.len() == 0 {
        0
    } else if s[0] == c {
        0
    } else {
        1 + first_index(s.drop_first(), c)
    }
}

pub proof fn lemma_first_index(s: Seq<char>, c: char, i: int)
    requires
        0 <= i <= s.len(),
        i < s.len() ==> s[i] == c,
        forall|j: int| 0 <= j < i ==> s[j] != c,
    ensures
        first_index(s, c) == i,
    decreases s.len(),
{
    if s.len() > 0 && s[0] != c {
        assert forall|j: int| 0 <= j < i - 1 implies s.drop_first()[j] != c by {
            assert(s.drop_first()[j] == s[j + 1]);
        }
        lemma_first_index(s.drop_first(), c, i - 1);
    }
}

/// The index of the first `c` in `v`, or `v.len()`.
pub fn find_char(v: &Vec<char>, c: char) -> (r: usize)
    ensures
        r as int == first_index(v@, c),
        r <= v.len(),
        r < v.len() ==> v@[r as int] == c,
        forall|j: int| 0 <= j < r ==> v@[j] != c,
{
    let mut i: usize = 0;
    while i < v.len()
        invariant
            i <= v.len(),
            forall|j: int| 0 <= j < i ==> v@[j] != c,
        decreases v.len() - i,
    {
        if v[i] == c {
            proof {
                lemma_first_index(v@, c, i as int);
            }
            return i;
        }
        i = i + 1;
    }
    proof {
        lemma_first_index(v@, c, i as int);
    }
    i
}

/// The base key and the locale of a raw key: `Key[locale]` where the first
/// `[` comes before the first `]`, else the whole key with no locale.
pub open spec fn key_parts(s: Seq<char>) -> (Seq<char>, Option<Seq<char>>) {
    let b = first_index(s, '[');
    let e = first_index(s, ']');
    if b < s.len() && e < s.len() && b < e {
        (s.take(b), Some(s.subrange(b + 1, e)))
    } else {
        (s, None)
    }
}

/// A key split into its base name and its locale, if any.
#[derive(Debug, Clone)]
pub struct LocalizedKey {
    pub key: String,
    pub locale: Option<String>,
}

pub open spec fn opt_string_view(o: Option<String>) -> Option<Seq<char>> {
    match o {
        Some(s) => Some(s@),
        None => None,
    }
}

impl LocalizedKey {
    pub open spec fn parts(&self) -> (Seq<char>, Option<Seq<char>>) {
        (self.key@, opt_string_view(self.locale))
    }

    /// Splits `Key[locale]` into `Key` and `locale`.
    pub fn parse(input: &str) -> (r: Self)
        ensures
            r.parts() == key_parts(input@),
    {
        let v = chars_of(input);
        let b = find_char(&v, '[');
        let e = find_char(&v, ']');
        if b < v.len() && e < v.len() && b < e {
            let key = slice_chars(&v, 0, b);
            let locale = slice_chars(&v, b + 1, e);
            assert(key@ =~= v@.take(b as int));
            LocalizedKey { key: string_of(&key), locale: Some(string_of(&locale)) }
        } else {
            LocalizedKey { key: string_of(&v), locale: None }
        }
    }
}

/// `loc` without its `.ENCODING` part: what runs from the first `.` up to
/// the next `@`, or to the end.
pub open spec fn strip_encoding(loc: Seq<char>) -> Seq<char> {
    let dot = first_index(loc, '.');
    let after = loc.skip(dot);
    loc.take(dot) + after.skip(first_index(after, '@'))
}

/// The locale tags to try for a requested locale, in order: with any
/// `.ENCODING` removed and the rest read as `lang[_COUNTRY][@MODIFIER]`,
/// `lang_COUNTRY@MODIFIER`, `lang_COUNTRY`, `lang@MODIFIER`, each where its
/// parts are present, and last `lang`.
pub open spec fn locale_candidates(loc: Seq<char>) -> Seq<Seq<char>> {
    let l = strip_encoding(loc);
    let at = first_index(l, '@');
    let base = l.take(at);
    let us = first_index(base, '_');
    let lang = base.take(us);
    let country = base.skip(us + 1);
    let modifier = l.skip(at);
    let has_country = us < base.len();
    let has_modifier = at < l.len();
    let mid = if has_country && has_modifier {
        seq![lang + seq!['_'] + country + modifier, lang + seq!['_'] + country, lang + modifier]
    } else if has_country {
        seq![lang + seq!['_'] + country]
    } else if has_modifier {
        seq![lang + modifier]
    } else {
        seq![]
    };
    mid + seq![lang]
}

fn concat3(a: &Vec<char>, b: &Vec<char>, c: &Vec<char>) -> (r: Vec<char>)
    ensures
        r@ == a@ + b@ + c@,
{
    let mut r: Vec<char> = Vec::new();
    extend_chars(&mut r, a);
    extend_chars(&mut r, b);
    extend_chars(&mut r, c);
    assert(r@ =~= a@ + b@ + c@);
    r
}

/// The locale tags to try for `loc`, in the order of `locale_candidates`.
pub fn locale_candidate_list(loc: &Vec<char>) -> (r: Vec<Vec<char>>)
    ensures
        r@.map_values(|c: Vec<char>| c@) == locale_candidates(loc@),
{
    let dot = find_char(loc, '.');
    let head = slice_chars(loc, 0, dot);
    let after = slice_chars(loc, dot, loc.len());
    assert(after@ =~= loc@.skip(dot as int));
    let enc_end = find_char(&after, '@');
    let tail = slice_chars(&after, enc_end, after.len());
    let l = concat3(&head, &tail, &Vec::new());
    assert(l@ =~= strip_encoding(loc@));
    let at = find_char(&l, '@');
    let base = slice_chars(&l, 0, at);
    assert(base@ =~= l@.take(at as int));
    let us = find_char(&base, '_');
    let lang = slice_chars(&base, 0, us);
    assert(lang@ =~= base@.take(us as int));
    let modifier = slice_chars(&l, at, l.len());
    assert(modifier@ =~= l@.skip(at as int));
    let underscore: Vec<char> = vec!['_'];
    let empty: Vec<char> = Vec::new();
    let mut r: Vec<Vec<char>> = Vec::new();
    let ghost mid: Seq<Seq<char>>;
    if us < base.len() {
        let country = slice_chars(&base, us + 1, base.len());
        assert(country@ =~= base@.skip(us + 1));
        let lang_country = concat3(&lang, &underscore, &country);
        if at < l.len() {
            let full = concat3(&lang_country, &modifier, &empty);
            let lang_mod = concat3(&lang, &modifier, &empty);
            proof {
                mid = seq![full@, lang_country@, lang_mod@];
            }
            r.push(full);
            r.push(lang_country);
            r.push(lang_mod);
        } else {
            proof {
                mid = seq![lang_country@];
            }
            r.push(lang_country);
        }
    } else if at < l.len() {
        let lang_mod = concat3(&lang, &modifier, &empty);
        proof {
            mid = seq![lang_mod@];
        }
        r.push(lang_mod);
    } else {
        proof {
            mid = seq![];
        }
    }
    let ghost lang_v = lang@;
    r.push(lang);
    assert(r@.map_values(|c: Vec<char>| c@) =~= mid + seq![lang_v]);
    assert(empty@ =~= Seq::<char>::empty());
    assert(r@.map_values(|c: Vec<char>| c@) =~~= locale_candidates(loc@));
    r
}

} // verus!
