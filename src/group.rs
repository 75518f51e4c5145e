//! A named group of an entry file: its fields, plain and localized.
use vstd::prelude::*;
use crate::locale::{key_parts, locale_candidate_list, locale_candidates, LocalizedKey};
use crate::text::{chars_of, chars_eq};
use crate::value::{Value, ValueType};

verus! {

/// A field is found by its base key and its locale tag (none for the plain
/// field).
pub type FieldKey = (Seq<char>, Option<Seq<char>>);

/// One stored field.
#[derive(Debug, Clone)]
pub struct Field {
    pub key: Vec<char>,
    pub locale: Option<Vec<char>>,
    pub value: ValueType,
}

impl Field {
    pub open spec fn field_key(&self) -> FieldKey {
        (
            self.key@,
            match self.locale {
                Some(l) => Some(l@),
                None => None,
            },
        )
    }
}

/// The mapping that a list of stored fields stands for: a later field with
/// the same key replaces an earlier one.
pub open spec fn field_map(s: Seq<Field>) -> Map<FieldKey, Value>
    decreases s.len(),
{
    if s.len() == 0 {
        Map::empty()
    } else {
        field_map(s.drop_last()).insert(s.last().field_key(), s.last().value@)
    }
}

pub open spec fn lookup(m: Map<FieldKey, Value>, k: FieldKey) -> Option<Value> {
    if m.contains_key(k) {
        Some(m[k])
    } else {
        None
    }
}

/// The value of the first candidate locale that `key` has a field for.
pub open spec fn first_hit(m: Map<FieldKey, Value>, key: Seq<char>, cands: Seq<Seq<char>>) -> Option<
    Value,
>
    decreases cands.len(),
{
    if cands.len() == 0 {
        None
    } else if m.contains_key((key, Some(cands[0]))) {
        Some(m[(key, Some(cands[0]))])
    } else {
        first_hit(m, key, cands.drop_first())
    }
}

/// The value of `key` for a requested locale: without a locale the plain
/// field; with one, the first locale candidate that has a field, else the
/// plain field.
pub open spec fn resolve(m: Map<FieldKey, Value>, key: Seq<char>, locale: Option<Seq<char>>) -> Option<
    Value,
> {
    match locale {
        None => lookup(m, (key, None)),
        Some(loc) => match first_hit(m, key, locale_candidates(loc)) {
            Some(v) => Some(v),
            None => lookup(m, (key, None)),
        },
    }
}

pub open spec fn opt_value_view(o: Option<&ValueType>) -> Option<Value> {
    match o {
        Some(v) => Some(v@),
        None => None,
    }
}

/// A group: its name and its fields.
#[derive(Debug, Clone)]
pub struct DesktopEntryGroup {
    pub name: String,
    pub entries: Vec<Field>,
}

proof fn lemma_field_map_last(s: Seq<Field>, k: FieldKey, i: int)
    requires
        0 <= i < s.len(),
        s[i].field_key() == k,
        forall|j: int| i < j < s.len() ==> s[j].field_key() != k,
    ensures
        field_map(s).contains_key(k),
        field_map(s)[k] == s[i].value@,
    decreases s.len(),
{
    if i < s.len() - 1 {
        lemma_field_map_last(s.drop_last(), k, i);
    }
}

proof fn lemma_field_map_absent(s: Seq<Field>, k: FieldKey)
    requires
        forall|j: int| 0 <= j < s.len() ==> s[j].field_key() != k,
    ensures
        !field_map(s).contains_key(k),
    decreases s.len(),
{
    if s.len() > 0 {
        lemma_field_map_absent(s.drop_last(), k);
    }
}

fn opt_chars_eq(a: &Option<Vec<char>>, b: Option<&Vec<char>>) -> (r: bool)
    ensures
        r == (match a {
            Some(x) => Some(x@),
            None => None,
        } == match b {
            Some(y) => Some(y@),
            None => None,
        }),
{
    match (a, b) {
        (Some(x), Some(y)) => chars_eq(x, y),
        (None, None) => true,
        _ => false,
    }
}

impl View for DesktopEntryGroup {
    type V = Map<FieldKey, Value>;

    open spec fn view(&self) -> Map<FieldKey, Value> {
        field_map(self.entries@)
    }
}

impl DesktopEntryGroup {
    /// An empty group named `name`.
    pub fn new(name: String) -> (r: Self)
        ensures
            r.name@ == name@,
            r@ == Map::<FieldKey, Value>::empty(),
    {
        DesktopEntryGroup { name, entries: Vec::new() }
    }

    /// Stores `value` under `key`, which may carry a locale (`Name[de]`);
    /// an earlier value of the same key is replaced.
    pub fn insert_field(&mut self, key: &str, value: ValueType)
        ensures
            final(self).name == old(self).name,
            final(self)@ == old(self)@.insert(key_parts(key@), value@),
    {
        let lk = LocalizedKey::parse(key);
        let f = Field {
            key: chars_of(lk.key.as_str()),
            locale: match lk.locale {
                Some(l) => Some(chars_of(l.as_str())),
                None => None,
            },
            value,
        };
        assert(f.field_key() == key_parts(key@));
        let ghost old_entries = self.entries@;
        self.entries.push(f);
        assert(self.entries@.drop_last() =~= old_entries);
    }

    /// The value stored under the key `(key, locale)`.
    pub fn find(&self, key: &Vec<char>, locale: Option<&Vec<char>>) -> (r: Option<&ValueType>)
        ensures
            opt_value_view(r) == lookup(
                self@,
                (
                    key@,
                    match locale {
                        Some(l) => Some(l@),
                        None => None,
                    },
                ),
            ),
    {
        let ghost k: FieldKey = (
            key@,
            match locale {
                Some(l) => Some(l@),
                None => None,
            },
        );
        let mut i: usize = self.entries.len();
        while i > 0
            invariant
                i <= self.entries.len(),
                k == (
                    key@,
                    match locale {
                        Some(l) => Some(l@),
                        None => None,
                    },
                ),
                forall|j: int| i <= j < self.entries.len() ==> self.entries@[j].field_key() != k,
            decreases i,
        {
            let f = &self.entries[i - 1];
            let same_key = chars_eq(&f.key, key);
            let same_locale = opt_chars_eq(&f.locale, locale);
            if same_key && same_locale {
                assert(f.key@ == k.0);
                assert(f.field_key().1 == k.1);
                assert(f.field_key() == k);
                proof {
                    lemma_field_map_last(self.entries@, k, i - 1);
                }
                return Some(&f.value);
            }
            i = i - 1;
        }
        proof {
            lemma_field_map_absent(self.entries@, k);
        }
        None
    }

    /// The plain (not localized) value of `key`.
    pub fn get_field(&self, key: &str) -> (r: Option<&ValueType>)
        ensures
            opt_value_view(r) == lookup(self@, (key@, None)),
    {
        let k = chars_of(key);
        self.find(&k, None)
    }

    /// The value of `key` for `locale`, falling back as `resolve` describes.
    pub fn get_localized_field(&self, key: &str, locale: Option<&str>) -> (r: Option<&ValueType>)
        ensures
            opt_value_view(r) == resolve(
                self@,
                key@,
                match locale {
                    Some(l) => Some(l@),
                    None => None,
                },
            ),
    {
        let k = chars_of(key);
        match locale {
            None => self.find(&k, None),
            Some(loc) => {
                let lv = chars_of(loc);
                let cands = locale_candidate_list(&lv);
                let ghost cv = cands@.map_values(|c: Vec<char>| c@);
                let mut i: usize = 0;
                assert(cv.skip(0) =~= cv);
                while i < cands.len()
                    invariant
                        i <= cands.len(),
                        cv == cands@.map_values(|c: Vec<char>| c@),
                        cv == locale_candidates(lv@),
                        k@ == key@,
                        lv@ == loc@,
                        locale == Some(loc),
                        first_hit(self@, k@, cv) == first_hit(self@, k@, cv.skip(i as int)),
                    decreases cands.len() - i,
                {
                    assert(cv.skip(i as int).drop_first() =~= cv.skip(i + 1));
                    assert(cv.skip(i as int)[0] == cands@[i as int]@);
                    let found = self.find(&k, Some(&cands[i]));
                    if found.is_some() {
                        assert(self@.contains_key((k@, Some(cv.skip(i as int)[0]))));
                        assert(first_hit(self@, k@, cv.skip(i as int)) == opt_value_view(found));
                        return found;
                    }
                    i = i + 1;
                }
                assert(cv.skip(i as int).len() == 0);
                self.find(&k, None)
            },
        }
    }
}

} // verus!
