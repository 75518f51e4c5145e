//! Typed values: escape sequences, `;`-separated lists, and the
//! classification of a raw value into a boolean, a number, a list or a string.
use vstd::prelude::*;
use crate::text::{chars_of, string_of, trim, trim_chars};

verus! {

/// The model of a classified value.
pub ghost enum Value {
    Boolean(bool),
    /// The decimal text, as written (after unescaping).
    Numeric(Seq<char>),
    Str(Seq<char>),
    List(Seq<Seq<char>>),
}

/// A value of an entry, classified once when the file is read.
#[derive(Debug, Clone, PartialEq)]
pub enum ValueType {
    String(String),
    Boolean(bool),
    /// A finite decimal number, kept as its text; `str::parse::<f64>` reads it.
    Numeric(String),
    StringList(Vec<String>),
}

pub open spec fn strings_view(v: Seq<String>) -> Seq<Seq<char>> {
    v.map_values(|s: String| s@)
}

impl View for ValueType {
    type V = Value;

    open spec fn view(&self) -> Value {
        match self {
            ValueType::String(s) => Value::Str(s@),
            ValueType::Boolean(b) => Value::Boolean(*b),
            ValueType::Numeric(s) => Value::Numeric(s@),
            ValueType::StringList(l) => Value::List(strings_view(l@)),
        }
    }
}

/// What the escape sequence `\c` stands for; unknown ones stay as written.
pub open spec fn escaped(c: char) -> Seq<char> {
    if c == 's' {
        seq![' ']
    } else if c == 'n' {
        seq!['\n']
    } else if c == 't' {
        seq!['\t']
    } else if c == 'r' {
        seq!['\r']
    } else if c == '\\' {
        seq!['\\']
    } else if c == ';' {
        seq![';']
    } else {
        seq!['\\', c]
    }
}

/// `s` with its escape sequences replaced, read from left to right.
pub open spec fn unescape(s: Seq<char>) -> Seq<char>
    decreases s.len(),
{
    if s.len() == 0 {
        seq![]
    } else if s[0] == '\\' && s.len() >= 2 {
        escaped(s[1]) + unescape(s.skip(2))
    } else {
        seq![s[0]] + unescape(s.drop_first())
    }
}

/// The raw pieces of `s` between unescaped `;`. An escaped `\;` becomes a
/// plain `;` inside its piece; other escapes are kept for `unescape`.
pub open spec fn segments(s: Seq<char>) -> Seq<Seq<char>>
    decreases s.len(),
{
    if s.len() == 0 {
        seq![seq![]]
    } else if s[0] == '\\' && s.len() >= 2 {
        let rest = segments(s.skip(2));
        let head = if s[1] == ';' {
            seq![';']
        } else {
            seq!['\\', s[1]]
        };
        rest.update(0, head + rest[0])
    } else if s[0] == ';' {
        seq![seq![]] + segments(s.drop_first())
    } else {
        let rest = segments(s.drop_first());
        rest.update(0, seq![s[0]] + rest[0])
    }
}

/// Whether `s` holds a `;` that is not escaped.
pub open spec fn has_separator(s: Seq<char>) -> bool {
    segments(s).len() > 1
}

/// The pieces, trimmed and unescaped, with the empty ones dropped.
pub open spec fn clean_items(pieces: Seq<Seq<char>>) -> Seq<Seq<char>>
    decreases pieces.len(),
{
    if pieces.len() == 0 {
        seq![]
    } else {
        let prev = clean_items(pieces.drop_last());
        let t = trim(pieces.last());
        if t.len() == 0 {
            prev
        } else {
            prev.push(unescape(t))
        }
    }
}

/// The items of a `;`-separated list.
pub open spec fn list_items(s: Seq<char>) -> Seq<Seq<char>> {
    clean_items(segments(s))
}

pub open spec fn is_digit(c: char) -> bool {
    48 <= (c as u32) <= 57
}

pub open spec fn digits_only(s: Seq<char>) -> bool {
    forall|i: int| 0 <= i < s.len() ==> is_digit(#[trigger] s[i])
}

pub open spec fn strip_sign(s: Seq<char>) -> Seq<char> {
    if s.len() > 0 && (s[0] == '+' || s[0] == '-') {
        s.drop_first()
    } else {
        s
    }
}

/// `Digit+`, `Digit+ '.' Digit*` or `Digit* '.' Digit+`.
pub open spec fn is_mantissa(m: Seq<char>) -> bool {
    (m.len() > 0 && digits_only(m)) || exists|k: int|
        0 <= k < m.len() && m[k] == '.' && m.len() >= 2 && digits_only(m.take(k)) && digits_only(
            m.skip(k + 1),
        )
}

pub open spec fn is_exp_marker(c: char) -> bool {
    c == 'e' || c == 'E'
}

/// `Sign? Digit+`.
pub open spec fn is_exponent(x: Seq<char>) -> bool {
    strip_sign(x).len() > 0 && digits_only(strip_sign(x))
}

/// A finite decimal: `Sign? Mantissa (('e' | 'E') Sign? Digit+)?`.
pub open spec fn is_decimal(s: Seq<char>) -> bool {
    let b = strip_sign(s);
    is_mantissa(b) || exists|k: int|
        0 <= k < b.len() && is_exp_marker(b[k]) && is_mantissa(b.take(k)) && is_exponent(
            b.skip(k + 1),
        )
}

/// Whether `s` is `word` up to ASCII case; `word` is in lower case.
pub open spec fn is_word_ci(s: Seq<char>, word: Seq<char>) -> bool {
    s.len() == word.len() && forall|i: int|
        0 <= i < s.len() ==> (#[trigger] s[i] == word[i] || (s[i] as u32) + 32 == (word[i] as u32))
}

pub open spec fn word_true() -> Seq<char> {
    seq!['t', 'r', 'u', 'e']
}

pub open spec fn word_false() -> Seq<char> {
    seq!['f', 'a', 'l', 's', 'e']
}

/// The value that a raw (trimmed, still escaped) text stands for.
pub open spec fn classify(raw: Seq<char>) -> Value {
    let u = unescape(raw);
    if is_word_ci(u, word_true()) {
        Value::Boolean(true)
    } else if is_word_ci(u, word_false()) {
        Value::Boolean(false)
    } else if is_decimal(u) {
        Value::Numeric(u)
    } else if has_separator(raw) {
        Value::List(list_items(raw))
    } else {
        Value::Str(u)
    }
}

pub fn unescape_chars(v: &Vec<char>) -> (r: Vec<char>)
    ensures
        r@ == unescape(v@),
{
    let n = v.len();
    let mut out: Vec<char> = Vec::new();
    let mut i: usize = 0;
    assert(v@.skip(0) =~= v@);
    while i < n
        invariant
            i <= n == v.len(),
            out@ + unescape(v@.skip(i as int)) == unescape(v@),
        decreases n - i,
    {
        let c = v[i];
        if c == '\\' && i + 1 < n {
            let d = v[i + 1];
            assert(v@.skip(i as int).skip(2) =~= v@.skip(i + 2));
            let ghost before = out@;
            if d == 's' {
                out.push(' ');
            } else if d == 'n' {
                out.push('\n');
            } else if d == 't' {
                out.push('\t');
            } else if d == 'r' {
                out.push('\r');
            } else if d == '\\' {
                out.push('\\');
            } else if d == ';' {
                out.push(';');
            } else {
                out.push('\\');
                out.push(d);
            }
            assert(out@ =~= before + escaped(d));
            assert(out@ + unescape(v@.skip(i + 2)) =~= before + unescape(v@.skip(i as int)));
            i = i + 2;
        } else {
            assert(v@.skip(i as int).drop_first() =~= v@.skip(i + 1));
            let ghost before = out@;
            out.push(c);
            assert(out@ + unescape(v@.skip(i + 1)) =~= before + unescape(v@.skip(i as int)));
            i = i + 1;
        }
    }
    assert(out@ + unescape(v@.skip(n as int)) =~= out@);
    out
}

/// `value` with its escape sequences (`\s`, `\n`, `\t`, `\r`, `\\`, `\;`)
/// replaced; any other backslash is kept as written.
pub fn unescape_value(value: &str) -> (r: String)
    ensures
        r@ == unescape(value@),
{
    let v = chars_of(value);
    let u = unescape_chars(&v);
    string_of(&u)
}

proof fn lemma_segments_nonempty(s: Seq<char>)
    ensures
        segments(s).len() >= 1,
    decreases s.len(),
{
    if s.len() == 0 {
    } else if s[0] == '\\' && s.len() >= 2 {
        lemma_segments_nonempty(s.skip(2));
    } else {
        lemma_segments_nonempty(s.drop_first());
    }
}

/// The whole of `done`, then `cur` glued to the first piece of `rest`, then
/// the other pieces of `rest`.
spec fn glue(done: Seq<Seq<char>>, cur: Seq<char>, rest: Seq<Seq<char>>) -> Seq<Seq<char>> {
    done + seq![cur + rest[0]] + rest.drop_first()
}

/// The items of a `;`-separated list, and whether it held a separator.
pub fn split_list_chars(v: &Vec<char>) -> (r: (Vec<String>, bool))
    ensures
        strings_view(r.0@) == list_items(v@),
        r.1 == has_separator(v@),
{
    let n = v.len();
    let mut items: Vec<String> = Vec::new();
    let mut cur: Vec<char> = Vec::new();
    let mut seen: bool = false;
    let ghost mut done: Seq<Seq<char>> = seq![];
    assert(v@.skip(0) =~= v@);
    proof {
        lemma_segments_nonempty(v@);
        assert(glue(done, cur@, segments(v@)) =~= segments(v@));
    }
    let mut i: usize = 0;
    while i < n
        invariant
            i <= n == v.len(),
            segments(v@) == glue(done, cur@, segments(v@.skip(i as int))),
            strings_view(items@) == clean_items(done),
            seen == (done.len() > 0),
        decreases n - i,
    {
        let c = v[i];
        proof {
            lemma_segments_nonempty(v@.skip(i as int));
        }
        if c == '\\' && i + 1 < n {
            let d = v[i + 1];
            assert(v@.skip(i as int).skip(2) =~= v@.skip(i + 2));
            proof {
                lemma_segments_nonempty(v@.skip(i + 2));
            }
            let ghost before = cur@;
            if d == ';' {
                cur.push(';');
            } else {
                cur.push('\\');
                cur.push(d);
            }
            proof {
                let rest = segments(v@.skip(i + 2));
                let head = if d == ';' {
                    seq![';']
                } else {
                    seq!['\\', d]
                };
                let s = v@.skip(i as int);
                assert(s[0] == c && s[1] == d);
                assert(segments(s) == rest.update(0, head + rest[0]));
                assert(cur@ =~= before + head);
                assert(before + (head + rest[0]) =~= cur@ + rest[0]);
                assert(rest.update(0, head + rest[0]).drop_first() =~= rest.drop_first());
                assert(glue(done, cur@, rest) =~~= glue(done, before, segments(s)));
            }
            i = i + 2;
        } else if c == ';' {
            assert(v@.skip(i as int).drop_first() =~= v@.skip(i + 1));
            proof {
                lemma_segments_nonempty(v@.skip(i + 1));
            }
            let t = trim_chars(&cur);
            if t.len() > 0 {
                let u = unescape_chars(&t);
                let s = string_of(&u);
                items.push(s);
            }
            proof {
                let rest = segments(v@.skip(i + 1));
                let nd = done.push(cur@);
                assert(nd.drop_last() =~= done);
                assert(strings_view(items@) =~= clean_items(nd));
                assert(glue(nd, seq![], rest) =~= glue(done, cur@, segments(v@.skip(i as int))));
                done = nd;
            }
            cur = Vec::new();
            seen = true;
            i = i + 1;
        } else {
            assert(v@.skip(i as int).drop_first() =~= v@.skip(i + 1));
            proof {
                lemma_segments_nonempty(v@.skip(i + 1));
            }
            let ghost before = cur@;
            cur.push(c);
            proof {
                let rest = segments(v@.skip(i + 1));
                let s = v@.skip(i as int);
                assert(s[0] == c);
                assert(segments(s) == rest.update(0, seq![c] + rest[0]));
                assert(before + (seq![c] + rest[0]) =~= cur@ + rest[0]);
                assert(rest.update(0, seq![c] + rest[0]).drop_first() =~= rest.drop_first());
                assert(glue(done, cur@, rest) =~~= glue(done, before, segments(s)));
            }
            i = i + 1;
        }
    }
    assert(v@.skip(n as int) =~= seq![]);
    let t = trim_chars(&cur);
    if t.len() > 0 {
        let u = unescape_chars(&t);
        let s = string_of(&u);
        items.push(s);
    }
    proof {
        let nd = done.push(cur@);
        assert(segments(v@) =~= nd);
        assert(nd.drop_last() =~= done);
        assert(strings_view(items@) =~= clean_items(nd));
    }
    (items, seen)
}

pub fn is_digit_char(c: char) -> (r: bool)
    ensures
        r == is_digit(c),
{
    let u = c as u32;
    48 <= u && u <= 57
}

/// Whether `v[from..to]` holds digits only.
fn all_digits(v: &Vec<char>, from: usize, to: usize) -> (r: bool)
    requires
        from <= to <= v.len(),
    ensures
        r == digits_only(v@.subrange(from as int, to as int)),
{
    let mut i: usize = from;
    while i < to
        invariant
            from <= i <= to <= v.len(),
            forall|j: int| from <= j < i ==> is_digit(#[trigger] v@[j]),
        decreases to - i,
    {
        if !is_digit_char(v[i]) {
            assert(v@.subrange(from as int, to as int)[i - from] == v@[i as int]);
            return false;
        }
        i = i + 1;
    }
    assert forall|j: int| 0 <= j < to - from implies is_digit(
        #[trigger] v@.subrange(from as int, to as int)[j],
    ) by {
        assert(v@.subrange(from as int, to as int)[j] == v@[from + j]);
    }
    true
}

/// The index of the first `.` in `from..to`, or `to`.
fn find_first_dot(v: &Vec<char>, from: usize, to: usize) -> (r: usize)
    requires
        from <= to <= v.len(),
    ensures
        from <= r <= to,
        r < to ==> v@[r as int] == '.',
        forall|j: int| from <= j < r ==> v@[j] != '.',
{
    let mut i: usize = from;
    while i < to
        invariant
            from <= i <= to <= v.len(),
            forall|j: int| from <= j < i ==> v@[j] != '.',
        decreases to - i,
    {
        if v[i] == '.' {
            return i;
        }
        i = i + 1;
    }
    i
}

fn find_first_exp(v: &Vec<char>, from: usize, to: usize) -> (r: usize)
    requires
        from <= to <= v.len(),
    ensures
        from <= r <= to,
        r < to ==> is_exp_marker(v@[r as int]),
        forall|j: int| from <= j < r ==> !is_exp_marker(v@[j]),
{
    let mut i: usize = from;
    while i < to
        invariant
            from <= i <= to <= v.len(),
            forall|j: int| from <= j < i ==> !is_exp_marker(v@[j]),
        decreases to - i,
    {
        if v[i] == 'e' || v[i] == 'E' {
            return i;
        }
        i = i + 1;
    }
    i
}

proof fn lemma_mantissa_chars(m: Seq<char>, i: int)
    requires
        is_mantissa(m),
        0 <= i < m.len(),
    ensures
        is_digit(m[i]) || m[i] == '.',
{
    if m.len() > 0 && digits_only(m) {
    } else {
        let k = choose|k: int|
            0 <= k < m.len() && m[k] == '.' && m.len() >= 2 && digits_only(m.take(k))
                && digits_only(m.skip(k + 1));
        if i < k {
            assert(m.take(k)[i] == m[i]);
        } else if i > k {
            assert(m.skip(k + 1)[i - k - 1] == m[i]);
        }
    }
}

/// Whether `v[from..to]` is a mantissa.
fn mantissa_ok(v: &Vec<char>, from: usize, to: usize) -> (r: bool)
    requires
        from <= to <= v.len(),
    ensures
        r == is_mantissa(v@.subrange(from as int, to as int)),
{
    let ghost m = v@.subrange(from as int, to as int);
    let k = find_first_dot(v, from, to);
    if k == to {
        let r = to > from && all_digits(v, from, to);
        assert(!exists|j: int| 0 <= j < m.len() && m[j] == '.' && m.len() >= 2 && digits_only(m.take(j)) && digits_only(m.skip(j + 1))) by {
            assert forall|j: int| 0 <= j < m.len() implies m[j] != '.' by {
                assert(m[j] == v@[from + j]);
            }
        }
        r
    } else {
        let ghost kk: int = k - from;
        assert(m[kk] == '.');
        assert(!digits_only(m));
        let r = to - from >= 2 && all_digits(v, from, k) && all_digits(v, k + 1, to);
        assert(m.take(kk) =~= v@.subrange(from as int, k as int));
        assert(m.skip(kk + 1) =~= v@.subrange(k + 1, to as int));
        if !r {
            assert forall|j: int| 0 <= j < m.len() && m[j] == '.' && m.len() >= 2 implies !(
            digits_only(m.take(j)) && digits_only(m.skip(j + 1))) by {
                if j < kk {
                    assert(m[j] == v@[from + j]);
                } else if j > kk {
                    assert(m.take(j)[kk] == '.');
                }
            }
        }
        r
    }
}

/// Whether `v[from..to]` is an exponent: `Sign? Digit+`.
fn exponent_ok(v: &Vec<char>, from: usize, to: usize) -> (r: bool)
    requires
        from <= to <= v.len(),
    ensures
        r == is_exponent(v@.subrange(from as int, to as int)),
{
    let ghost x = v@.subrange(from as int, to as int);
    let mut start = from;
    if from < to && (v[from] == '+' || v[from] == '-') {
        start = from + 1;
    }
    assert(strip_sign(x) =~= v@.subrange(start as int, to as int));
    to > start && all_digits(v, start, to)
}

/// Whether `v` is a finite decimal number.
pub fn is_decimal_chars(v: &Vec<char>) -> (r: bool)
    ensures
        r == is_decimal(v@),
{
    let n = v.len();
    let mut start: usize = 0;
    if n > 0 && (v[0] == '+' || v[0] == '-') {
        start = 1;
    }
    let ghost b = strip_sign(v@);
    assert(b =~= v@.subrange(start as int, n as int));
    let k = find_first_exp(v, start, n);
    if k == n {
        let r = mantissa_ok(v, start, n);
        assert forall|j: int| 0 <= j < b.len() implies !is_exp_marker(#[trigger] b[j]) by {
            assert(b[j] == v@[start + j]);
        }
        r
    } else {
        let ghost kk: int = k - start;
        assert(is_exp_marker(b[kk]));
        proof {
            if is_mantissa(b) {
                lemma_mantissa_chars(b, kk);
            }
        }
        let r = mantissa_ok(v, start, k) && exponent_ok(v, k + 1, n);
        assert(b.take(kk) =~= v@.subrange(start as int, k as int));
        assert(b.skip(kk + 1) =~= v@.subrange(k + 1, n as int));
        if !r {
            assert forall|j: int| 0 <= j < b.len() && is_exp_marker(b[j]) implies !(is_mantissa(
                b.take(j),
            ) && is_exponent(b.skip(j + 1))) by {
                if j < kk {
                    assert(b[j] == v@[start + j]);
                } else if j > kk {
                    assert(b.take(j)[kk] == b[kk]);
                    if is_mantissa(b.take(j)) {
                        lemma_mantissa_chars(b.take(j), kk);
                    }
                }
            }
        }
        r
    }
}

/// Whether `v` spells `word` (given in lower case) up to ASCII case.
fn is_word_ci_chars(v: &Vec<char>, word: &Vec<char>) -> (r: bool)
    ensures
        r == is_word_ci(v@, word@),
{
    if v.len() != word.len() {
        return false;
    }
    let mut i: usize = 0;
    while i < v.len()
        invariant
            i <= v.len() == word.len(),
            forall|j: int| 0 <= j < i ==> (#[trigger] v@[j] == word@[j] || (v@[j] as u32) + 32 == (word@[j] as u32)),
        decreases v.len() - i,
    {
        let c = v[i];
        let w = word[i];
        let cu = c as u32;
        let wu = w as u32;
        if !(c == w || (wu >= 32 && cu == wu - 32)) {
            return false;
        }
        i = i + 1;
    }
    true
}

/// Classifies a raw value (trimmed, still escaped): a boolean, then a
/// number, then a list where an unescaped `;` occurs, else a string.
pub fn parse_value(value: &str) -> (r: ValueType)
    ensures
        r@ == classify(value@),
{
    let raw = chars_of(value);
    let u = unescape_chars(&raw);
    let t: Vec<char> = vec!['t', 'r', 'u', 'e'];
    let f: Vec<char> = vec!['f', 'a', 'l', 's', 'e'];
    assert(t@ =~= word_true());
    assert(f@ =~= word_false());
    if is_word_ci_chars(&u, &t) {
        return ValueType::Boolean(true);
    }
    if is_word_ci_chars(&u, &f) {
        return ValueType::Boolean(false);
    }
    if is_decimal_chars(&u) {
        return ValueType::Numeric(string_of(&u));
    }
    let (items, seen) = split_list_chars(&raw);
    if seen {
        return ValueType::StringList(items);
    }
    ValueType::String(string_of(&u))
}

/// The items of a `;`-separated list: split at each unescaped `;`, each
/// piece trimmed and unescaped, empty pieces dropped.
pub fn split_semicolon_list(value: &str) -> (r: Vec<String>)
    ensures
        strings_view(r@) == list_items(value@),
{
    let raw = chars_of(value);
    let (items, _seen) = split_list_chars(&raw);
    items
}

} // verus!
