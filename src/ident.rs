//! The desktop file identifier of an entry, derived from its path.
use vstd::prelude::*;
use crate::text::{chars_eq, chars_of, slice_chars, string_of};

verus! {

/// The first index from `i` on where `p` occurs in `s`.
pub open spec fn find_from(s: Seq<char>, p: Seq<char>, i: int) -> Option<int>
    decreases s.len() + 1 - i,
    when 0 <= i
{
    if i + p.len() > s.len() {
        None
    } else if s.subrange(i, i + p.len()) == p {
        Some(i)
    } else {
        find_from(s, p, i + 1)
    }
}

/// The index of the last `c` in `s`, or -1.
pub open spec fn last_index(s: Seq<char>, c: char) -> int
    decreases s.len(),
{
    if s.len() == 0 {
        -1
    } else if s.last() == c {
        s.len() - 1
    } else {
        last_index(s.drop_last(), c)
    }
}

/// `s` without the `/` characters that end it.
pub open spec fn strip_trailing_slashes(s: Seq<char>) -> Seq<char>
    decreases s.len(),
{
    if s.len() > 0 && s.last() == '/' {
        strip_trailing_slashes(s.drop_last())
    } else {
        s
    }
}

/// The last component of a path; separators that end the path are ignored.
pub open spec fn base_name(path: Seq<char>) -> Seq<char> {
    let p = strip_trailing_slashes(path);
    p.skip(last_index(p, '/') + 1)
}

/// The file name without its extension; none for an empty name or `..`.
/// A name whose only dot leads it (`.hidden`) keeps it.
pub open spec fn file_stem(path: Seq<char>) -> Option<Seq<char>> {
    let name = base_name(path);
    if name.len() == 0 || name == ".."@ {
        None
    } else {
        let d = last_index(name, '.');
        if d <= 0 {
            Some(name)
        } else {
            Some(name.take(d))
        }
    }
}

pub open spec fn dashes(s: Seq<char>) -> Seq<char> {
    s.map_values(
        |c: char|
            if c == '/' {
                '-'
            } else {
                c
            },
    )
}

/// The identifier for an entry file at `path`: below the first
/// `/applications/`, without `.desktop`, with `/` replaced by `-`; failing
/// that, the file name without its extension.
pub open spec fn desktop_id(path: Seq<char>) -> Option<Seq<char>> {
    let marker = "/applications/"@;
    let suffix = ".desktop"@;
    match find_from(path, marker, 0) {
        Some(p) => {
            let after = path.skip(p + marker.len());
            if after.len() >= suffix.len() && after.skip(after.len() - suffix.len()) == suffix {
                Some(dashes(after.take(after.len() - suffix.len())))
            } else {
                file_stem(path)
            }
        },
        None => file_stem(path),
    }
}

/// Whether `p` occurs in `v` at `i`.
fn occurs_at(v: &Vec<char>, p: &Vec<char>, i: usize) -> (r: bool)
    requires
        i + p.len() <= v.len(),
    ensures
        r == (v@.subrange(i as int, i + p.len()) == p@),
{
    let mut j: usize = 0;
    while j < p.len()
        invariant
            j <= p.len(),
            i + p.len() <= v.len(),
            forall|k: int| 0 <= k < j ==> v@[i + k] == p@[k],
        decreases p.len() - j,
    {
        if v[i + j] != p[j] {
            assert(v@.subrange(i as int, i + p.len())[j as int] != p@[j as int]);
            return false;
        }
        j = j + 1;
    }
    assert(v@.subrange(i as int, i + p.len()) =~= p@);
    true
}

/// The first index where `p` occurs in `v`.
fn find_sub(v: &Vec<char>, p: &Vec<char>) -> (r: Option<usize>)
    ensures
        match r {
            Some(i) => find_from(v@, p@, 0) == Some(i as int) && i + p.len() <= v.len(),
            None => find_from(v@, p@, 0) is None,
        },
{
    if p.len() > v.len() {
        return None;
    }
    let last = v.len() - p.len();
    let mut i: usize = 0;
    while i < last
        invariant
            i <= last,
            last == v.len() - p.len(),
            find_from(v@, p@, 0) == find_from(v@, p@, i as int),
        decreases last - i,
    {
        if occurs_at(v, p, i) {
            return Some(i);
        }
        i = i + 1;
    }
    if occurs_at(v, p, last) {
        return Some(last);
    }
    assert(find_from(v@, p@, last + 1) is None);
    None
}

/// The index of the last `c` in `v`.
pub fn find_last(v: &Vec<char>, c: char) -> (r: Option<usize>)
    ensures
        match r {
            Some(i) => i < v.len() && last_index(v@, c) == i,
            None => last_index(v@, c) == -1,
        },
{
    let mut j: usize = v.len();
    assert(v@.take(j as int) =~= v@);
    while j > 0
        invariant
            j <= v.len(),
            last_index(v@, c) == last_index(v@.take(j as int), c),
        decreases j,
    {
        if v[j - 1] == c {
            return Some(j - 1);
        }
        assert(v@.take(j as int).drop_last() =~= v@.take(j - 1));
        j = j - 1;
    }
    None
}

fn file_stem_chars(v: &Vec<char>) -> (r: Option<Vec<char>>)
    ensures
        match r {
            Some(x) => file_stem(v@) == Some(x@),
            None => file_stem(v@) is None,
        },
{
    let mut end: usize = v.len();
    assert(v@.take(end as int) =~= v@);
    while end > 0 && v[end - 1] == '/'
        invariant
            end <= v.len(),
            strip_trailing_slashes(v@) == strip_trailing_slashes(v@.take(end as int)),
        decreases end,
    {
        assert(v@.take(end as int).drop_last() =~= v@.take(end - 1));
        end = end - 1;
    }
    let p = slice_chars(v, 0, end);
    assert(p@ =~= v@.take(end as int));
    assert(strip_trailing_slashes(v@) == p@);
    let start = match find_last(&p, '/') {
        Some(i) => i + 1,
        None => 0,
    };
    let name = slice_chars(&p, start, p.len());
    assert(name@ =~= base_name(v@));
    if name.len() == 0 || chars_eq(&name, &chars_of("..")) {
        return None;
    }
    match find_last(&name, '.') {
        Some(d) => if d == 0 {
            Some(name)
        } else {
            let stem = slice_chars(&name, 0, d);
            assert(stem@ =~= name@.take(d as int));
            Some(stem)
        },
        None => Some(name),
    }
}

/// The desktop file identifier of an entry file at `path`.
pub fn desktop_file_id(path: &str) -> (r: Option<String>)
    ensures
        match r {
            Some(x) => desktop_id(path@) == Some(x@),
            None => desktop_id(path@) is None,
        },
{
    let v = chars_of(path);
    let marker = chars_of("/applications/");
    let suffix = chars_of(".desktop");
    let fallback = match file_stem_chars(&v) {
        Some(x) => Some(string_of(&x)),
        None => None,
    };
    match find_sub(&v, &marker) {
        None => fallback,
        Some(p) => {
            let after = slice_chars(&v, p + marker.len(), v.len());
            assert(after@ =~= v@.skip(p + marker@.len()));
            if after.len() >= suffix.len() && occurs_at(&after, &suffix, after.len() - suffix.len()) {
                let stem_len = after.len() - suffix.len();
                assert(after@.subrange(stem_len as int, stem_len + suffix.len()) =~= after@.skip(
                    after@.len() - suffix@.len(),
                ));
                let mut out: Vec<char> = Vec::new();
                let mut k: usize = 0;
                while k < stem_len
                    invariant
                        k <= stem_len <= after.len(),
                        out@ == dashes(after@.take(k as int)),
                    decreases stem_len - k,
                {
                    let c = after[k];
                    if c == '/' {
                        out.push('-');
                    } else {
                        out.push(c);
                    }
                    k = k + 1;
                    assert(out@ =~= dashes(after@.take(k as int)));
                }
                Some(string_of(&out))
            } else {
                proof {
                    if after@.len() >= suffix@.len() {
                        assert(after@.subrange(
                            (after.len() - suffix.len()) as int,
                            after@.len() as int,
                        ) =~= after@.skip(after@.len() - suffix@.len()));
                    }
                }
                fallback
            }
        },
    }
}

} // verus!
