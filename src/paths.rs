//! Search paths: the application directories below the data directories,
//! the places to look for a program, and the terminal emulators to try.
use vstd::prelude::*;
use crate::text::{chars_of, extend_chars, message, string_of};
use crate::value::strings_view;

verus! {

/// The pieces of `s` between the separators `c`, empty ones included.
pub open spec fn split_on(s: Seq<char>, c: char) -> Seq<Seq<char>>
    decreases s.len(),
{
    if s.len() == 0 {
        seq![seq![]]
    } else {
        let prev = split_on(s.drop_last(), c);
        if s.last() == c {
            prev.push(seq![])
        } else {
            prev.update(prev.len() - 1, prev.last().push(s.last()))
        }
    }
}

proof fn lemma_split_on_len(s: Seq<char>, c: char)
    ensures
        split_on(s, c).len() >= 1,
    decreases s.len(),
{
    if s.len() > 0 {
        lemma_split_on_len(s.drop_last(), c);
    }
}

/// The pieces of `s` between the separators `sep`.
pub fn split_chars(s: &str, sep: char) -> (r: Vec<String>)
    ensures
        strings_view(r@) == split_on(s@, sep),
{
    let v = chars_of(s);
    let mut done: Vec<String> = Vec::new();
    let mut cur: Vec<char> = Vec::new();
    let mut i: usize = 0;
    assert(v@.take(0) =~= Seq::<char>::empty());
    assert(strings_view(done@) + seq![cur@] =~= split_on(v@.take(0), sep));
    while i < v.len()
        invariant
            i <= v.len(),
            v@ == s@,
            split_on(v@.take(i as int), sep) == strings_view(done@) + seq![cur@],
        decreases v.len() - i,
    {
        let c = v[i];
        let ghost t = v@.take(i + 1);
        assert(t.drop_last() =~= v@.take(i as int));
        assert(t.last() == c);
        proof {
            lemma_split_on_len(v@.take(i as int), sep);
        }
        if c == sep {
            let ghost before = strings_view(done@);
            let piece = string_of(&cur);
            done.push(piece);
            assert(strings_view(done@) =~= before.push(cur@));
            cur = Vec::new();
            assert(split_on(t, sep) =~= strings_view(done@) + seq![cur@]);
        } else {
            cur.push(c);
            assert(split_on(t, sep) =~= strings_view(done@) + seq![cur@]);
        }
        i = i + 1;
    }
    assert(v@.take(v.len() as int) =~= v@);
    let ghost before = strings_view(done@);
    done.push(string_of(&cur));
    assert(strings_view(done@) =~= before + seq![cur@]);
    done
}

/// The directories listed in a search-path variable (`a:b:c`), in order;
/// empty pieces are kept for the caller to discard.
pub fn search_path_entries(var: &str) -> (r: Vec<String>)
    ensures
        strings_view(r@) == split_on(var@, ':'),
{
    split_chars(var, ':')
}

/// `base` joined with `name` as one more path component.
pub open spec fn join_path(base: Seq<char>, name: Seq<char>) -> Seq<char> {
    if base.len() == 0 || base.last() == '/' {
        base + name
    } else {
        base + seq!['/'] + name
    }
}

fn join_path_exec(base: &str, name: &str) -> (r: String)
    ensures
        r@ == join_path(base@, name@),
{
    let b = chars_of(base);
    let n = chars_of(name);
    let mut out: Vec<char> = Vec::new();
    extend_chars(&mut out, &b);
    if b.len() > 0 && b[b.len() - 1] != '/' {
        out.push('/');
    }
    extend_chars(&mut out, &n);
    assert(out@ =~= join_path(base@, name@));
    string_of(&out)
}

/// The `applications` directory below each data directory, in order; which
/// of them exist is for the caller to check.
pub fn application_entry_paths(base_dirs: &Vec<String>) -> (r: Vec<String>)
    ensures
        r.len() == base_dirs.len(),
        forall|i: int| 0 <= i < r.len() ==> #[trigger] r@[i]@ == join_path(base_dirs@[i]@, "applications"@),
{
    let mut r: Vec<String> = Vec::new();
    let mut i: usize = 0;
    while i < base_dirs.len()
        invariant
            i <= base_dirs.len(),
            r.len() == i,
            forall|j: int| 0 <= j < i ==> #[trigger] r@[j]@ == join_path(base_dirs@[j]@, "applications"@),
        decreases base_dirs.len() - i,
    {
        r.push(join_path_exec(base_dirs[i].as_str(), "applications"));
        i = i + 1;
    }
    r
}

/// The paths at which `executable` may be found: itself where it is
/// absolute, else the executable in each directory of `search_path`.
pub open spec fn executable_paths(executable: Seq<char>, search_path: Option<Seq<char>>) -> Seq<Seq<char>> {
    if executable.len() > 0 && executable[0] == '/' {
        seq![executable]
    } else {
        match search_path {
            None => seq![],
            Some(p) => split_on(p, ':').map_values(|d: Seq<char>| d + seq!['/'] + executable),
        }
    }
}

/// The paths to check, in order, for whether `executable` is available.
pub fn executable_candidates(executable: &str, search_path: Option<&str>) -> (r: Vec<String>)
    ensures
        strings_view(r@) == executable_paths(
            executable@,
            match search_path {
                Some(p) => Some(p@),
                None => None,
            },
        ),
{
    let e = chars_of(executable);
    if e.len() > 0 && e[0] == '/' {
        let mut r: Vec<String> = Vec::new();
        r.push(string_of(&e));
        assert(strings_view(r@) =~= seq![executable@]);
        return r;
    }
    match search_path {
        None => {
            let r: Vec<String> = Vec::new();
            assert(strings_view(r@) =~= Seq::<Seq<char>>::empty());
            r
        },
        Some(p) => {
            let dirs = split_chars(p, ':');
            let mut r: Vec<String> = Vec::new();
            let mut i: usize = 0;
            while i < dirs.len()
                invariant
                    i <= dirs.len(),
                    e@ == executable@,
                    strings_view(r@) == strings_view(dirs@).take(i as int).map_values(
                        |d: Seq<char>| d + seq!['/'] + executable@,
                    ),
                decreases dirs.len() - i,
            {
                let d = chars_of(dirs[i].as_str());
                let mut out: Vec<char> = Vec::new();
                extend_chars(&mut out, &d);
                out.push('/');
                extend_chars(&mut out, &e);
                assert(out@ =~= dirs@[i as int]@ + seq!['/'] + executable@);
                assert(strings_view(dirs@)[i as int] == dirs@[i as int]@);
                let ghost before = strings_view(r@);
                r.push(string_of(&out));
                assert(strings_view(r@) =~= before.push(dirs@[i as int]@ + seq!['/'] + executable@));
                assert(strings_view(dirs@).take(i + 1).drop_last() =~= strings_view(dirs@).take(i as int));
                i = i + 1;
                assert(strings_view(r@) =~= strings_view(dirs@).take(i as int).map_values(
                    |d: Seq<char>| d + seq!['/'] + executable@,
                ));
            }
            assert(strings_view(dirs@).take(dirs.len() as int) =~= strings_view(dirs@));
            r
        },
    }
}

/// The terminal emulators tried, in order, after the preferred one.
pub open spec fn common_terminals() -> Seq<Seq<char>> {
    seq![
        "x-terminal-emulator"@,
        "gnome-terminal"@,
        "konsole"@,
        "xfce4-terminal"@,
        "mate-terminal"@,
        "lxterminal"@,
        "rxvt-unicode"@,
        "rxvt"@,
        "xterm"@,
    ]
}

/// The terminal emulators to look for, in order: the preferred one, if
/// any, then the common ones.
pub fn terminal_candidates(preferred: Option<&str>) -> (r: Vec<String>)
    ensures
        strings_view(r@) == match preferred {
            Some(p) => seq![p@] + common_terminals(),
            None => common_terminals(),
        },
{
    let mut r: Vec<String> = Vec::new();
    match preferred {
        Some(p) => r.push(message(p)),
        None => {},
    }
    let ghost before = strings_view(r@);
    r.push(message("x-terminal-emulator"));
    r.push(message("gnome-terminal"));
    r.push(message("konsole"));
    r.push(message("xfce4-terminal"));
    r.push(message("mate-terminal"));
    r.push(message("lxterminal"));
    r.push(message("rxvt-unicode"));
    r.push(message("rxvt"));
    r.push(message("xterm"));
    assert(strings_view(r@) =~= before + common_terminals());
    r
}

/// The first candidate that was found, by the parallel list of findings.
pub fn first_found(candidates: &Vec<String>, found: &Vec<bool>) -> (r: Option<String>)
    requires
        candidates.len() == found.len(),
    ensures
        match r {
            Some(t) => exists|i: int|
                0 <= i < found.len() && found@[i] && t@ == candidates@[i]@ && forall|j: int|
                    0 <= j < i ==> !found@[j],
            None => forall|j: int| 0 <= j < found.len() ==> !found@[j],
        },
{
    let mut i: usize = 0;
    while i < found.len()
        invariant
            i <= found.len() == candidates.len(),
            forall|j: int| 0 <= j < i ==> !found@[j],
        decreases found.len() - i,
    {
        if found[i] {
            return Some(candidates[i].clone());
        }
        i = i + 1;
    }
    None
}

} // verus!
