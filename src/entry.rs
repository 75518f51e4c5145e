//! The entry file parser: groups, key-value lines, and the checks for the
//! keys that every entry must carry.
use vstd::prelude::*;
use crate::ident::{find_last, last_index};
use crate::group::{lookup, DesktopEntryGroup, FieldKey};
use crate::locale::{find_char, first_index, key_parts, lemma_first_index};
use crate::text::{message, chars_eq, chars_eq_str, chars_of, slice_chars, string_of, trim, trim_chars};
use crate::value::{classify, parse_value, Value};

verus! {

/// The kinds of failure when reading an entry file.
pub ghost enum ParseErrorKind {
    Io,
    InvalidFormat,
    MissingRequiredKey,
}

/// Why an entry file could not be read; each carries a message.
#[derive(Debug, Clone)]
pub enum ParseError {
    IoError(String),
    InvalidFormat(String),
    MissingRequiredKey(String),
}

impl ParseError {
    pub open spec fn kind(&self) -> ParseErrorKind {
        match self {
            ParseError::IoError(_) => ParseErrorKind::Io,
            ParseError::InvalidFormat(_) => ParseErrorKind::InvalidFormat,
            ParseError::MissingRequiredKey(_) => ParseErrorKind::MissingRequiredKey,
        }
    }
}

pub type GroupMap = Map<Seq<char>, Map<FieldKey, Value>>;

/// Where the reader stands between two lines: the group that key-value lines
/// go to, and the groups read so far.
pub ghost struct ParseState {
    pub current: Option<Seq<char>>,
    pub groups: GroupMap,
}

pub open spec fn initial_state() -> ParseState {
    ParseState { current: None, groups: Map::empty() }
}

/// The lines of `s`, split at each `\n`.
pub open spec fn split_lines(s: Seq<char>) -> Seq<Seq<char>>
    decreases s.len(),
{
    let j = first_index(s, '\n');
    if 0 <= j < s.len() {
        seq![s.take(j)] + split_lines(s.skip(j + 1))
    } else {
        seq![s]
    }
}

/// A trimmed line of the form `[name]`, where name is not empty and holds
/// no bracket.
pub open spec fn is_group_header(t: Seq<char>) -> bool {
    &&& t.len() >= 3
    &&& t[0] == '['
    &&& t.last() == ']'
    &&& forall|i: int| 1 <= i < t.len() - 1 ==> #[trigger] t[i] != '[' && t[i] != ']'
}

pub open spec fn is_key_char(c: char) -> bool {
    let u = c as u32;
    (48 <= u <= 57) || (65 <= u <= 90) || (97 <= u <= 122) || c == '-'
}

/// The part of a key that must be a plain name: what stands before the `[`
/// that opens a trailing `[...]` suffix, or the whole key where there is no
/// such suffix.
pub open spec fn key_base(k: Seq<char>) -> Seq<char> {
    let b = last_index(k, '[');
    if k.len() > 0 && k.last() == ']' && b >= 0 {
        k.take(b)
    } else {
        k
    }
}

/// A key is valid where its name, without a trailing locale suffix, holds
/// only ASCII letters, digits and `-`.
pub open spec fn is_valid_key(k: Seq<char>) -> bool {
    let base = key_base(k);
    forall|i: int| 0 <= i < base.len() ==> is_key_char(#[trigger] base[i])
}

/// The key of a key-value line: what stands before the first `=`, trimmed.
pub open spec fn line_key(t: Seq<char>) -> Seq<char> {
    trim(t.take(first_index(t, '=')))
}

/// The raw value of a key-value line: what follows the first `=`, trimmed.
pub open spec fn line_value(t: Seq<char>) -> Seq<char> {
    trim(t.skip(first_index(t, '=') + 1))
}

/// What one line does to the reader.
pub open spec fn step(st: ParseState, line: Seq<char>) -> Result<ParseState, ParseErrorKind> {
    let t = trim(line);
    if t.len() == 0 || t[0] == '#' {
        Ok(st)
    } else if is_group_header(t) {
        let name = t.subrange(1, t.len() - 1);
        let groups = if st.groups.contains_key(name) {
            st.groups
        } else {
            st.groups.insert(name, Map::empty())
        };
        Ok(ParseState { current: Some(name), groups })
    } else if first_index(t, '=') < t.len() {
        let key = line_key(t);
        if key.len() == 0 {
            Ok(st)
        } else if !is_valid_key(key) {
            Err(ParseErrorKind::InvalidFormat)
        } else {
            match st.current {
                None => Err(ParseErrorKind::InvalidFormat),
                Some(g) => Ok(
                    ParseState {
                        current: st.current,
                        groups: st.groups.insert(
                            g,
                            st.groups[g].insert(key_parts(key), classify(line_value(t))),
                        ),
                    },
                ),
            }
        }
    } else {
        Ok(st)
    }
}

/// The reader after the lines `ls`, starting from `r`; the first failure
/// ends it.
pub open spec fn run_lines(r: Result<ParseState, ParseErrorKind>, ls: Seq<Seq<char>>) -> Result<
    ParseState,
    ParseErrorKind,
>
    decreases ls.len(),
{
    if ls.len() == 0 {
        r
    } else {
        match r {
            Err(e) => Err(e),
            Ok(st) => run_lines(step(st, ls[0]), ls.drop_first()),
        }
    }
}

pub open spec fn main_group_name() -> Seq<char> {
    "Desktop Entry"@
}

/// The plain value of `key` in group `g`.
pub open spec fn plain(g: Map<FieldKey, Value>, key: Seq<char>) -> Option<Value> {
    lookup(g, (key, None))
}

/// The checks on a complete file: a `Desktop Entry` group with `Type` and
/// `Name`; `Exec` for an `Application` that is not `DBusActivatable=true`;
/// `URL` for a `Link`.
pub open spec fn validate(groups: GroupMap) -> Result<(), ParseErrorKind> {
    if !groups.contains_key(main_group_name()) {
        Err(ParseErrorKind::MissingRequiredKey)
    } else {
        let g = groups[main_group_name()];
        if plain(g, "Type"@) is None || plain(g, "Name"@) is None {
            Err(ParseErrorKind::MissingRequiredKey)
        } else if plain(g, "Type"@) == Some(Value::Str("Application"@)) {
            if plain(g, "DBusActivatable"@) != Some(Value::Boolean(true)) && plain(g, "Exec"@) is None {
                Err(ParseErrorKind::MissingRequiredKey)
            } else {
                Ok(())
            }
        } else if plain(g, "Type"@) == Some(Value::Str("Link"@)) && plain(g, "URL"@) is None {
            Err(ParseErrorKind::MissingRequiredKey)
        } else {
            Ok(())
        }
    }
}

/// The groups that the text of an entry file stands for, or the kind of
/// failure.
pub open spec fn parse_entry(text: Seq<char>) -> Result<GroupMap, ParseErrorKind> {
    match run_lines(Ok(initial_state()), split_lines(text)) {
        Err(e) => Err(e),
        Ok(st) => match validate(st.groups) {
            Err(e) => Err(e),
            Ok(_) => Ok(st.groups),
        },
    }
}

/// The mapping from name to group that a list of groups with distinct names
/// stands for.
pub open spec fn groups_map(s: Seq<DesktopEntryGroup>) -> GroupMap
    decreases s.len(),
{
    if s.len() == 0 {
        Map::empty()
    } else {
        groups_map(s.drop_last()).insert(s.last().name@, s.last()@)
    }
}

pub open spec fn distinct_names(s: Seq<DesktopEntryGroup>) -> bool {
    forall|i: int, j: int| 0 <= i < j < s.len() ==> s[i].name@ != s[j].name@
}

/// A parsed entry file: where it was read from and its groups.
#[derive(Debug, Clone)]
pub struct DesktopEntry {
    pub path: String,
    pub groups: Vec<DesktopEntryGroup>,
}

impl DesktopEntry {
    pub open spec fn wf(&self) -> bool {
        distinct_names(self.groups@)
    }

    pub open spec fn group_map(&self) -> GroupMap {
        groups_map(self.groups@)
    }
}

proof fn lemma_groups_map_at(s: Seq<DesktopEntryGroup>, i: int)
    requires
        distinct_names(s),
        0 <= i < s.len(),
    ensures
        groups_map(s).contains_key(s[i].name@),
        groups_map(s)[s[i].name@] == s[i]@,
    decreases s.len(),
{
    if i < s.len() - 1 {
        lemma_groups_map_at(s.drop_last(), i);
    }
}

proof fn lemma_groups_map_absent(s: Seq<DesktopEntryGroup>, n: Seq<char>)
    requires
        forall|j: int| 0 <= j < s.len() ==> s[j].name@ != n,
    ensures
        !groups_map(s).contains_key(n),
    decreases s.len(),
{
    if s.len() > 0 {
        lemma_groups_map_absent(s.drop_last(), n);
    }
}

proof fn lemma_groups_map_update(s: Seq<DesktopEntryGroup>, i: int, g: DesktopEntryGroup)
    requires
        distinct_names(s),
        0 <= i < s.len(),
        g.name@ == s[i].name@,
    ensures
        groups_map(s.update(i, g)) == groups_map(s).insert(g.name@, g@),
        distinct_names(s.update(i, g)),
    decreases s.len(),
{
    let t = s.update(i, g);
    if i == s.len() - 1 {
        assert(t.drop_last() =~= s.drop_last());
        assert(groups_map(t) =~= groups_map(s).insert(g.name@, g@));
    } else {
        assert(t.drop_last() =~= s.drop_last().update(i, g));
        lemma_groups_map_update(s.drop_last(), i, g);
        assert(s.last().name@ != g.name@);
        assert(groups_map(t) =~= groups_map(s).insert(g.name@, g@));
    }
}

/// Once a line has failed, the rest of the lines change nothing.
pub proof fn lemma_run_err(e: ParseErrorKind, ls: Seq<Seq<char>>)
    ensures
        run_lines(Err(e), ls) == Err::<ParseState, ParseErrorKind>(e),
    decreases ls.len(),
{
}

proof fn lemma_run_cons(st: ParseState, line: Seq<char>, rest: Seq<Seq<char>>)
    ensures
        run_lines(Ok(st), seq![line] + rest) == run_lines(step(st, line), rest),
{
    let ls = seq![line] + rest;
    assert(ls[0] == line);
    assert(ls.drop_first() =~= rest);
}

/// The reader's state as the parser holds it.
pub open spec fn state_of(groups: Seq<DesktopEntryGroup>, current: Option<usize>) -> ParseState {
    ParseState {
        current: match current {
            Some(i) => Some(groups[i as int].name@),
            None => None,
        },
        groups: groups_map(groups),
    }
}

pub open spec fn parser_wf(groups: Seq<DesktopEntryGroup>, current: Option<usize>) -> bool {
    &&& distinct_names(groups)
    &&& match current {
        Some(i) => i < groups.len(),
        None => true,
    }
}

fn is_group_header_chars(t: &Vec<char>) -> (r: bool)
    ensures
        r == is_group_header(t@),
{
    let n = t.len();
    if n < 3 || t[0] != '[' || t[n - 1] != ']' {
        return false;
    }
    let mut i: usize = 1;
    while i < n - 1
        invariant
            1 <= i <= n - 1,
            n == t.len(),
            forall|j: int| 1 <= j < i ==> #[trigger] t@[j] != '[' && t@[j] != ']',
        decreases n - i,
    {
        if t[i] == '[' || t[i] == ']' {
            return false;
        }
        i = i + 1;
    }
    true
}

fn is_key_char_exec(c: char) -> (r: bool)
    ensures
        r == is_key_char(c),
{
    let u = c as u32;
    (48 <= u && u <= 57) || (65 <= u && u <= 90) || (97 <= u && u <= 122) || c == '-'
}

fn is_valid_key_chars(k: &Vec<char>) -> (r: bool)
    ensures
        r == is_valid_key(k@),
{
    let mut b: usize = k.len();
    if k.len() > 0 && k[k.len() - 1] == ']' {
        match find_last(k, '[') {
            Some(i) => {
                b = i;
            },
            None => {},
        }
    }
    assert(k@.take(k.len() as int) =~= k@);
    assert(key_base(k@) == k@.take(b as int));
    let mut i: usize = 0;
    while i < b
        invariant
            i <= b <= k.len(),
            key_base(k@) == k@.take(b as int),
            forall|j: int| 0 <= j < i ==> is_key_char(#[trigger] k@.take(b as int)[j]),
        decreases b - i,
    {
        if !is_key_char_exec(k[i]) {
            assert(k@.take(b as int)[i as int] == k@[i as int]);
            assert(!is_key_char(k@.take(b as int)[i as int]));
            return false;
        }
        i = i + 1;
    }
    true
}

/// Whether a key name is valid: apart from a trailing `[locale]` suffix,
/// only ASCII letters, digits and `-`.
pub fn is_valid_key_name(key: &str) -> (r: bool)
    ensures
        r == is_valid_key(key@),
{
    let k = chars_of(key);
    is_valid_key_chars(&k)
}

/// Applies one line to the parser's groups and current group.
fn apply_line(groups: &mut Vec<DesktopEntryGroup>, current: &mut Option<usize>, line: &Vec<char>) -> (r: Result<(), ParseError>)
    requires
        parser_wf(old(groups)@, *old(current)),
    ensures
        match step(state_of(old(groups)@, *old(current)), line@) {
            Ok(st) => r is Ok && parser_wf(final(groups)@, *final(current)) && state_of(
                final(groups)@,
                *final(current),
            ) == st,
            Err(e) => r is Err && r->Err_0.kind() == e,
        },
{
    let t = trim_chars(line);
    let n = t.len();
    if n == 0 || t[0] == '#' {
        return Ok(());
    }
    if is_group_header_chars(&t) {
        let name = slice_chars(&t, 1, n - 1);
        let mut i: usize = 0;
        while i < groups.len()
            invariant
                i <= groups.len(),
                groups@ == old(groups)@,
                *current == *old(current),
                parser_wf(groups@, *current),
                t@ == trim(line@),
                n == t.len(),
                is_group_header(t@),
                name@ == t@.subrange(1, n - 1),
                forall|j: int| 0 <= j < i ==> groups@[j].name@ != name@,
            decreases groups.len() - i,
        {
            let gn = chars_of(groups[i].name.as_str());
            if chars_eq(&gn, &name) {
                proof {
                    lemma_groups_map_at(groups@, i as int);
                }
                *current = Some(i);
                return Ok(());
            }
            i = i + 1;
        }
        proof {
            lemma_groups_map_absent(groups@, name@);
        }
        let g = DesktopEntryGroup::new(string_of(&name));
        let ghost old_groups = groups@;
        groups.push(g);
        assert(groups@.drop_last() =~= old_groups);
        assert(groups@.last()@ =~= Map::<FieldKey, Value>::empty());
        *current = Some(groups.len() - 1);
        return Ok(());
    }
    let eq = find_char(&t, '=');
    if eq >= n {
        return Ok(());
    }
    let kraw = slice_chars(&t, 0, eq);
    assert(kraw@ =~= t@.take(eq as int));
    let key = trim_chars(&kraw);
    if key.len() == 0 {
        return Ok(());
    }
    if !is_valid_key_chars(&key) {
        let mut m = message("Invalid key name: ");
        m.append(string_of(&key).as_str());
        return Err(ParseError::InvalidFormat(m));
    }
    match *current {
        None => Err(ParseError::InvalidFormat(message("Key-value pair found before any group header"))),
        Some(ci) => {
            let vraw = slice_chars(&t, eq + 1, n);
            assert(vraw@ =~= t@.skip(eq + 1));
            let vtrim = trim_chars(&vraw);
            let value = parse_value(string_of(&vtrim).as_str());
            let ks = string_of(&key);
            let ghost old_groups = groups@;
            let ghost old_g = groups@[ci as int];
            groups[ci].insert_field(ks.as_str(), value);
            proof {
                lemma_groups_map_at(old_groups, ci as int);
                lemma_groups_map_update(old_groups, ci as int, groups@[ci as int]);
                assert(groups@ == old_groups.update(ci as int, groups@[ci as int]));
            }
            Ok(())
        },
    }
}

/// The index of the first `c` in `v` from `from` on, or `v.len()`.
fn find_char_from(v: &Vec<char>, from: usize, c: char) -> (r: usize)
    requires
        from <= v.len(),
    ensures
        from <= r <= v.len(),
        r - from == first_index(v@.skip(from as int), c),
{
    let ghost s = v@.skip(from as int);
    let mut i: usize = from;
    while i < v.len()
        invariant
            from <= i <= v.len(),
            s == v@.skip(from as int),
            forall|j: int| from <= j < i ==> v@[j] != c,
        decreases v.len() - i,
    {
        if v[i] == c {
            proof {
                assert forall|j: int| 0 <= j < i - from implies s[j] != c by {
                    assert(s[j] == v@[from + j]);
                }
                assert(s[i - from] == v@[i as int]);
                lemma_first_index(s, c, i - from);
            }
            return i;
        }
        i = i + 1;
    }
    proof {
        assert forall|j: int| 0 <= j < i - from implies s[j] != c by {
            assert(s[j] == v@[from + j]);
        }
        lemma_first_index(s, c, i - from);
    }
    i
}

/// The index of the group named `Desktop Entry`, if there is one.
fn find_main_group(groups: &Vec<DesktopEntryGroup>) -> (r: Option<usize>)
    requires
        distinct_names(groups@),
    ensures
        match r {
            Some(i) => i < groups.len() && groups@[i as int].name@ == main_group_name()
                && groups_map(groups@).contains_key(main_group_name())
                && groups_map(groups@)[main_group_name()] == groups@[i as int]@,
            None => !groups_map(groups@).contains_key(main_group_name()),
        },
{
    let target = chars_of("Desktop Entry");
    let mut i: usize = 0;
    while i < groups.len()
        invariant
            i <= groups.len(),
            distinct_names(groups@),
            target@ == main_group_name(),
            forall|j: int| 0 <= j < i ==> groups@[j].name@ != main_group_name(),
        decreases groups.len() - i,
    {
        let gn = chars_of(groups[i].name.as_str());
        if chars_eq(&gn, &target) {
            proof {
                lemma_groups_map_at(groups@, i as int);
            }
            return Some(i);
        }
        i = i + 1;
    }
    proof {
        lemma_groups_map_absent(groups@, main_group_name());
    }
    None
}

fn check_groups(groups: &Vec<DesktopEntryGroup>) -> (r: Result<(), ParseError>)
    requires
        distinct_names(groups@),
    ensures
        match validate(groups_map(groups@)) {
            Ok(_) => r is Ok,
            Err(e) => r is Err && r->Err_0.kind() == e,
        },
{
    let i = match find_main_group(groups) {
        None => {
            return Err(ParseError::MissingRequiredKey(message("Desktop Entry group is required")));
        },
        Some(i) => i,
    };
    let g = &groups[i];
    let ty = g.get_field("Type");
    if ty.is_none() {
        return Err(ParseError::MissingRequiredKey(message("Type key is required")));
    }
    if g.get_field("Name").is_none() {
        return Err(ParseError::MissingRequiredKey(message("Name key is required")));
    }
    let mut is_app = false;
    let mut is_link = false;
    match ty {
        Some(crate::value::ValueType::String(s)) => {
            is_app = chars_eq_str(&chars_of(s.as_str()), "Application");
            is_link = chars_eq_str(&chars_of(s.as_str()), "Link");
        },
        _ => {},
    }
    if is_app {
        let dbus = match g.get_field("DBusActivatable") {
            Some(crate::value::ValueType::Boolean(b)) => *b,
            _ => false,
        };
        if !dbus && g.get_field("Exec").is_none() {
            return Err(
                ParseError::MissingRequiredKey(message("Exec key is required for Application type")),
            );
        }
    } else if is_link {
        if g.get_field("URL").is_none() {
            return Err(ParseError::MissingRequiredKey(message("URL key is required for Link type")));
        }
    }
    Ok(())
}

impl DesktopEntry {
    /// Reads the text of an entry file that was read from `path`: each line
    /// is blank, a comment, a `[group]` header or a `key=value` pair; other
    /// lines are ignored. Fails with `InvalidFormat` on an invalid key or a
    /// pair before any header, and with `MissingRequiredKey` where `validate`
    /// does.
    pub fn parse(path: &str, text: &str) -> (r: Result<DesktopEntry, ParseError>)
        ensures
            match parse_entry(text@) {
                Ok(gm) => r is Ok && r->Ok_0.wf() && r->Ok_0.group_map() == gm && r->Ok_0.path@
                    == path@,
                Err(e) => r is Err && r->Err_0.kind() == e,
            },
    {
        let v = chars_of(text);
        let n = v.len();
        let mut groups: Vec<DesktopEntryGroup> = Vec::new();
        let mut current: Option<usize> = None;
        let mut pos: usize = 0;
        let mut done = false;
        assert(v@.skip(0) =~= v@);
        assert(groups_map(groups@) =~= Map::empty());
        while !done
            invariant
                pos <= n == v.len(),
                v@ == text@,
                parser_wf(groups@, current),
                !done ==> run_lines(Ok(initial_state()), split_lines(v@)) == run_lines(
                    Ok(state_of(groups@, current)),
                    split_lines(v@.skip(pos as int)),
                ),
                done ==> run_lines(Ok(initial_state()), split_lines(v@)) == Ok::<
                    ParseState,
                    ParseErrorKind,
                >(state_of(groups@, current)),
            decreases n - pos + if done {
                0int
            } else {
                1int
            },
        {
            let j = find_char_from(&v, pos, '\n');
            let line = slice_chars(&v, pos, j);
            let ghost s = v@.skip(pos as int);
            let ghost st0 = state_of(groups@, current);
            let ghost rest: Seq<Seq<char>> = if j < n {
                split_lines(v@.skip(j + 1))
            } else {
                seq![]
            };
            proof {
                assert(line@ =~= s.take(j - pos));
                if j < n {
                    assert(s.skip(j - pos + 1) =~= v@.skip(j + 1));
                } else {
                    assert(line@ =~= s);
                    assert(seq![line@] + rest =~= seq![line@]);
                }
                assert(split_lines(s) == seq![line@] + rest);
                lemma_run_cons(st0, line@, rest);
            }
            match apply_line(&mut groups, &mut current, &line) {
                Err(e) => {
                    proof {
                        lemma_run_err(e.kind(), rest);
                    }
                    return Err(e);
                },
                Ok(()) => {},
            }
            if j >= n {
                done = true;
            } else {
                pos = j + 1;
            }
        }
        match check_groups(&groups) {
            Err(e) => Err(e),
            Ok(()) => Ok(DesktopEntry { path: string_of(&chars_of(path)), groups }),
        }
    }

    /// The `Desktop Entry` group.
    pub fn get_desktop_entry_group(&self) -> (r: Option<&DesktopEntryGroup>)
        requires
            self.wf(),
        ensures
            match r {
                Some(g) => self.group_map().contains_key(main_group_name()) && g@ == self.group_map()[main_group_name()],
                None => !self.group_map().contains_key(main_group_name()),
            },
    {
        match find_main_group(&self.groups) {
            None => None,
            Some(i) => Some(&self.groups[i]),
        }
    }
}

} // verus!
