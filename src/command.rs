//! The launch command pipeline: quoting arguments for the command line,
//! expanding field codes, and splitting a command line into arguments.
use vstd::prelude::*;
use crate::text::{message, chars_of, extend_chars, slice_chars, string_of};
use crate::value::strings_view;

verus! {

/// The kinds of failure when preparing a launch.
pub ghost enum ExecuteErrorKind {
    NotExecutable,
    TerminalNotFound,
    InvalidCommand,
    Io,
    ValidationFailed,
}

/// Why an entry could not be launched.
#[derive(Debug, Clone)]
pub enum ExecuteError {
    NotExecutable(String),
    TerminalNotFound,
    InvalidCommand(String),
    IoError(String),
    ValidationFailed(String),
}

impl ExecuteError {
    pub open spec fn kind(&self) -> ExecuteErrorKind {
        match self {
            ExecuteError::NotExecutable(_) => ExecuteErrorKind::NotExecutable,
            ExecuteError::TerminalNotFound => ExecuteErrorKind::TerminalNotFound,
            ExecuteError::InvalidCommand(_) => ExecuteErrorKind::InvalidCommand,
            ExecuteError::IoError(_) => ExecuteErrorKind::Io,
            ExecuteError::ValidationFailed(_) => ExecuteErrorKind::ValidationFailed,
        }
    }
}

/// The characters that make an argument need quoting.
pub open spec fn is_shell_special(c: char) -> bool {
    c == ' ' || c == '\t' || c == '\n' || c == '\'' || c == '"' || c == '\\' || c == '$' || c
        == '`' || c == '(' || c == ')' || c == '[' || c == ']' || c == '{' || c == '}' || c
        == '?' || c == '*' || c == '~' || c == '&' || c == '|' || c == ';' || c == '<' || c
        == '>'
}

pub open spec fn needs_quoting(s: Seq<char>) -> bool {
    exists|i: int| 0 <= i < s.len() && is_shell_special(#[trigger] s[i])
}

/// What one character becomes inside single quotes: a single quote closes
/// the quoting, is written in double quotes, and reopens it.
pub open spec fn quoted_piece(c: char) -> Seq<char> {
    if c == '\'' {
        seq!['\'', '"', '\'', '"', '\'']
    } else {
        seq![c]
    }
}

pub open spec fn quote_body(s: Seq<char>) -> Seq<char>
    decreases s.len(),
{
    if s.len() == 0 {
        seq![]
    } else {
        quote_body(s.drop_last()) + quoted_piece(s.last())
    }
}

/// `s` as one shell word: unchanged where no special character occurs,
/// else in single quotes.
pub open spec fn escape(s: Seq<char>) -> Seq<char> {
    if needs_quoting(s) {
        seq!['\''] + quote_body(s) + seq!['\'']
    } else {
        s
    }
}

fn is_shell_special_exec(c: char) -> (r: bool)
    ensures
        r == is_shell_special(c),
{
    c == ' ' || c == '\t' || c == '\n' || c == '\'' || c == '"' || c == '\\' || c == '$' || c
        == '`' || c == '(' || c == ')' || c == '[' || c == ']' || c == '{' || c == '}' || c
        == '?' || c == '*' || c == '~' || c == '&' || c == '|' || c == ';' || c == '<' || c
        == '>'
}

/// `v` as one shell word.
pub fn escape_chars(v: &Vec<char>) -> (r: Vec<char>)
    ensures
        r@ == escape(v@),
{
    let mut special = false;
    let mut i: usize = 0;
    while i < v.len()
        invariant
            i <= v.len(),
            special ==> needs_quoting(v@),
            !special ==> forall|j: int| 0 <= j < i ==> !is_shell_special(#[trigger] v@[j]),
        decreases v.len() - i,
    {
        if is_shell_special_exec(v[i]) {
            special = true;
        }
        i = i + 1;
    }
    if !special {
        let mut r: Vec<char> = Vec::new();
        extend_chars(&mut r, v);
        assert(r@ =~= v@);
        return r;
    }
    let mut r: Vec<char> = vec!['\''];
    let mut k: usize = 0;
    assert(v@.take(0) =~= Seq::<char>::empty());
    while k < v.len()
        invariant
            k <= v.len(),
            r@ == seq!['\''] + quote_body(v@.take(k as int)),
        decreases v.len() - k,
    {
        let c = v[k];
        if c == '\'' {
            r.push('\'');
            r.push('"');
            r.push('\'');
            r.push('"');
            r.push('\'');
        } else {
            r.push(c);
        }
        assert(v@.take(k + 1).drop_last() =~= v@.take(k as int));
        k = k + 1;
        assert(r@ =~= seq!['\''] + quote_body(v@.take(k as int)));
    }
    assert(v@.take(v.len() as int) =~= v@);
    r.push('\'');
    r
}

/// Quotes `s` for the command line where it holds a character that the
/// shell would read specially; a single quote inside becomes `'"'"'`.
pub fn shell_escape(s: &str) -> (r: String)
    ensures
        r@ == escape(s@),
{
    let v = chars_of(s);
    string_of(&escape_chars(&v))
}

/// The state of the command-line splitter.
pub ghost struct TokState {
    pub parts: Seq<Seq<char>>,
    pub current: Seq<char>,
    pub in_quotes: bool,
    pub quote: char,
}

pub open spec fn tok_init() -> TokState {
    TokState { parts: seq![], current: seq![], in_quotes: false, quote: '"' }
}

/// What `\c` inside quotes stands for.
pub open spec fn quoted_escape(c: char) -> Seq<char> {
    if c == '"' || c == '\'' || c == '\\' || c == '$' || c == '`' {
        seq![c]
    } else {
        seq!['\\', c]
    }
}

/// The splitter after reading `s` from state `st`.
pub open spec fn tokenize_from(st: TokState, s: Seq<char>) -> TokState
    decreases s.len(),
{
    if s.len() == 0 {
        st
    } else {
        let c = s[0];
        if (c == '"' || c == '\'') && !st.in_quotes {
            tokenize_from(TokState { in_quotes: true, quote: c, ..st }, s.drop_first())
        } else if c == st.quote && st.in_quotes {
            tokenize_from(TokState { in_quotes: false, ..st }, s.drop_first())
        } else if c == '\\' && st.in_quotes {
            if s.len() >= 2 {
                tokenize_from(
                    TokState { current: st.current + quoted_escape(s[1]), ..st },
                    s.skip(2),
                )
            } else {
                tokenize_from(TokState { current: st.current.push('\\'), ..st }, s.drop_first())
            }
        } else if (c == ' ' || c == '\t') && !st.in_quotes {
            tokenize_from(
                TokState {
                    parts: if st.current.len() > 0 {
                        st.parts.push(st.current)
                    } else {
                        st.parts
                    },
                    current: seq![],
                    ..st
                },
                s.drop_first(),
            )
        } else {
            tokenize_from(TokState { current: st.current.push(c), ..st }, s.drop_first())
        }
    }
}

/// The words of a command line, or `None` where a quote is left open or no
/// word is found.
pub open spec fn tokens(cmd: Seq<char>) -> Option<Seq<Seq<char>>> {
    let st = tokenize_from(tok_init(), cmd);
    let parts = if st.current.len() > 0 {
        st.parts.push(st.current)
    } else {
        st.parts
    };
    if st.in_quotes || parts.len() == 0 {
        None
    } else {
        Some(parts)
    }
}

/// Splits a command line into the program and its arguments. Words are
/// separated by spaces and tabs outside quotes; inside single or double
/// quotes, `\` before `"`, `'`, `\`, `$` or `` ` `` stands for that
/// character.
pub fn parse_command_line(command: &str) -> (r: Result<(String, Vec<String>), ExecuteError>)
    ensures
        match tokens(command@) {
            Some(p) => r is Ok && r->Ok_0.0@ == p[0] && strings_view(r->Ok_0.1@) == p.drop_first(),
            None => r is Err && r->Err_0.kind() == ExecuteErrorKind::InvalidCommand,
        },
{
    let v = chars_of(command);
    let n = v.len();
    let mut parts: Vec<String> = Vec::new();
    let mut current: Vec<char> = Vec::new();
    let mut in_quotes = false;
    let mut quote: char = '"';
    let mut i: usize = 0;
    assert(v@.skip(0) =~= v@);
    assert(strings_view(parts@) =~= Seq::<Seq<char>>::empty());
    while i < n
        invariant
            i <= n == v.len(),
            v@ == command@,
            tokenize_from(tok_init(), v@) == tokenize_from(
                TokState { parts: strings_view(parts@), current: current@, in_quotes, quote },
                v@.skip(i as int),
            ),
        decreases n - i,
    {
        let c = v[i];
        let ghost s = v@.skip(i as int);
        assert(s[0] == c);
        assert(s.drop_first() =~= v@.skip(i + 1));
        if (c == '"' || c == '\'') && !in_quotes {
            in_quotes = true;
            quote = c;
            i = i + 1;
        } else if c == quote && in_quotes {
            in_quotes = false;
            i = i + 1;
        } else if c == '\\' && in_quotes {
            if i + 1 < n {
                let d = v[i + 1];
                assert(s[1] == d);
                assert(s.skip(2) =~= v@.skip(i + 2));
                let ghost before = current@;
                if d == '"' || d == '\'' || d == '\\' || d == '$' || d == '`' {
                    current.push(d);
                } else {
                    current.push('\\');
                    current.push(d);
                }
                assert(current@ =~= before + quoted_escape(d));
                i = i + 2;
            } else {
                current.push('\\');
                i = i + 1;
            }
        } else if (c == ' ' || c == '\t') && !in_quotes {
            if current.len() > 0 {
                let ghost before = strings_view(parts@);
                let w = string_of(&current);
                parts.push(w);
                assert(strings_view(parts@) =~= before.push(current@));
            }
            current = Vec::new();
            i = i + 1;
        } else {
            current.push(c);
            i = i + 1;
        }
    }
    assert(v@.skip(n as int) =~= Seq::<char>::empty());
    if current.len() > 0 {
        let ghost before = strings_view(parts@);
        let w = string_of(&current);
        parts.push(w);
        assert(strings_view(parts@) =~= before.push(current@));
    }
    if in_quotes {
        return Err(ExecuteError::InvalidCommand(message("Unterminated quote")));
    }
    if parts.len() == 0 {
        return Err(ExecuteError::InvalidCommand(message("Empty command")));
    }
    let ghost all = strings_view(parts@);
    let program = parts.remove(0);
    assert(strings_view(parts@) =~= all.drop_first());
    Ok((program, parts))
}

/// The escaped items of `items`, separated by single spaces.
pub open spec fn join_escaped(items: Seq<Seq<char>>) -> Seq<char>
    decreases items.len(),
{
    if items.len() == 0 {
        seq![]
    } else if items.len() == 1 {
        escape(items[0])
    } else {
        join_escaped(items.drop_last()) + seq![' '] + escape(items.last())
    }
}

pub open spec fn first_escaped(items: Seq<Seq<char>>) -> Seq<char> {
    if items.len() > 0 {
        escape(items[0])
    } else {
        seq![]
    }
}

/// What the field code `%c` expands to, or `None` for an unknown code.
pub open spec fn field_code_text(
    c: char,
    files: Seq<Seq<char>>,
    urls: Seq<Seq<char>>,
    icon: Option<Seq<char>>,
    name: Option<Seq<char>>,
    path: Seq<char>,
) -> Option<Seq<char>> {
    if c == '%' {
        Some(seq!['%'])
    } else if c == 'f' {
        Some(first_escaped(files))
    } else if c == 'F' {
        Some(join_escaped(files))
    } else if c == 'u' {
        Some(first_escaped(urls))
    } else if c == 'U' {
        Some(join_escaped(urls))
    } else if c == 'i' {
        match icon {
            Some(i) => Some("--icon "@ + escape(i)),
            None => Some(seq![]),
        }
    } else if c == 'c' {
        match name {
            Some(n) => Some(escape(n)),
            None => Some(seq![]),
        }
    } else if c == 'k' {
        Some(escape(path))
    } else if c == 'd' || c == 'D' || c == 'n' || c == 'N' || c == 'v' || c == 'm' {
        Some(seq![])
    } else {
        None
    }
}

/// The command template `t` with its field codes expanded, or, at the
/// first unknown code, the rest of the template from that code on.
pub open spec fn expand(
    t: Seq<char>,
    files: Seq<Seq<char>>,
    urls: Seq<Seq<char>>,
    icon: Option<Seq<char>>,
    name: Option<Seq<char>>,
    path: Seq<char>,
) -> Result<Seq<char>, Seq<char>>
    decreases t.len(),
{
    if t.len() == 0 {
        Ok(seq![])
    } else if t[0] == '%' && t.len() >= 2 {
        match field_code_text(t[1], files, urls, icon, name, path) {
            Some(piece) => match expand(t.skip(2), files, urls, icon, name, path) {
                Ok(r) => Ok(piece + r),
                Err(e) => Err(e),
            },
            None => Err(t),
        }
    } else {
        match expand(t.drop_first(), files, urls, icon, name, path) {
            Ok(r) => Ok(seq![t[0]] + r),
            Err(e) => Err(e),
        }
    }
}

/// `r` with `out` in front of its expansion; a failure stays as it is.
pub open spec fn prepend(out: Seq<char>, r: Result<Seq<char>, Seq<char>>) -> Result<Seq<char>, Seq<char>> {
    match r {
        Ok(x) => Ok(out + x),
        Err(e) => Err(e),
    }
}

fn push_escaped(out: &mut Vec<char>, s: &String)
    ensures
        final(out)@ == old(out)@ + escape(s@),
{
    let v = chars_of(s.as_str());
    let e = escape_chars(&v);
    extend_chars(out, &e);
}

fn push_all_escaped(out: &mut Vec<char>, items: &Vec<String>)
    ensures
        final(out)@ == old(out)@ + join_escaped(strings_view(items@)),
{
    let ghost start = out@;
    let mut k: usize = 0;
    assert(strings_view(items@).take(0) =~= Seq::<Seq<char>>::empty());
    while k < items.len()
        invariant
            k <= items.len(),
            out@ == start + join_escaped(strings_view(items@).take(k as int)),
        decreases items.len() - k,
    {
        let ghost sv = strings_view(items@);
        let ghost before = out@;
        if k > 0 {
            out.push(' ');
        }
        push_escaped(out, &items[k]);
        proof {
            let t = sv.take(k + 1);
            assert(t.drop_last() =~= sv.take(k as int));
            assert(t.last() == items@[k as int]@);
            if k == 0 {
                assert(t.len() == 1);
                assert(join_escaped(sv.take(k as int)) =~= Seq::<char>::empty());
                assert(out@ =~= start + join_escaped(t));
            } else {
                assert(out@ =~= start + join_escaped(t));
            }
        }
        k = k + 1;
    }
    assert(strings_view(items@).take(items.len() as int) =~= strings_view(items@));
}

pub open spec fn opt_str_view(o: Option<&str>) -> Option<Seq<char>> {
    match o {
        Some(s) => Some(s@),
        None => None,
    }
}

/// Expands the field codes of a command template: `%f`/`%F` the first or
/// all files, `%u`/`%U` the first or all URLs, `%i` the icon, `%c` the
/// name, `%k` the path of the entry, `%%` a percent sign; each substituted
/// value is quoted on its own. Deprecated codes expand to nothing. An
/// unknown code stops the expansion: the error holds the rest of the
/// template from that code on.
pub fn expand_field_codes(
    exec: &str,
    files: &Vec<String>,
    urls: &Vec<String>,
    icon: Option<&str>,
    name: Option<&str>,
    path: &str,
) -> (r: Result<String, String>)
    ensures
        match expand(
            exec@,
            strings_view(files@),
            strings_view(urls@),
            opt_str_view(icon),
            opt_str_view(name),
            path@,
        ) {
            Ok(x) => r is Ok && r->Ok_0@ == x,
            Err(e) => r is Err && r->Err_0@ == e,
        },
{
    let ghost fs = strings_view(files@);
    let ghost us = strings_view(urls@);
    let ghost iv = opt_str_view(icon);
    let ghost nv = opt_str_view(name);
    let v = chars_of(exec);
    let n = v.len();
    let mut out: Vec<char> = Vec::new();
    let mut i: usize = 0;
    assert(v@.skip(0) =~= v@);
    proof {
        match expand(v@, fs, us, iv, nv, path@) {
            Ok(x) => {
                assert(out@ + x =~= x);
            },
            Err(_) => {},
        }
    }
    while i < n
        invariant
            i <= n == v.len(),
            v@ == exec@,
            fs == strings_view(files@),
            us == strings_view(urls@),
            iv == opt_str_view(icon),
            nv == opt_str_view(name),
            expand(v@, fs, us, iv, nv, path@) == prepend(
                out@,
                expand(v@.skip(i as int), fs, us, iv, nv, path@),
            ),
        decreases n - i,
    {
        let c = v[i];
        let ghost s = v@.skip(i as int);
        let ghost before = out@;
        assert(s[0] == c);
        if c == '%' && i + 1 < n {
            let d = v[i + 1];
            assert(s[1] == d);
            assert(s.skip(2) =~= v@.skip(i + 2));
            let ghost rest = expand(v@.skip(i + 2), fs, us, iv, nv, path@);
            if d == '%' {
                out.push('%');
            } else if d == 'f' {
                if files.len() > 0 {
                    push_escaped(&mut out, &files[0]);
                }
            } else if d == 'F' {
                push_all_escaped(&mut out, files);
            } else if d == 'u' {
                if urls.len() > 0 {
                    push_escaped(&mut out, &urls[0]);
                }
            } else if d == 'U' {
                push_all_escaped(&mut out, urls);
            } else if d == 'i' {
                match icon {
                    Some(ic) => {
                        let lead = chars_of("--icon ");
                        extend_chars(&mut out, &lead);
                        let iv2 = chars_of(ic);
                        let e = escape_chars(&iv2);
                        extend_chars(&mut out, &e);
                    },
                    None => {},
                }
            } else if d == 'c' {
                match name {
                    Some(nm) => {
                        let nv2 = chars_of(nm);
                        let e = escape_chars(&nv2);
                        extend_chars(&mut out, &e);
                    },
                    None => {},
                }
            } else if d == 'k' {
                let pv = chars_of(path);
                let e = escape_chars(&pv);
                extend_chars(&mut out, &e);
            } else if d == 'd' || d == 'D' || d == 'n' || d == 'N' || d == 'v' || d == 'm' {
            } else {
                let remainder = slice_chars(&v, i, n);
                assert(remainder@ =~= s);
                return Err(string_of(&remainder));
            }
            proof {
                let piece = field_code_text(d, fs, us, iv, nv, path@).unwrap();
                assert(out@ =~= before + piece);
                assert(expand(s, fs, us, iv, nv, path@) == prepend(piece, rest));
                match rest {
                    Ok(x) => {
                        assert(out@ + x =~= before + (piece + x));
                    },
                    Err(_) => {},
                }
            }
            i = i + 2;
        } else {
            assert(s.drop_first() =~= v@.skip(i + 1));
            out.push(c);
            proof {
                let rest = expand(v@.skip(i + 1), fs, us, iv, nv, path@);
                assert(out@ =~= before + seq![c]);
                assert(expand(s, fs, us, iv, nv, path@) == prepend(seq![c], rest));
                match rest {
                    Ok(x) => {
                        assert(out@ + x =~= before + (seq![c] + x));
                    },
                    Err(_) => {},
                }
            }
            i = i + 1;
        }
    }
    assert(v@.skip(n as int) =~= Seq::<char>::empty());
    assert(out@ + Seq::<char>::empty() =~= out@);
    Ok(string_of(&out))
}

} // verus!
