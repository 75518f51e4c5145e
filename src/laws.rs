//! Properties that hold of every entry file and every launch.
use vstd::prelude::*;
use crate::application::{plan, ApplicationEntry};
use crate::command::{
    escape, expand, field_code_text, first_escaped, is_shell_special, needs_quoting, prepend, quote_body, quoted_piece, tok_init,
    tokenize_from, tokens, ExecuteErrorKind, TokState,
};
use crate::entry::{
    initial_state, is_group_header, key_base, lemma_run_err, is_valid_key, line_key, main_group_name, parse_entry, plain,
    run_lines, split_lines, step, validate, GroupMap, ParseErrorKind, ParseState,
};
use crate::ident::last_index;
use crate::locale::first_index;
use crate::text::{is_white, trim, trim_end, trim_start};
use crate::value::{clean_items, list_items, segments, unescape, Value};

verus! {

/// A line that fails the whole file: a key-value line whose key is invalid.
pub open spec fn is_bad_key_line(line: Seq<char>) -> bool {
    let t = trim(line);
    &&& t.len() > 0
    &&& t[0] != '#'
    &&& !is_group_header(t)
    &&& first_index(t, '=') < t.len()
    &&& line_key(t).len() > 0
    &&& !is_valid_key(line_key(t))
}

proof fn lemma_step_errors(st: ParseState, line: Seq<char>)
    ensures
        step(st, line) is Err ==> step(st, line) == Err::<ParseState, ParseErrorKind>(
            ParseErrorKind::InvalidFormat,
        ),
{
}

proof fn lemma_bad_line_fails(st: ParseState, ls: Seq<Seq<char>>, k: int)
    requires
        0 <= k < ls.len(),
        is_bad_key_line(ls[k]),
    ensures
        run_lines(Ok(st), ls) == Err::<ParseState, ParseErrorKind>(ParseErrorKind::InvalidFormat),
    decreases ls.len(),
{
    lemma_step_errors(st, ls[0]);
    match step(st, ls[0]) {
        Err(e) => {
            lemma_run_err(e, ls.drop_first());
        },
        Ok(st2) => {
            assert(k > 0);
            assert(ls.drop_first()[k - 1] == ls[k]);
            lemma_bad_line_fails(st2, ls.drop_first(), k - 1);
        },
    }
}

/// A file with a key-value line whose key is invalid (a space in the key
/// name, for instance) is always rejected with `InvalidFormat`, wherever
/// that line stands.
pub proof fn lemma_invalid_key_rejected(text: Seq<char>, k: int)
    requires
        0 <= k < split_lines(text).len(),
        is_bad_key_line(split_lines(text)[k]),
    ensures
        parse_entry(text) == Err::<GroupMap, ParseErrorKind>(ParseErrorKind::InvalidFormat),
{
    lemma_bad_line_fails(initial_state(), split_lines(text), k);
}

/// A key name with a space before any `[` is invalid.
pub proof fn lemma_space_in_key_invalid(key: Seq<char>, i: int)
    requires
        0 <= i < key.len(),
        key[i] == ' ',
        forall|j: int| 0 <= j < i ==> key[j] != '[',
    ensures
        !is_valid_key(key),
{
    lemma_last_index(key, '[');
    let b = last_index(key, '[');
    if b >= 0 {
        assert(b > i);
    }
    assert(key_base(key)[i] == ' ');
}

proof fn lemma_last_index(s: Seq<char>, c: char)
    ensures
        -1 <= last_index(s, c) < s.len(),
        last_index(s, c) >= 0 ==> s[last_index(s, c)] == c,
    decreases s.len(),
{
    if s.len() > 0 && s.last() != c {
        lemma_last_index(s.drop_last(), c);
    }
}

proof fn lemma_no_header_run(ls: Seq<Seq<char>>)
    requires
        forall|j: int| 0 <= j < ls.len() ==> !is_group_header(trim(#[trigger] ls[j])),
    ensures
        run_lines(Ok(initial_state()), ls) == Ok::<ParseState, ParseErrorKind>(initial_state())
            || run_lines(Ok(initial_state()), ls) == Err::<ParseState, ParseErrorKind>(
            ParseErrorKind::InvalidFormat,
        ),
    decreases ls.len(),
{
    if ls.len() > 0 {
        assert(!is_group_header(trim(ls[0])));
        match step(initial_state(), ls[0]) {
            Err(e) => {
                lemma_run_err(e, ls.drop_first());
            },
            Ok(st2) => {
                assert(st2 == initial_state());
                assert forall|j: int| 0 <= j < ls.drop_first().len() implies !is_group_header(
                    trim(#[trigger] ls.drop_first()[j]),
                ) by {
                    assert(ls.drop_first()[j] == ls[j + 1]);
                }
                lemma_no_header_run(ls.drop_first());
            },
        }
    }
}

/// A file without any group header is never accepted: it fails with
/// `InvalidFormat` or `MissingRequiredKey`.
pub proof fn lemma_no_group_rejected(text: Seq<char>)
    requires
        forall|j: int|
            0 <= j < split_lines(text).len() ==> !is_group_header(
                trim(#[trigger] split_lines(text)[j]),
            ),
    ensures
        parse_entry(text) == Err::<GroupMap, ParseErrorKind>(ParseErrorKind::InvalidFormat)
            || parse_entry(text) == Err::<GroupMap, ParseErrorKind>(
            ParseErrorKind::MissingRequiredKey,
        ),
{
    lemma_no_header_run(split_lines(text));
}

/// Every accepted file has a `Desktop Entry` group with `Type` and `Name`;
/// a file that is read to its end without them is rejected with
/// `MissingRequiredKey`.
pub proof fn lemma_type_and_name_required(text: Seq<char>)
    ensures
        parse_entry(text) is Ok ==> {
            let gm = parse_entry(text)->Ok_0;
            &&& gm.contains_key(main_group_name())
            &&& plain(gm[main_group_name()], "Type"@) is Some
            &&& plain(gm[main_group_name()], "Name"@) is Some
        },
        run_lines(Ok(initial_state()), split_lines(text)) is Ok ==> {
            let gm = run_lines(Ok(initial_state()), split_lines(text))->Ok_0.groups;
            (!gm.contains_key(main_group_name()) || plain(gm[main_group_name()], "Type"@) is None
                || plain(gm[main_group_name()], "Name"@) is None) ==> parse_entry(text) == Err::<
                GroupMap,
                ParseErrorKind,
            >(ParseErrorKind::MissingRequiredKey)
        },
{
}

/// An entry whose `Exec` is missing, or empty up to white space, is never
/// launched: the plan fails with `NotExecutable`, whatever the files, URLs
/// and surroundings.
pub proof fn lemma_empty_exec_not_executable(
    app: ApplicationEntry,
    files: Seq<Seq<char>>,
    urls: Seq<Seq<char>>,
    try_exec_available: bool,
    terminal: Option<Seq<char>>,
)
    requires
        app.string_field("Exec"@) is None || trim(app.string_field("Exec"@)->Some_0).len() == 0,
    ensures
        plan(app, files, urls, try_exec_available, terminal) == Err::<
            (Seq<char>, Seq<Seq<char>>),
            ExecuteErrorKind,
        >(ExecuteErrorKind::NotExecutable),
{
}

/// A `Desktop Entry` group of an `Application` marked `DBusActivatable=true`
/// passes the checks without `Exec`, and its launch plan then fails with
/// `NotExecutable`.
pub proof fn lemma_dbus_without_exec(
    app: ApplicationEntry,
    files: Seq<Seq<char>>,
    urls: Seq<Seq<char>>,
    try_exec_available: bool,
    terminal: Option<Seq<char>>,
)
    requires
        app.inner.group_map().contains_key(main_group_name()),
        app.field("Type"@) == Some(Value::Str("Application"@)),
        app.field("Name"@) is Some,
        app.field("DBusActivatable"@) == Some(Value::Boolean(true)),
        app.field("Exec"@) is None,
    ensures
        validate(app.inner.group_map()) is Ok,
        plan(app, files, urls, try_exec_available, terminal) == Err::<
            (Seq<char>, Seq<Seq<char>>),
            ExecuteErrorKind,
        >(ExecuteErrorKind::NotExecutable),
{
}

/// One step of the splitter on a character that is not a backslash inside
/// quotes.
pub open spec fn tok_char(st: TokState, c: char) -> TokState {
    if (c == '"' || c == '\'') && !st.in_quotes {
        TokState { in_quotes: true, quote: c, ..st }
    } else if c == st.quote && st.in_quotes {
        TokState { in_quotes: false, ..st }
    } else if (c == ' ' || c == '\t') && !st.in_quotes {
        TokState {
            parts: if st.current.len() > 0 {
                st.parts.push(st.current)
            } else {
                st.parts
            },
            current: seq![],
            ..st
        }
    } else {
        TokState { current: st.current.push(c), ..st }
    }
}

proof fn lemma_tok_step(st: TokState, s: Seq<char>)
    requires
        s.len() > 0,
        !(s[0] == '\\' && st.in_quotes),
    ensures
        tokenize_from(st, s) == tokenize_from(tok_char(st, s[0]), s.drop_first()),
{
}

proof fn lemma_plain_run(st: TokState, w: Seq<char>, rest: Seq<char>)
    requires
        !st.in_quotes,
        forall|i: int| 0 <= i < w.len() ==> !is_shell_special(#[trigger] w[i]),
    ensures
        tokenize_from(st, w + rest) == tokenize_from(
            TokState { current: st.current + w, ..st },
            rest,
        ),
    decreases w.len(),
{
    if w.len() == 0 {
        assert(w + rest =~= rest);
        assert(st.current + w =~= st.current);
    } else {
        let s = w + rest;
        assert(s[0] == w[0]);
        assert(!is_shell_special(w[0]));
        assert(s.drop_first() =~= w.drop_first() + rest);
        lemma_tok_step(st, s);
        let st2 = TokState { current: st.current.push(w[0]), ..st };
        assert(tok_char(st, w[0]) == st2);
        assert forall|i: int| 0 <= i < w.drop_first().len() implies !is_shell_special(
            #[trigger] w.drop_first()[i],
        ) by {
            assert(w.drop_first()[i] == w[i + 1]);
        }
        lemma_plain_run(st2, w.drop_first(), rest);
        assert(st2.current + w.drop_first() =~= st.current + w);
    }
}

proof fn lemma_quote_body_front(s: Seq<char>)
    requires
        s.len() > 0,
    ensures
        quote_body(s) == quoted_piece(s[0]) + quote_body(s.drop_first()),
    decreases s.len(),
{
    if s.len() == 1 {
        assert(s.drop_last() =~= Seq::<char>::empty());
        assert(s.drop_first() =~= Seq::<char>::empty());
        assert(quote_body(s) =~= quoted_piece(s[0]) + quote_body(s.drop_first()));
    } else {
        lemma_quote_body_front(s.drop_last());
        assert(s.drop_last().drop_first() =~= s.drop_first().drop_last());
        assert(s.drop_first().last() == s.last());
        assert(quote_body(s) =~= quoted_piece(s[0]) + quote_body(s.drop_first()));
    }
}

proof fn lemma_quoted_run(st: TokState, s: Seq<char>, rest: Seq<char>)
    requires
        st.in_quotes,
        st.quote == '\'',
        forall|i: int| 0 <= i < s.len() ==> #[trigger] s[i] != '\\',
    ensures
        tokenize_from(st, quote_body(s) + seq!['\''] + rest) == tokenize_from(
            TokState { current: st.current + s, in_quotes: false, ..st },
            rest,
        ),
    decreases s.len(),
{
    if s.len() == 0 {
        let x = quote_body(s) + seq!['\''] + rest;
        assert(x =~= seq!['\''] + rest);
        assert(x[0] == '\'');
        lemma_tok_step(st, x);
        assert(x.drop_first() =~= rest);
        assert(st.current + s =~= st.current);
    } else {
        let c = s[0];
        let tail = s.drop_first();
        assert forall|i: int| 0 <= i < tail.len() implies #[trigger] tail[i] != '\\' by {
            assert(tail[i] == s[i + 1]);
        }
        lemma_quote_body_front(s);
        let after = quote_body(tail) + seq!['\''] + rest;
        let x = quote_body(s) + seq!['\''] + rest;
        assert(x =~= quoted_piece(c) + after);
        if c == '\'' {
            let x1 = x.drop_first();
            let x2 = x1.drop_first();
            let x3 = x2.drop_first();
            let x4 = x3.drop_first();
            let x5 = x4.drop_first();
            assert(x[0] == '\'' && x1[0] == '"' && x2[0] == '\'' && x3[0] == '"' && x4[0] == '\'');
            assert(x5 =~= after);
            let st1 = TokState { in_quotes: false, ..st };
            let st2 = TokState { in_quotes: true, quote: '"', ..st1 };
            let st3 = TokState { current: st2.current.push('\''), ..st2 };
            let st4 = TokState { in_quotes: false, ..st3 };
            let st5 = TokState { in_quotes: true, quote: '\'', ..st4 };
            lemma_tok_step(st, x);
            assert(tok_char(st, '\'') == st1);
            lemma_tok_step(st1, x1);
            assert(tok_char(st1, '"') == st2);
            lemma_tok_step(st2, x2);
            assert(tok_char(st2, '\'') == st3);
            lemma_tok_step(st3, x3);
            assert(tok_char(st3, '"') == st4);
            lemma_tok_step(st4, x4);
            assert(tok_char(st4, '\'') == st5);
            lemma_quoted_run(st5, tail, rest);
            assert(st5.current + tail =~= st.current + s);
            assert(TokState { current: st5.current + tail, in_quotes: false, ..st5 } == TokState {
                current: st.current + s,
                in_quotes: false,
                ..st
            });
        } else {
            assert(x[0] == c);
            assert(x.drop_first() =~= after);
            let st1 = TokState { current: st.current.push(c), ..st };
            lemma_tok_step(st, x);
            assert(tok_char(st, c) == st1);
            lemma_quoted_run(st1, tail, rest);
            assert(st1.current + tail =~= st.current + s);
        }
    }
}

proof fn lemma_expand_plain(
    w: Seq<char>,
    rest: Seq<char>,
    files: Seq<Seq<char>>,
    urls: Seq<Seq<char>>,
    icon: Option<Seq<char>>,
    name: Option<Seq<char>>,
    path: Seq<char>,
)
    requires
        forall|i: int| 0 <= i < w.len() ==> #[trigger] w[i] != '%',
    ensures
        expand(w + rest, files, urls, icon, name, path) == prepend(
            w,
            expand(rest, files, urls, icon, name, path),
        ),
    decreases w.len(),
{
    if w.len() == 0 {
        assert(w + rest =~= rest);
        match expand(rest, files, urls, icon, name, path) {
            Ok(x) => {
                assert(w + x =~= x);
            },
            Err(_) => {},
        }
    } else {
        let x = w + rest;
        assert(x[0] == w[0]);
        assert(x.drop_first() =~= w.drop_first() + rest);
        assert forall|i: int| 0 <= i < w.drop_first().len() implies #[trigger] w.drop_first()[i]
            != '%' by {
            assert(w.drop_first()[i] == w[i + 1]);
        }
        lemma_expand_plain(w.drop_first(), rest, files, urls, icon, name, path);
        match expand(rest, files, urls, icon, name, path) {
            Ok(r) => {
                assert(seq![w[0]] + (w.drop_first() + r) =~= w + r);
            },
            Err(_) => {},
        }
    }
}

/// A file name without backslashes reaches the program as one argument,
/// unchanged, whatever spaces, quotes or other shell characters it holds:
/// `prog %f` expands to `prog` and the quoted name, and that line splits
/// back into `prog` and the name.
pub proof fn lemma_file_argument_round_trip(
    prog: Seq<char>,
    file: Seq<char>,
    urls: Seq<Seq<char>>,
    icon: Option<Seq<char>>,
    name: Option<Seq<char>>,
    path: Seq<char>,
)
    requires
        prog.len() > 0,
        !needs_quoting(prog),
        forall|i: int| 0 <= i < prog.len() ==> #[trigger] prog[i] != '%',
        file.len() > 0,
        forall|i: int| 0 <= i < file.len() ==> #[trigger] file[i] != '\\',
    ensures
        expand(prog + seq![' ', '%', 'f'], seq![file], urls, icon, name, path) == Ok::<
            Seq<char>,
            Seq<char>,
        >(prog + seq![' '] + escape(file)),
        tokens(prog + seq![' '] + escape(file)) == Some(seq![prog, file]),
{
    let w = prog + seq![' '];
    assert forall|i: int| 0 <= i < w.len() implies #[trigger] w[i] != '%' by {
        if i < prog.len() {
            assert(w[i] == prog[i]);
        }
    }
    let code = seq!['%', 'f'];
    assert(prog + seq![' ', '%', 'f'] =~= w + code);
    lemma_expand_plain(w, code, seq![file], urls, icon, name, path);
    assert(code.skip(2) =~= Seq::<char>::empty());
    assert(code[0] == '%' && code[1] == 'f');
    assert(seq![file][0] == file);
    assert(first_escaped(seq![file]) == escape(file));
    assert(field_code_text('f', seq![file], urls, icon, name, path) == Some(escape(file)));
    assert(expand(Seq::<char>::empty(), seq![file], urls, icon, name, path) == Ok::<
        Seq<char>,
        Seq<char>,
    >(Seq::<char>::empty()));
    assert(expand(code, seq![file], urls, icon, name, path) == Ok::<Seq<char>, Seq<char>>(
        escape(file) + Seq::<char>::empty(),
    ));
    assert(escape(file) + Seq::<char>::empty() =~= escape(file));
    assert(w + escape(file) =~= prog + seq![' '] + escape(file));
    // Splitting: the program word, the separator, then the argument.
    assert forall|i: int| 0 <= i < prog.len() implies !is_shell_special(#[trigger] prog[i]) by {}
    let line = prog + seq![' '] + escape(file);
    let sp_rest = seq![' '] + escape(file);
    assert(line =~= prog + sp_rest);
    lemma_plain_run(tok_init(), prog, sp_rest);
    let st1 = TokState { current: tok_init().current + prog, ..tok_init() };
    assert(tok_init().current + prog =~= prog);
    assert(sp_rest[0] == ' ');
    lemma_tok_step(st1, sp_rest);
    let st2 = TokState { parts: seq![prog], current: seq![], ..st1 };
    assert(tok_char(st1, ' ') =~~= st2);
    assert(sp_rest.drop_first() =~= escape(file));
    if needs_quoting(file) {
        let q = escape(file);
        assert(q[0] == '\'');
        lemma_tok_step(st2, q);
        let st3 = TokState { in_quotes: true, quote: '\'', ..st2 };
        assert(tok_char(st2, '\'') == st3);
        assert(q.drop_first() =~= quote_body(file) + seq!['\''] + Seq::<char>::empty());
        lemma_quoted_run(st3, file, Seq::<char>::empty());
        let st4 = TokState { current: st3.current + file, in_quotes: false, ..st3 };
        assert(st4.current =~= file);
        assert(tokenize_from(tok_init(), line) == st4);
        assert(st4.parts.push(st4.current) =~= seq![prog, file]);
    } else {
        assert forall|i: int| 0 <= i < file.len() implies !is_shell_special(#[trigger] file[i]) by {}
        assert(escape(file) =~= file + Seq::<char>::empty());
        lemma_plain_run(st2, file, Seq::<char>::empty());
        let st4 = TokState { current: st2.current + file, ..st2 };
        assert(st4.current =~= file);
        assert(tokenize_from(tok_init(), line) == st4);
        assert(st4.parts.push(st4.current) =~= seq![prog, file]);
    }
}

/// The items joined into one list text, separated by `;`.
pub open spec fn join_items(items: Seq<Seq<char>>) -> Seq<char>
    decreases items.len(),
{
    if items.len() == 0 {
        seq![]
    } else if items.len() == 1 {
        items[0]
    } else {
        items[0] + seq![';'] + join_items(items.drop_first())
    }
}

/// An item that a list gives back as it is: not empty, without `;` or
/// backslash, and neither starting nor ending with white space.
pub open spec fn is_plain_item(x: Seq<char>) -> bool {
    &&& x.len() > 0
    &&& forall|i: int| 0 <= i < x.len() ==> #[trigger] x[i] != ';' && x[i] != '\\'
    &&& !is_white(x[0])
    &&& !is_white(x.last())
}

proof fn lemma_segments_plain_prefix(a: Seq<char>, rest: Seq<char>)
    requires
        forall|i: int| 0 <= i < a.len() ==> #[trigger] a[i] != ';' && a[i] != '\\',
    ensures
        segments(a + rest) == segments(rest).update(0, a + segments(rest)[0]),
    decreases a.len(),
{
    if a.len() == 0 {
        assert(a + rest =~= rest);
        assert(a + segments(rest)[0] =~= segments(rest)[0]);
        lemma_segments_len(rest);
        assert(segments(rest).update(0, segments(rest)[0]) =~= segments(rest));
    } else {
        let s = a + rest;
        let t = a.drop_first();
        assert forall|i: int| 0 <= i < t.len() implies #[trigger] t[i] != ';' && t[i] != '\\' by {
            assert(t[i] == a[i + 1]);
        }
        assert(s[0] == a[0]);
        assert(a[0] != ';' && a[0] != '\\');
        assert(s.drop_first() =~= t + rest);
        lemma_segments_plain_prefix(t, rest);
        lemma_segments_len(rest);
        let r = segments(rest);
        assert(seq![a[0]] + (t + r[0]) =~= a + r[0]);
        assert(r.update(0, t + r[0]).update(0, a + r[0]) =~= r.update(0, a + r[0]));
    }
}

proof fn lemma_segments_len(s: Seq<char>)
    ensures
        segments(s).len() >= 1,
    decreases s.len(),
{
    if s.len() == 0 {
    } else if s[0] == '\\' && s.len() >= 2 {
        lemma_segments_len(s.skip(2));
    } else {
        lemma_segments_len(s.drop_first());
    }
}

proof fn lemma_segments_separator(rest: Seq<char>)
    ensures
        segments(seq![';'] + rest) == seq![Seq::<char>::empty()] + segments(rest),
{
    let s = seq![';'] + rest;
    assert(s[0] == ';');
    assert(s.drop_first() =~= rest);
}

proof fn lemma_segments_join(items: Seq<Seq<char>>, tail: bool)
    requires
        items.len() > 0,
        forall|k: int| 0 <= k < items.len() ==> is_plain_item(#[trigger] items[k]),
    ensures
        segments(join_items(items) + (if tail { seq![';'] } else { seq![] })) == items + (if tail {
            seq![Seq::<char>::empty()]
        } else {
            seq![]
        }),
    decreases items.len(),
{
    let end: Seq<char> = if tail {
        seq![';']
    } else {
        seq![]
    };
    let a = items[0];
    assert(is_plain_item(a));
    if items.len() == 1 {
        lemma_segments_plain_prefix(a, end);
        if tail {
            lemma_segments_separator(seq![]);
            assert(segments(Seq::<char>::empty()) == seq![Seq::<char>::empty()]);
            assert(segments(end) =~= seq![Seq::<char>::empty(), Seq::<char>::empty()]);
            assert(a + Seq::<char>::empty() =~= a);
            assert(segments(end).update(0, a + segments(end)[0]) =~= items + seq![Seq::<char>::empty()]);
        } else {
            assert(segments(end) == seq![Seq::<char>::empty()]);
            assert(a + Seq::<char>::empty() =~= a);
            assert(segments(end).update(0, a + segments(end)[0]) =~= items);
        }
        assert(join_items(items) + end =~= a + end);
    } else {
        let rest_items = items.drop_first();
        assert forall|k: int| 0 <= k < rest_items.len() implies is_plain_item(#[trigger] rest_items[k]) by {
            assert(rest_items[k] == items[k + 1]);
        }
        lemma_segments_join(rest_items, tail);
        let rest = seq![';'] + (join_items(rest_items) + end);
        assert(join_items(items) + end =~= a + rest);
        lemma_segments_plain_prefix(a, rest);
        lemma_segments_separator(join_items(rest_items) + end);
        let sr = segments(rest);
        assert(sr[0] == Seq::<char>::empty());
        assert(a + sr[0] =~= a);
        let extra: Seq<Seq<char>> = if tail {
            seq![Seq::<char>::empty()]
        } else {
            seq![]
        };
        assert(sr.update(0, a) =~= items + extra);
    }
}

proof fn lemma_unescape_plain(x: Seq<char>)
    requires
        forall|i: int| 0 <= i < x.len() ==> #[trigger] x[i] != '\\',
    ensures
        unescape(x) == x,
    decreases x.len(),
{
    if x.len() > 0 {
        let t = x.drop_first();
        assert forall|i: int| 0 <= i < t.len() implies #[trigger] t[i] != '\\' by {
            assert(t[i] == x[i + 1]);
        }
        lemma_unescape_plain(t);
        assert(seq![x[0]] + t =~= x);
    }
}

proof fn lemma_clean_plain(items: Seq<Seq<char>>)
    requires
        forall|k: int| 0 <= k < items.len() ==> is_plain_item(#[trigger] items[k]),
    ensures
        clean_items(items) == items,
        clean_items(items.push(Seq::<char>::empty())) == items,
    decreases items.len(),
{
    assert(items.push(Seq::<char>::empty()).drop_last() =~= items);
    assert(trim(Seq::<char>::empty()) == Seq::<char>::empty());
    if items.len() > 0 {
        let p = items.drop_last();
        assert forall|k: int| 0 <= k < p.len() implies is_plain_item(#[trigger] p[k]) by {
            assert(p[k] == items[k]);
        }
        lemma_clean_plain(p);
        let x = items.last();
        assert(is_plain_item(items[items.len() - 1]));
        assert(trim_start(x) == x);
        assert(trim_end(x) == x);
        assert forall|i: int| 0 <= i < x.len() implies #[trigger] x[i] != '\\' by {
            assert(x[i] != ';' && x[i] != '\\');
        }
        lemma_unescape_plain(x);
        assert(p.push(x) =~= items);
    }
    let q = items.push(Seq::<char>::empty());
    assert(q.last() == Seq::<char>::empty());
    assert(trim(q.last()).len() == 0);
    assert(clean_items(q) == clean_items(q.drop_last()));
}

/// Splitting is stable under joining back: items that a list gives back
/// unchanged (not empty, no `;`, no backslash, no white space at either
/// end), joined with `;`, split into the same items again, with or without
/// a `;` at the end.
pub proof fn lemma_list_resplit(items: Seq<Seq<char>>)
    requires
        forall|k: int| 0 <= k < items.len() ==> is_plain_item(#[trigger] items[k]),
    ensures
        list_items(join_items(items)) == items,
        list_items(join_items(items) + seq![';']) == items,
{
    lemma_clean_plain(items);
    if items.len() == 0 {
        assert(segments(Seq::<char>::empty()) == seq![Seq::<char>::empty()]);
        assert(clean_items(seq![Seq::<char>::empty()]) == clean_items(items.push(Seq::<char>::empty())));
        assert(items.push(Seq::<char>::empty()) =~= seq![Seq::<char>::empty()]);
        lemma_segments_separator(seq![]);
        assert(join_items(items) + seq![';'] =~= seq![';'] + Seq::<char>::empty());
        assert(segments(join_items(items) + seq![';']) =~= seq![Seq::<char>::empty(), Seq::<char>::empty()]);
        assert(clean_items(seq![Seq::<char>::empty(), Seq::<char>::empty()]) == Seq::<Seq<char>>::empty()) by {
            assert(seq![Seq::<char>::empty(), Seq::<char>::empty()].drop_last() =~= seq![Seq::<char>::empty()]);
            assert(seq![Seq::<char>::empty()].drop_last() =~= Seq::<Seq<char>>::empty());
        }
    } else {
        lemma_segments_join(items, false);
        lemma_segments_join(items, true);
        assert(join_items(items) + Seq::<char>::empty() =~= join_items(items));
        assert(items + Seq::<Seq<char>>::empty() =~= items);
        assert(items + seq![Seq::<char>::empty()] =~= items.push(Seq::<char>::empty()));
    }
}

} // verus!
