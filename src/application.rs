//! An application entry: typed access to the `Desktop Entry` group, its
//! identifier, and the launch plan for its command.
use vstd::prelude::*;
use crate::command::{
    expand, expand_field_codes, opt_str_view, parse_command_line, tokens,
    ExecuteError, ExecuteErrorKind,
};
use crate::entry::{main_group_name, plain, DesktopEntry, ParseError, parse_entry};
use crate::group::resolve;
use crate::ident::{desktop_file_id, desktop_id};
use crate::locale::{opt_string_view};
use crate::text::{message, trim, trim_str};
use crate::value::{strings_view, Value, ValueType};

verus! {

/// What a launch needs to know of the system around it.
#[derive(Debug, Clone)]
pub struct LaunchContext {
    /// Whether the entry's `TryExec` program was found (an existing
    /// absolute path, or a match in the search path).
    pub try_exec_available: bool,
    /// The terminal emulator found for entries with `Terminal=true`.
    pub terminal: Option<String>,
}

/// An application entry file that has been read.
#[derive(Debug, Clone)]
pub struct ApplicationEntry {
    pub inner: DesktopEntry,
}

pub open spec fn as_string(v: Option<Value>) -> Option<Seq<char>> {
    match v {
        Some(Value::Str(s)) => Some(s),
        _ => None,
    }
}

pub open spec fn as_bool(v: Option<Value>) -> Option<bool> {
    match v {
        Some(Value::Boolean(b)) => Some(b),
        _ => None,
    }
}

pub open spec fn as_list(v: Option<Value>) -> Option<Seq<Seq<char>>> {
    match v {
        Some(Value::List(l)) => Some(l),
        _ => None,
    }
}

pub open spec fn as_numeric(v: Option<Value>) -> Option<Seq<char>> {
    match v {
        Some(Value::Numeric(n)) => Some(n),
        _ => None,
    }
}

pub open spec fn opt_strings_view(o: Option<Vec<String>>) -> Option<Seq<Seq<char>>> {
    match o {
        Some(v) => Some(strings_view(v@)),
        None => None,
    }
}

/// The launch plan: the program and its arguments, or the kind of failure.
pub open spec fn plan(
    app: ApplicationEntry,
    files: Seq<Seq<char>>,
    urls: Seq<Seq<char>>,
    try_exec_available: bool,
    terminal: Option<Seq<char>>,
) -> Result<(Seq<char>, Seq<Seq<char>>), ExecuteErrorKind> {
    let exec = app.string_field("Exec"@);
    if exec is None || trim(exec->Some_0).len() == 0 {
        Err(ExecuteErrorKind::NotExecutable)
    } else if app.string_field("TryExec"@) is Some && !try_exec_available {
        Err(ExecuteErrorKind::ValidationFailed)
    } else {
        match expand(
            exec->Some_0,
            files,
            urls,
            app.string_field("Icon"@),
            app.string_field("Name"@),
            app.inner.path@,
        ) {
            Err(_) => Err(ExecuteErrorKind::InvalidCommand),
            Ok(line) => match tokens(line) {
                None => Err(ExecuteErrorKind::InvalidCommand),
                Some(words) => if app.bool_field("Terminal"@) == Some(true) {
                    match terminal {
                        None => Err(ExecuteErrorKind::TerminalNotFound),
                        Some(t) => Ok((t, seq!["-e"@] + words)),
                    }
                } else {
                    Ok((words[0], words.drop_first()))
                },
            },
        }
    }
}

fn copy_strings(v: &Vec<String>) -> (r: Vec<String>)
    ensures
        r@ == v@,
{
    let mut r: Vec<String> = Vec::new();
    let mut i: usize = 0;
    while i < v.len()
        invariant
            i <= v.len(),
            r@ == v@.take(i as int),
        decreases v.len() - i,
    {
        r.push(v[i].clone());
        i = i + 1;
        assert(r@ =~= v@.take(i as int));
    }
    assert(v@.take(v.len() as int) =~= v@);
    r
}

impl ApplicationEntry {
    pub open spec fn wf(&self) -> bool {
        self.inner.wf()
    }

    /// The plain value of `key` in the `Desktop Entry` group.
    pub open spec fn field(&self, key: Seq<char>) -> Option<Value> {
        let gm = self.inner.group_map();
        if gm.contains_key(main_group_name()) {
            plain(gm[main_group_name()], key)
        } else {
            None
        }
    }

    pub open spec fn string_field(&self, key: Seq<char>) -> Option<Seq<char>> {
        as_string(self.field(key))
    }

    pub open spec fn bool_field(&self, key: Seq<char>) -> Option<bool> {
        as_bool(self.field(key))
    }

    pub open spec fn list_field(&self, key: Seq<char>) -> Option<Seq<Seq<char>>> {
        as_list(self.field(key))
    }

    /// Reads the text of an application entry file found at `path`.
    pub fn parse(path: &str, text: &str) -> (r: Result<Self, ParseError>)
        ensures
            match parse_entry(text@) {
                Ok(gm) => r is Ok && r->Ok_0.wf() && r->Ok_0.inner.group_map() == gm
                    && r->Ok_0.inner.path@ == path@,
                Err(e) => r is Err && r->Err_0.kind() == e,
            },
    {
        match DesktopEntry::parse(path, text) {
            Ok(inner) => Ok(ApplicationEntry { inner }),
            Err(e) => Err(e),
        }
    }

    /// A string value of the `Desktop Entry` group.
    pub fn get_string(&self, key: &str) -> (r: Option<String>)
        requires
            self.wf(),
        ensures
            opt_string_view(r) == self.string_field(key@),
    {
        match self.inner.get_desktop_entry_group() {
            None => None,
            Some(g) => match g.get_field(key) {
                Some(ValueType::String(s)) => Some(s.clone()),
                _ => None,
            },
        }
    }

    /// A string value of the `Desktop Entry` group for `locale`, falling
    /// back from the most specific locale tag to the plain value.
    pub fn get_localized_string(&self, key: &str, locale: Option<&str>) -> (r: Option<String>)
        requires
            self.wf(),
        ensures
            opt_string_view(r) == (if self.inner.group_map().contains_key(main_group_name()) {
                as_string(resolve(self.inner.group_map()[main_group_name()], key@, opt_str_view(locale)))
            } else {
                None
            }),
    {
        match self.inner.get_desktop_entry_group() {
            None => None,
            Some(g) => match g.get_localized_field(key, locale) {
                Some(ValueType::String(s)) => Some(s.clone()),
                _ => None,
            },
        }
    }

    /// A boolean value of the `Desktop Entry` group.
    pub fn get_bool(&self, key: &str) -> (r: Option<bool>)
        requires
            self.wf(),
        ensures
            r == self.bool_field(key@),
    {
        match self.inner.get_desktop_entry_group() {
            None => None,
            Some(g) => match g.get_field(key) {
                Some(ValueType::Boolean(b)) => Some(*b),
                _ => None,
            },
        }
    }

    /// The text of a numeric value of the `Desktop Entry` group.
    pub fn get_numeric_text(&self, key: &str) -> (r: Option<String>)
        requires
            self.wf(),
        ensures
            opt_string_view(r) == as_numeric(self.field(key@)),
    {
        match self.inner.get_desktop_entry_group() {
            None => None,
            Some(g) => match g.get_field(key) {
                Some(ValueType::Numeric(s)) => Some(s.clone()),
                _ => None,
            },
        }
    }

    /// A list value of the `Desktop Entry` group.
    pub fn get_vec(&self, key: &str) -> (r: Option<Vec<String>>)
        requires
            self.wf(),
        ensures
            opt_strings_view(r) == self.list_field(key@),
    {
        match self.inner.get_desktop_entry_group() {
            None => None,
            Some(g) => match g.get_field(key) {
                Some(ValueType::StringList(l)) => Some(copy_strings(l)),
                _ => None,
            },
        }
    }

    /// The application name.
    pub fn name(&self) -> (r: Option<String>)
        requires
            self.wf(),
        ensures
            opt_string_view(r) == self.string_field("Name"@),
    {
        self.get_string("Name")
    }

    /// The command template.
    pub fn exec(&self) -> (r: Option<String>)
        requires
            self.wf(),
        ensures
            opt_string_view(r) == self.string_field("Exec"@),
    {
        self.get_string("Exec")
    }

    /// The icon name or path.
    pub fn icon(&self) -> (r: Option<String>)
        requires
            self.wf(),
        ensures
            opt_string_view(r) == self.string_field("Icon"@),
    {
        self.get_string("Icon")
    }

    /// The entry type (`Application`, `Link`, `Directory`).
    pub fn entry_type(&self) -> (r: Option<String>)
        requires
            self.wf(),
        ensures
            opt_string_view(r) == self.string_field("Type"@),
    {
        self.get_string("Type")
    }

    /// The generic name, such as "Web Browser".
    pub fn generic_name(&self) -> (r: Option<String>)
        requires
            self.wf(),
        ensures
            opt_string_view(r) == self.string_field("GenericName"@),
    {
        self.get_string("GenericName")
    }

    /// The description.
    pub fn comment(&self) -> (r: Option<String>)
        requires
            self.wf(),
        ensures
            opt_string_view(r) == self.string_field("Comment"@),
    {
        self.get_string("Comment")
    }

    /// The working directory to launch in.
    pub fn path_dir(&self) -> (r: Option<String>)
        requires
            self.wf(),
        ensures
            opt_string_view(r) == self.string_field("Path"@),
    {
        self.get_string("Path")
    }

    /// Whether the entry is hidden (`Hidden=true`).
    pub fn is_hidden(&self) -> (r: bool)
        requires
            self.wf(),
        ensures
            r == (self.bool_field("Hidden"@) == Some(true)),
    {
        match self.get_bool("Hidden") {
            Some(b) => b,
            None => false,
        }
    }

    /// Whether the entry is kept out of menus (`NoDisplay=true`).
    pub fn no_display(&self) -> (r: bool)
        requires
            self.wf(),
        ensures
            r == (self.bool_field("NoDisplay"@) == Some(true)),
    {
        match self.get_bool("NoDisplay") {
            Some(b) => b,
            None => false,
        }
    }

    /// Whether the program runs in a terminal (`Terminal=true`).
    pub fn terminal(&self) -> (r: bool)
        requires
            self.wf(),
        ensures
            r == (self.bool_field("Terminal"@) == Some(true)),
    {
        match self.get_bool("Terminal") {
            Some(b) => b,
            None => false,
        }
    }

    /// Whether the entry belongs in menus: neither hidden nor marked
    /// `NoDisplay`.
    pub fn should_show(&self) -> (r: bool)
        requires
            self.wf(),
        ensures
            r == (self.bool_field("Hidden"@) != Some(true) && self.bool_field("NoDisplay"@) != Some(
                true,
            )),
    {
        !self.is_hidden() && !self.no_display()
    }

    /// The MIME types the application handles.
    pub fn mime_types(&self) -> (r: Option<Vec<String>>)
        requires
            self.wf(),
        ensures
            opt_strings_view(r) == self.list_field("MimeType"@),
    {
        self.get_vec("MimeType")
    }

    /// The menu categories.
    pub fn categories(&self) -> (r: Option<Vec<String>>)
        requires
            self.wf(),
        ensures
            opt_strings_view(r) == self.list_field("Categories"@),
    {
        self.get_vec("Categories")
    }

    /// The search keywords.
    pub fn keywords(&self) -> (r: Option<Vec<String>>)
        requires
            self.wf(),
        ensures
            opt_strings_view(r) == self.list_field("Keywords"@),
    {
        self.get_vec("Keywords")
    }

    /// The desktop file identifier, derived from the path.
    pub fn id(&self) -> (r: Option<String>)
        ensures
            opt_string_view(r) == desktop_id(self.inner.path@),
    {
        desktop_file_id(self.inner.path.as_str())
    }

    /// The path the entry was read from.
    pub fn path(&self) -> (r: &str)
        ensures
            r@ == self.inner.path@,
    {
        self.inner.path.as_str()
    }

    /// The launch plan for the entry's `Exec` command: checks that there is
    /// a command and that `TryExec` was found, expands the field codes with
    /// `files` and `urls`, splits the result into words, and runs it in the
    /// terminal given by `ctx` (as `terminal -e program args...`) where
    /// `Terminal=true`.
    pub fn prepare_command(&self, files: &Vec<String>, urls: &Vec<String>, ctx: &LaunchContext) -> (r:
        Result<(String, Vec<String>), ExecuteError>)
        requires
            self.wf(),
        ensures
            match plan(
                *self,
                strings_view(files@),
                strings_view(urls@),
                ctx.try_exec_available,
                opt_string_view(ctx.terminal),
            ) {
                Ok((p, a)) => r is Ok && r->Ok_0.0@ == p && strings_view(r->Ok_0.1@) == a,
                Err(e) => r is Err && r->Err_0.kind() == e,
            },
    {
        let exec = match self.get_string("Exec") {
            None => {
                return Err(ExecuteError::NotExecutable(message("No Exec key found")));
            },
            Some(e) => e,
        };
        if trim_str(exec.as_str()).len() == 0 {
            return Err(ExecuteError::NotExecutable(message("Exec key is empty")));
        }
        if self.get_string("TryExec").is_some() && !ctx.try_exec_available {
            return Err(ExecuteError::ValidationFailed(message("TryExec program not found or not executable")));
        }
        let icon = self.get_string("Icon");
        let name = self.get_string("Name");
        let icon_ref: Option<&str> = match &icon {
            Some(s) => Some(s.as_str()),
            None => None,
        };
        let name_ref: Option<&str> = match &name {
            Some(s) => Some(s.as_str()),
            None => None,
        };
        let line = match expand_field_codes(exec.as_str(), files, urls, icon_ref, name_ref, self.path()) {
            Err(_) => {
                return Err(ExecuteError::InvalidCommand(message("Invalid field code in Exec")));
            },
            Ok(l) => l,
        };
        let (program, args) = match parse_command_line(line.as_str()) {
            Err(e) => {
                return Err(e);
            },
            Ok(pa) => pa,
        };
        if self.get_bool("Terminal") == Some(true) {
            match &ctx.terminal {
                None => Err(ExecuteError::TerminalNotFound),
                Some(t) => {
                    let mut targs: Vec<String> = Vec::new();
                    targs.push(message("-e"));
                    targs.push(program);
                    let ghost before = targs@;
                    let mut i: usize = 0;
                    while i < args.len()
                        invariant
                            i <= args.len(),
                            targs@ == before + args@.take(i as int),
                        decreases args.len() - i,
                    {
                        targs.push(args[i].clone());
                        i = i + 1;
                        assert(targs@ =~= before + args@.take(i as int));
                    }
                    assert(args@.take(args.len() as int) =~= args@);
                    proof {
                        reveal_strlit("-e");
                    }
                    assert(strings_view(targs@) =~= seq!["-e"@] + seq![program@] + strings_view(args@));
                    Ok((t.clone(), targs))
                },
            }
        } else {
            Ok((program, args))
        }
    }
}

} // verus!
