//! Reading desktop entry files and turning their launch commands into
//! program invocations.
pub mod text;
pub mod value;
pub mod locale;
pub mod group;
pub mod entry;
pub mod command;
pub mod application;
pub mod ident;
pub mod paths;
pub mod laws;

pub use application::{ApplicationEntry, LaunchContext};
pub use command::{expand_field_codes, parse_command_line, shell_escape, ExecuteError};
pub use entry::{is_valid_key_name, DesktopEntry, ParseError};
pub use group::DesktopEntryGroup;
pub use ident::desktop_file_id;
pub use locale::LocalizedKey;
pub use paths::{
    application_entry_paths, executable_candidates, first_found, search_path_entries,
    terminal_candidates,
};
pub use value::{parse_value, split_semicolon_list, unescape_value, ValueType};
