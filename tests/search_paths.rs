use freedesktop_apps::{
    application_entry_paths, executable_candidates, first_found, search_path_entries,
    terminal_candidates,
};

#[test]
fn applications_below_each_base() {
    let bases = vec!["/usr/share".to_string(), "/opt/data/".to_string(), "".to_string()];
    assert_eq!(
        application_entry_paths(&bases),
        vec!["/usr/share/applications", "/opt/data/applications", "applications"]
    );
}

#[test]
fn search_path_split() {
    assert_eq!(search_path_entries("/a:/b::/c"), vec!["/a", "/b", "", "/c"]);
    assert_eq!(search_path_entries(""), vec![""]);
}

#[test]
fn executable_lookup_paths() {
    assert_eq!(executable_candidates("/usr/bin/env", Some("/bin")), vec!["/usr/bin/env"]);
    assert_eq!(executable_candidates("echo", Some("/bin:/usr/bin")), vec!["/bin/echo", "/usr/bin/echo"]);
    assert_eq!(executable_candidates("echo", None), Vec::<String>::new());
}

#[test]
fn terminals_in_order() {
    let t = terminal_candidates(Some("kitty"));
    assert_eq!(t[0], "kitty");
    assert_eq!(t[1], "x-terminal-emulator");
    assert_eq!(t.last().unwrap(), "xterm");
    assert_eq!(t.len(), 10);
    assert_eq!(terminal_candidates(None).len(), 9);
    let found = first_found(&t, &vec![false, false, true, false, false, false, false, false, false, true]);
    assert_eq!(found, Some("gnome-terminal".to_string()));
    assert_eq!(first_found(&t, &vec![false; 10]), None);
}
