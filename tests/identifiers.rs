use freedesktop_apps::{desktop_file_id, ApplicationEntry};

fn entry_at(path: &str) -> ApplicationEntry {
    ApplicationEntry::parse(path, "[Desktop Entry]\nType=Application\nName=Test\nExec=test").unwrap()
}

#[test]
fn test_simple_desktop_file_id() {
    let entry = entry_at("/home/user/project/tests/fixtures/minimal_app.desktop");
    assert_eq!(entry.id(), Some("minimal_app".to_string()));
}

#[test]
fn test_desktop_file_id_edge_cases() {
    let entry = entry_at("/tmp/no_extension_test");
    assert_eq!(entry.id(), Some("no_extension_test".to_string()));
    let entry = entry_at("/tmp/complex.name.desktop");
    assert_eq!(entry.id(), Some("complex.name".to_string()));
}

#[test]
fn test_desktop_file_id_real_world_examples() {
    let test_cases = vec![
        ("org.gnome.Calculator.desktop", "org.gnome.Calculator"),
        ("firefox.desktop", "firefox"),
        ("org.kde.konsole.desktop", "org.kde.konsole"),
        ("code.desktop", "code"),
    ];
    for (filename, expected_id) in test_cases {
        let entry = entry_at(&format!("/tmp/{}", filename));
        assert_eq!(entry.id(), Some(expected_id.to_string()));
    }
}

#[test]
fn id_below_applications_root() {
    assert_eq!(
        desktop_file_id("/usr/share/applications/org/example/FooViewer.desktop"),
        Some("org-example-FooViewer".to_string())
    );
    assert_eq!(desktop_file_id("/usr/share/applications/firefox.desktop"), Some("firefox".to_string()));
    assert_eq!(
        desktop_file_id("/usr/share/applications/notes.txt"),
        Some("notes".to_string())
    );
}

#[test]
fn id_fallbacks() {
    assert_eq!(desktop_file_id("/tmp/.hidden"), Some(".hidden".to_string()));
    assert_eq!(desktop_file_id("/tmp/"), Some("tmp".to_string()));
    assert_eq!(desktop_file_id("/"), None);
    assert_eq!(desktop_file_id("/tmp/.."), None);
    assert_eq!(desktop_file_id("plain"), Some("plain".to_string()));
}
