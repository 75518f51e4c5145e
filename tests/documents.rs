use freedesktop_apps::{ApplicationEntry, DesktopEntry, DesktopEntryGroup, ParseError, ValueType};

fn parse(text: &str) -> Result<ApplicationEntry, ParseError> {
    ApplicationEntry::parse("/tmp/test.desktop", text)
}

#[test]
fn test_empty_file() {
    assert!(parse("").is_err());
}

#[test]
fn test_only_comments() {
    let result = parse("# Only comments\n# No actual content\n\n# More comments");
    assert!(result.is_err());
}

#[test]
fn test_invalid_group_headers() {
    let result = parse("[Invalid Group Header\nType=Application\nName=Test");
    assert!(result.is_err());
}

#[test]
fn test_key_without_equals() {
    let result = parse("[Desktop Entry]\nType=Application\nNameWithoutEquals\nExec=test");
    assert!(result.is_err());
}

#[test]
fn test_empty_key_name() {
    let entry = parse("[Desktop Entry]\nType=Application\nName=Test\n=EmptyKey\nExec=test")
        .expect("Should parse despite empty key");
    assert_eq!(entry.name(), Some("Test".to_string()));
}

#[test]
fn test_empty_value() {
    let entry = parse("[Desktop Entry]\nType=Application\nName=Test\nComment=\nExec=test")
        .expect("Should parse with empty value");
    assert_eq!(entry.comment(), Some("".to_string()));
}

#[test]
fn test_multiple_equals_signs() {
    let entry = parse(
        "[Desktop Entry]\nType=Application\nName=Test\nExec=test --option=value=123\nComment=Text with = signs",
    )
    .expect("Should parse with multiple equals");
    assert_eq!(entry.exec(), Some("test --option=value=123".to_string()));
    assert_eq!(entry.comment(), Some("Text with = signs".to_string()));
}

#[test]
fn test_very_long_lines() {
    let long_value = "A".repeat(10000);
    let content = format!(
        "[Desktop Entry]\nType=Application\nName=Test\nComment={}\nExec=test",
        long_value
    );
    let entry = parse(&content).expect("Should parse long lines");
    assert_eq!(entry.comment(), Some(long_value));
}

#[test]
fn test_unicode_content() {
    let entry = parse("[Desktop Entry]\nType=Application\nName=测试应用程序\nComment=Приложение для тестирования\nIcon=🚀\nExec=test")
        .expect("Should parse Unicode content");
    assert_eq!(entry.name(), Some("测试应用程序".to_string()));
    assert_eq!(entry.comment(), Some("Приложение для тестирования".to_string()));
    assert_eq!(entry.icon(), Some("🚀".to_string()));
}

#[test]
fn test_whitespace_variations() {
    let entry = parse("[Desktop Entry]\n  Type  =  Application  \n\tName\t=\tTest App\t\nExec =test-app   \n   Comment=   A test app   ")
        .expect("Should parse whitespace variations");
    assert_eq!(entry.entry_type(), Some("Application".to_string()));
    assert_eq!(entry.name(), Some("Test App".to_string()));
    assert_eq!(entry.exec(), Some("test-app".to_string()));
    assert_eq!(entry.comment(), Some("A test app".to_string()));
}

#[test]
fn test_duplicate_keys() {
    let entry = parse("[Desktop Entry]\nType=Application\nName=First Name\nName=Second Name\nExec=test")
        .expect("Should parse with duplicate keys");
    assert_eq!(entry.name(), Some("Second Name".to_string()));
}

#[test]
fn test_multiple_groups() {
    let entry = parse("[Desktop Entry]\nType=Application\nName=Test App\nExec=test\n\n[Another Group]\nCustomKey=CustomValue\n\n[Desktop Action test]\nName=Test Action\nExec=test --action")
        .expect("Should parse multiple groups");
    assert_eq!(entry.name(), Some("Test App".to_string()));
}

#[test]
fn test_semicolon_edge_cases() {
    let entry = parse("[Desktop Entry]\nType=Application\nName=Test\nExec=test\nCategories=A;B;C;\nKeywords=;word1;word2;;\nMimeType=text/plain;")
        .expect("Should parse semicolon edge cases");
    assert_eq!(entry.categories(), Some(vec!["A".to_string(), "B".to_string(), "C".to_string()]));
    assert_eq!(entry.keywords(), Some(vec!["word1".to_string(), "word2".to_string()]));
    assert_eq!(entry.mime_types(), Some(vec!["text/plain".to_string()]));
}

#[test]
fn test_boolean_edge_cases() {
    let entry = parse("[Desktop Entry]\nType=Application\nName=Test\nExec=test\nTerminal=TRUE\nHidden=False\nNoDisplay=yes\nX-Test-Invalid=maybe")
        .expect("Should parse boolean variations");
    assert_eq!(entry.get_bool("Terminal"), Some(true));
    assert_eq!(entry.get_bool("Hidden"), Some(false));
    assert_eq!(entry.get_bool("NoDisplay"), None);
    assert_eq!(entry.get_bool("X-Test-Invalid"), None);
}

#[test]
fn test_invalid_key_characters() {
    let result = parse("[Desktop Entry]\nType=Application\nName=Test\nExec=test\nInvalid Key=value\nValid-Key=value\nAnother_Invalid=value");
    assert!(result.is_err());
}

#[test]
fn test_performance_large_file() {
    let mut content = String::from("[Desktop Entry]\nType=Application\nName=Large Test\nExec=test\n");
    for i in 0..1000 {
        content.push_str(&format!("X-Custom-Field-{}=Value {}\n", i, i));
    }
    let start = std::time::Instant::now();
    let entry = parse(&content).expect("Should parse large file");
    let duration = start.elapsed();
    assert!(duration.as_millis() < 100, "Parsing took too long: {:?}", duration);
    assert_eq!(entry.name(), Some("Large Test".to_string()));
}

#[test]
fn invalid_key_line_gives_invalid_format() {
    let result = parse("[Desktop Entry]\nType=Application\nName=Test\nExec=test\nInvalid Key=value");
    assert!(matches!(result, Err(ParseError::InvalidFormat(_))));
}

#[test]
fn pair_before_header_gives_invalid_format() {
    let result = parse("Name=Test\n[Desktop Entry]\nType=Application\nExec=test");
    assert!(matches!(result, Err(ParseError::InvalidFormat(_))));
}

#[test]
fn no_header_never_succeeds() {
    assert!(matches!(parse("just some noise\n\nmore noise"), Err(ParseError::MissingRequiredKey(_))));
    assert!(matches!(parse("Type=Application\nName=X\nExec=x"), Err(ParseError::InvalidFormat(_))));
}

#[test]
fn missing_type_or_name_gives_missing_required_key() {
    assert!(matches!(parse("[Desktop Entry]\nName=Test\nExec=x"), Err(ParseError::MissingRequiredKey(_))));
    assert!(matches!(parse("[Desktop Entry]\nType=Application\nExec=x"), Err(ParseError::MissingRequiredKey(_))));
    assert!(matches!(parse("[Other]\nType=Application\nName=T\nExec=x"), Err(ParseError::MissingRequiredKey(_))));
}

#[test]
fn application_needs_exec_and_link_needs_url() {
    assert!(matches!(parse("[Desktop Entry]\nType=Application\nName=T"), Err(ParseError::MissingRequiredKey(_))));
    assert!(matches!(parse("[Desktop Entry]\nType=Application\nName=T\nDBusActivatable=false"), Err(ParseError::MissingRequiredKey(_))));
    assert!(matches!(parse("[Desktop Entry]\nType=Link\nName=T"), Err(ParseError::MissingRequiredKey(_))));
    let link = parse("[Desktop Entry]\nType=Link\nName=T\nURL=https://example.com").expect("link");
    assert_eq!(link.get_string("URL"), Some("https://example.com".to_string()));
    assert_eq!(link.exec(), None);
    let dir = parse("[Desktop Entry]\nType=Directory\nName=T").expect("directory");
    assert_eq!(dir.entry_type(), Some("Directory".to_string()));
}

#[test]
fn reentered_group_keeps_fields() {
    let text = "[Desktop Entry]\nType=Application\n[Other]\nA=1\n[Desktop Entry]\nName=Back\nExec=x";
    let entry = parse(text).expect("re-entered group");
    assert_eq!(entry.name(), Some("Back".to_string()));
    assert_eq!(entry.entry_type(), Some("Application".to_string()));
}

#[test]
fn typed_getters() {
    let entry = parse("[Desktop Entry]\nType=Application\nName=T\nExec=x\nHidden=true\nX-Ratio=2.5\nKeywords=a;b\r\n")
        .expect("typed");
    assert!(entry.is_hidden());
    assert!(!entry.no_display());
    assert!(!entry.should_show());
    assert!(!entry.terminal());
    assert_eq!(entry.get_numeric_text("X-Ratio"), Some("2.5".to_string()));
    assert_eq!(entry.get_numeric_text("Name"), None);
    assert_eq!(entry.get_vec("Keywords"), Some(vec!["a".to_string(), "b".to_string()]));
    assert_eq!(entry.get_string("Keywords"), None);
    assert_eq!(entry.path(), "/tmp/test.desktop");
}

#[test]
fn group_access_through_document() {
    let doc = DesktopEntry::parse("/x.desktop", "[Desktop Entry]\nType=Application\nName=N\nName[de]=D\nExec=e")
        .expect("doc");
    let group = doc.get_desktop_entry_group().expect("group");
    assert_eq!(group.name, "Desktop Entry");
    assert_eq!(group.get_field("Name"), Some(&ValueType::String("N".to_string())));
    assert_eq!(group.get_localized_field("Name", Some("de")), Some(&ValueType::String("D".to_string())));
    assert_eq!(group.get_field("Missing"), None);
}

#[test]
fn group_insert_and_lookup() {
    let mut group = DesktopEntryGroup::new("Desktop Entry".to_string());
    group.insert_field("Name", ValueType::String("A".to_string()));
    group.insert_field("Name[fr]", ValueType::String("B".to_string()));
    group.insert_field("Name", ValueType::String("C".to_string()));
    assert_eq!(group.get_field("Name"), Some(&ValueType::String("C".to_string())));
    assert_eq!(group.get_field("Name[fr]"), None);
    assert_eq!(group.get_localized_field("Name", Some("fr_CA")), Some(&ValueType::String("B".to_string())));
    assert_eq!(group.get_localized_field("Name", Some("it")), Some(&ValueType::String("C".to_string())));
    assert_eq!(group.get_localized_field("Name", None), Some(&ValueType::String("C".to_string())));
}

#[test]
fn unterminated_locale_suffix_is_invalid_format() {
    let result = parse("[Desktop Entry]\nType=Application\nName=T\nExec=x\nName[en=v");
    assert!(matches!(result, Err(ParseError::InvalidFormat(_))));
}
