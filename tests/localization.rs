use freedesktop_apps::ApplicationEntry;

fn entry(text: &str) -> ApplicationEntry {
    ApplicationEntry::parse("/tmp/l10n.desktop", text).unwrap()
}

#[test]
fn locale_fallback_to_language() {
    let e = entry("[Desktop Entry]\nType=Application\nExec=x\nName=Default\nName[es]=Hola\n");
    for loc in ["es", "es_MX", "es_MX.UTF-8"] {
        assert_eq!(e.get_localized_string("Name", Some(loc)), Some("Hola".to_string()));
    }
    assert_eq!(e.get_localized_string("Name", Some("de")), Some("Default".to_string()));
    assert_eq!(e.get_localized_string("Name", None), Some("Default".to_string()));
}

#[test]
fn locale_skips_unrelated_country() {
    let e = entry("[Desktop Entry]\nType=Application\nExec=x\nName=D\nName[de]=X\nName[de_DE]=Y\n");
    assert_eq!(e.get_localized_string("Name", Some("de_AT")), Some("X".to_string()));
    assert_eq!(e.get_localized_string("Name", Some("de_DE")), Some("Y".to_string()));
}

#[test]
fn locale_order_with_modifier() {
    let text = "[Desktop Entry]\nType=Application\nExec=x\nName=D\nName[sr]=A\nName[sr_RS]=B\nName[sr@latin]=C\nName[sr_RS@latin]=E\n";
    let e = entry(text);
    assert_eq!(e.get_localized_string("Name", Some("sr_RS@latin")), Some("E".to_string()));
    assert_eq!(e.get_localized_string("Name", Some("sr_ME@latin")), Some("C".to_string()));
    assert_eq!(e.get_localized_string("Name", Some("sr_RS@cyrillic")), Some("B".to_string()));
    assert_eq!(e.get_localized_string("Name", Some("sr@latin")), Some("C".to_string()));
    assert_eq!(e.get_localized_string("Name", Some("sr.UTF-8@latin")), Some("C".to_string()));
    assert_eq!(e.get_localized_string("Name", Some("fr_FR")), Some("D".to_string()));
}

#[test]
fn locale_only_plain_values_are_strings() {
    let e = entry("[Desktop Entry]\nType=Application\nExec=x\nName=D\nName[fr]=a;b\n");
    assert_eq!(e.get_localized_string("Name", Some("fr")), None);
    assert_eq!(e.get_localized_string("Missing", Some("fr")), None);
}

#[test]
fn locale_encoding_is_stripped_before_lookup() {
    let e = entry("[Desktop Entry]\nType=Application\nExec=x\nName=Default\nName[es_MX.UTF-8]=Z\n");
    assert_eq!(e.get_localized_string("Name", Some("es_MX.UTF-8")), Some("Default".to_string()));
}

#[test]
fn locale_modifier_after_encoding_is_kept() {
    let e = entry("[Desktop Entry]\nType=Application\nExec=x\nName=Default\nName[de@euro]=Z\n");
    assert_eq!(e.get_localized_string("Name", Some("de_DE.UTF-8@euro")), Some("Z".to_string()));
    assert_eq!(e.get_localized_string("Name", Some("de_DE.UTF-8")), Some("Default".to_string()));
}
