use freedesktop_apps::{is_valid_key_name, parse_value, split_semicolon_list, unescape_value};
use freedesktop_apps::{LocalizedKey, ValueType};

#[test]
fn test_localized_key_parsing() {
    let key = LocalizedKey::parse("Name");
    assert_eq!(key.key, "Name");
    assert_eq!(key.locale, None);

    let key = LocalizedKey::parse("Name[en_US]");
    assert_eq!(key.key, "Name");
    assert_eq!(key.locale, Some("en_US".to_string()));
}

#[test]
fn test_value_parsing() {
    assert_eq!(parse_value("true"), ValueType::Boolean(true));
    assert_eq!(parse_value("false"), ValueType::Boolean(false));
    assert_eq!(parse_value("123.45"), ValueType::Numeric("123.45".to_string()));
    assert_eq!(parse_value("hello"), ValueType::String("hello".to_string()));
    assert_eq!(
        parse_value("one;two;three"),
        ValueType::StringList(vec!["one".to_string(), "two".to_string(), "three".to_string()])
    );
}

#[test]
fn parser_test_escape_sequences() {
    assert_eq!(unescape_value("hello\\sworld"), "hello world");
    assert_eq!(unescape_value("line1\\nline2"), "line1\nline2");
    assert_eq!(unescape_value("tab\\there"), "tab\there");
    assert_eq!(unescape_value("backslash\\\\"), "backslash\\");
}

#[test]
fn test_key_validation() {
    assert!(is_valid_key_name("Name"));
    assert!(is_valid_key_name("Name[en_US]"));
    assert!(is_valid_key_name("X-Custom-Key"));
    assert!(!is_valid_key_name("Invalid Key"));
    assert!(!is_valid_key_name("Key=Value"));
}

#[test]
fn localized_key_malformed_brackets() {
    let key = LocalizedKey::parse("Name]x[de");
    assert_eq!(key.key, "Name]x[de");
    assert_eq!(key.locale, None);
    let key = LocalizedKey::parse("Name[de");
    assert_eq!(key.key, "Name[de");
    assert_eq!(key.locale, None);
    let key = LocalizedKey::parse("Name[sr@latin]");
    assert_eq!(key.key, "Name");
    assert_eq!(key.locale, Some("sr@latin".to_string()));
}

#[test]
fn unescape_keeps_unknown_and_trailing_backslash() {
    assert_eq!(unescape_value("a\\qb"), "a\\qb");
    assert_eq!(unescape_value("end\\"), "end\\");
    assert_eq!(unescape_value("cr\\rsemi\\;"), "cr\rsemi;");
    assert_eq!(unescape_value(""), "");
}

#[test]
fn list_splitting_drops_empty_items() {
    assert_eq!(split_semicolon_list("A;B;C;"), vec!["A", "B", "C"]);
    assert_eq!(split_semicolon_list(";word1;word2;;"), vec!["word1", "word2"]);
    assert_eq!(split_semicolon_list(" a ; b\\;c ;"), vec!["a", "b;c"]);
    assert_eq!(split_semicolon_list("x\\\\;y"), vec!["x\\", "y"]);
    assert_eq!(split_semicolon_list(";;"), Vec::<String>::new());
}

#[test]
fn classification_precedence() {
    assert_eq!(parse_value("TRUE"), ValueType::Boolean(true));
    assert_eq!(parse_value("False"), ValueType::Boolean(false));
    assert_eq!(parse_value("yes"), ValueType::String("yes".to_string()));
    assert_eq!(parse_value("-1.5e3"), ValueType::Numeric("-1.5e3".to_string()));
    assert_eq!(parse_value(".5"), ValueType::Numeric(".5".to_string()));
    assert_eq!(parse_value("7."), ValueType::Numeric("7.".to_string()));
    assert_eq!(parse_value("1e"), ValueType::String("1e".to_string()));
    assert_eq!(parse_value("."), ValueType::String(".".to_string()));
    assert_eq!(parse_value("inf"), ValueType::String("inf".to_string()));
    assert_eq!(parse_value("NaN"), ValueType::String("NaN".to_string()));
    assert_eq!(parse_value("1;2"), ValueType::StringList(vec!["1".to_string(), "2".to_string()]));
    assert_eq!(parse_value("a\\;b"), ValueType::String("a;b".to_string()));
    assert_eq!(parse_value(";"), ValueType::StringList(vec![]));
    assert_eq!(parse_value(""), ValueType::String(String::new()));
    assert_eq!(parse_value("tr\\sue"), ValueType::String("tr ue".to_string()));
}

#[test]
fn classification_is_repeatable() {
    for raw in ["true", "42", "a;b;", "plain text", "x\\;y", ""] {
        assert_eq!(parse_value(raw), parse_value(raw));
    }
}

#[test]
fn key_validation_strips_only_a_trailing_suffix() {
    assert!(!is_valid_key_name("Name[en"));
    assert!(!is_valid_key_name("Na[x]me"));
    assert!(is_valid_key_name("Name[sr@latin]"));
    assert!(!is_valid_key_name("Na me[de]"));
    assert!(is_valid_key_name(""));
}

#[test]
fn joined_items_split_back() {
    let items = vec!["alpha".to_string(), "be ta".to_string(), "gamma".to_string()];
    let joined = items.join(";");
    assert_eq!(split_semicolon_list(&joined), items);
    assert_eq!(split_semicolon_list(&(joined + ";")), items);
}
