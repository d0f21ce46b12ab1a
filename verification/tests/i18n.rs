use gitamicus::i18n::{parse_ftl, I18nService};

const DE: &str = "greeting = Hallo\nfarewell = Auf Wiedersehen\n# Kommentar\nonly-de = Nur Deutsch\n";
const EN: &str = "greeting = Hello\nfarewell = Goodbye\nonly-en = English only\n";

#[test]
fn test_parse_ftl_entries() {
    let entries = parse_ftl("hello = Hallo\n# comment\n\nfoo=bar baz");
    assert_eq!(
        entries,
        vec![
            ("hello".to_string(), "Hallo".to_string()),
            ("foo".to_string(), "bar baz".to_string()),
        ]
    );
}

#[test]
fn test_parse_ftl_trims_whitespace() {
    let entries = parse_ftl("  spaced key   =   roomy value  \r\n");
    assert_eq!(entries, vec![("spaced key".to_string(), "roomy value".to_string())]);
}

#[test]
fn test_parse_ftl_ignores_lines_without_equals() {
    let entries = parse_ftl("no separator here\nkey = value");
    assert_eq!(entries, vec![("key".to_string(), "value".to_string())]);
}

#[test]
fn test_parse_ftl_splits_at_first_equals() {
    let entries = parse_ftl("formula = a = b");
    assert_eq!(entries, vec![("formula".to_string(), "a = b".to_string())]);
}

#[test]
fn test_parse_ftl_empty_document() {
    assert_eq!(parse_ftl(""), vec![]);
    assert_eq!(parse_ftl("# only a comment\n\n"), vec![]);
}

#[test]
fn test_translate_current_language() {
    let svc = I18nService::new("de-DE", DE, EN);
    assert_eq!(svc.translate("greeting"), "Hallo");
    assert_eq!(svc.translate("farewell"), "Auf Wiedersehen");
}

#[test]
fn test_translate_falls_back_to_english() {
    let svc = I18nService::new("de-DE", DE, EN);
    assert_eq!(svc.translate("only-en"), "English only");
}

#[test]
fn test_translate_unknown_language_uses_english() {
    let svc = I18nService::new("fr-FR", DE, EN);
    assert_eq!(svc.translate("greeting"), "Hello");
}

#[test]
fn test_translate_missing_key_returns_key() {
    let svc = I18nService::new("en-US", DE, EN);
    assert_eq!(svc.translate("does-not-exist"), "does-not-exist");
}

#[test]
fn test_translate_later_entry_wins() {
    let svc = I18nService::new("de-DE", "a = 1\na = 2", "");
    assert_eq!(svc.translate("a"), "2");
}
