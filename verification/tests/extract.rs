use salvo_t::extract::{RenameRule, SourceFormat, SourceFrom};
use salvo_t::extract::RenameRule::{CamelCase, KebabCase, LowerCase, PascalCase, ScreamingKebabCase, ScreamingSnakeCase, SnakeCase, UpperCase};

#[test]
fn test_parse_source_from() {
    for (key, value) in [
        ("param", SourceFrom::Param),
        ("query", SourceFrom::Query),
        ("header", SourceFrom::Header),
        ("cookie", SourceFrom::Cookie),
        ("body", SourceFrom::Body),
        ("request", SourceFrom::Request),
    ] {
        assert_eq!(key.parse::<SourceFrom>().unwrap(), value);
    }
    assert!("abcd".parse::<SourceFrom>().is_err());
}

#[test]
fn test_parse_source_format() {
    for (key, value) in [
        ("multimap", SourceFormat::MultiMap),
        ("json", SourceFormat::Json),
        ("request", SourceFormat::Request),
    ] {
        assert_eq!(key.parse::<SourceFormat>().unwrap(), value);
    }
    assert!("abcd".parse::<SourceFormat>().is_err());
}

#[test]
fn test_parse_rename_rule() {
    for (key, value) in [
        ("lowercase", LowerCase),
        ("UPPERCASE", UpperCase),
        ("PascalCase", PascalCase),
        ("camelCase", CamelCase),
        ("snake_case", SnakeCase),
        ("SCREAMING_SNAKE_CASE", ScreamingSnakeCase),
        ("kebab-case", KebabCase),
        ("SCREAMING-KEBAB-CASE", ScreamingKebabCase),
    ] {
        assert_eq!(key.parse::<RenameRule>().unwrap(), value);
    }
    assert!("abcd".parse::<RenameRule>().is_err());
}

#[test]
fn test_rename_rule() {
    assert_eq!(PascalCase.rename("rename_rule"), "RenameRule");
    assert_eq!(LowerCase.rename("RenameRule"), "renamerule");
    assert_eq!(UpperCase.rename("rename_rule"), "RENAME_RULE");
    assert_eq!(CamelCase.rename("RenameRule"), "renameRule");
    assert_eq!(SnakeCase.rename("RenameRule"), "rename_rule");
    assert_eq!(ScreamingSnakeCase.rename("rename_rule"), "RENAME_RULE");
    assert_eq!(KebabCase.rename("rename_rule"), "rename-rule");
    assert_eq!(ScreamingKebabCase.rename("rename_rule"), "RENAME-RULE");
}

#[test]
fn test_source_new() {
    let s = salvo_t::extract::Source::new(SourceFrom::Query, SourceFormat::MultiMap);
    assert_eq!(s.from, SourceFrom::Query);
    assert_eq!(s.format, SourceFormat::MultiMap);
}
