use x_lang::shared::{is_keyword_str, CompileError, Kind, KindName};

#[test]
fn keywords_are_recognized() {
    for kw in [
        "fn", "var", "return", "true", "false", "if", "else", "loop", "break", "continue",
    ] {
        assert!(is_keyword_str(kw));
    }
}

#[test]
fn non_keywords_are_rejected() {
    assert!(!is_keyword_str("hello"));
    assert!(!is_keyword_str("Fn"));
    assert!(!is_keyword_str(""));
    assert!(!is_keyword_str("functions"));
}

#[test]
fn kind_name_from_fixed_vocabulary() {
    assert_eq!(KindName::from("num", false), Ok(KindName::Number));
    assert_eq!(KindName::from("bool", false), Ok(KindName::Boolean));
    assert_eq!(KindName::from("void", true), Ok(KindName::Void));
}

#[test]
fn kind_name_from_rejects_disallowed_void() {
    assert_eq!(
        KindName::from("void", false),
        Err(CompileError::InvalidTypeAnnotation)
    );
}

#[test]
fn kind_name_from_rejects_unknown_names() {
    assert_eq!(
        KindName::from("str", true),
        Err(CompileError::InvalidTypeAnnotation)
    );
    assert_eq!(
        KindName::from("", true),
        Err(CompileError::InvalidTypeAnnotation)
    );
    assert_eq!(
        KindName::from("number", true),
        Err(CompileError::InvalidTypeAnnotation)
    );
}

#[test]
fn kind_name_to_string_round_trips() {
    assert_eq!(KindName::Number.to_string(), "num");
    assert_eq!(KindName::Boolean.to_string(), "bool");
    assert_eq!(KindName::Void.to_string(), "void");
    assert_eq!(
        KindName::from(&KindName::Boolean.to_string(), true),
        Ok(KindName::Boolean)
    );
}

#[test]
fn kind_create_parses_or_fails() {
    assert_eq!(Kind::create("num"), Ok(Kind::Exact(KindName::Number)));
    assert_eq!(Kind::create("void"), Ok(Kind::Exact(KindName::Void)));
    assert_eq!(Kind::create("str"), Err(CompileError::InvalidTypeAnnotation));
}

#[test]
fn kind_is_exact_only_for_resolved_kinds() {
    assert!(Kind::Exact(KindName::Number).is_exact());
    assert!(!Kind::Infer.is_exact());
    assert!(!Kind::NoValue.is_exact());
}

#[test]
fn kind_read_kind_name() {
    assert_eq!(
        Kind::Exact(KindName::Number).read_kind_name(),
        Some(KindName::Number)
    );
    assert_eq!(Kind::Infer.read_kind_name(), None);
    assert_eq!(Kind::NoValue.read_kind_name(), None);
}

#[test]
fn kind_to_string_empty_for_inexact() {
    assert_eq!(Kind::Exact(KindName::Number).to_string(), "num");
    assert_eq!(Kind::Infer.to_string(), "");
    assert_eq!(Kind::NoValue.to_string(), "");
}

#[test]
fn kind_from_kind_name() {
    assert_eq!(Kind::from(KindName::Number), Kind::Exact(KindName::Number));
    assert_eq!(Kind::from(KindName::Void), Kind::Exact(KindName::Void));
}
