use egui_reflect::attr::{parse_field_attrs, AttrError, AttrToken};
use egui_reflect::fields::{enumerate_fields, FieldDecl};
use egui_reflect::FieldValue;

fn ident(s: &str) -> AttrToken {
    AttrToken::Ident(s.to_string())
}

fn range_tokens(a: i32, b: i32) -> Vec<AttrToken> {
    vec![
        ident("range"),
        AttrToken::Punct('='),
        AttrToken::Literal(a),
        AttrToken::Punct(','),
        AttrToken::Literal(b),
    ]
}

fn decl(name: &str, attr: Vec<AttrToken>, value: FieldValue) -> FieldDecl {
    FieldDecl { name: name.to_string(), attr, value }
}

#[test]
fn empty_attrs_parse_to_defaults() {
    let r = parse_field_attrs(&vec![]).unwrap();
    assert!(!r.skip);
    assert_eq!(r.range, None);
}

#[test]
fn skip_mark_is_read() {
    let r = parse_field_attrs(&vec![ident("skip")]).unwrap();
    assert!(r.skip);
    assert_eq!(r.range, None);
}

#[test]
fn range_annotation_is_read() {
    let r = parse_field_attrs(&range_tokens(1, 100)).unwrap();
    assert!(!r.skip);
    assert_eq!(r.range, Some((1, 100)));
}

#[test]
fn unknown_words_are_ignored() {
    let r = parse_field_attrs(&vec![ident("color"), ident("skip"), ident("bold")]).unwrap();
    assert!(r.skip);
    assert_eq!(r.range, None);
}

#[test]
fn later_range_wins() {
    let mut toks = range_tokens(1, 2);
    toks.extend(range_tokens(3, 4));
    let r = parse_field_attrs(&toks).unwrap();
    assert_eq!(r.range, Some((3, 4)));
}

#[test]
fn range_followed_by_word_is_rejected() {
    let r = parse_field_attrs(&vec![ident("range"), ident("skip")]);
    assert_eq!(r, Err(AttrError::NoPunctAfterRange));
}

#[test]
fn range_at_end_is_rejected() {
    let r = parse_field_attrs(&vec![ident("range")]);
    assert_eq!(r, Err(AttrError::NoPunctAfterRange));
}

#[test]
fn range_with_wrong_punct_is_rejected() {
    let r = parse_field_attrs(&vec![ident("range"), AttrToken::Punct(':')]);
    assert_eq!(r, Err(AttrError::NotEquals));
}

#[test]
fn range_without_lower_bound_is_rejected() {
    let r = parse_field_attrs(&vec![ident("range"), AttrToken::Punct('='), ident("low")]);
    assert_eq!(r, Err(AttrError::NoMinLiteral));
    let r = parse_field_attrs(&vec![ident("range"), AttrToken::Punct('=')]);
    assert_eq!(r, Err(AttrError::NoMinLiteral));
}

#[test]
fn range_with_one_bound_is_rejected() {
    let r = parse_field_attrs(&vec![ident("range"), AttrToken::Punct('='), AttrToken::Literal(1)]);
    assert_eq!(r, Err(AttrError::NoPunctAfterMin));
}

#[test]
fn range_with_wrong_separator_is_rejected() {
    let r = parse_field_attrs(&vec![
        ident("range"),
        AttrToken::Punct('='),
        AttrToken::Literal(1),
        AttrToken::Punct(';'),
    ]);
    assert_eq!(r, Err(AttrError::NotComma));
}

#[test]
fn range_without_upper_bound_is_rejected() {
    let r = parse_field_attrs(&vec![
        ident("range"),
        AttrToken::Punct('='),
        AttrToken::Literal(1),
        AttrToken::Punct(','),
        ident("high"),
    ]);
    assert_eq!(r, Err(AttrError::NoMaxLiteral));
}

#[test]
fn enumerates_fields_in_order_with_title_cased_names() {
    let decls = vec![
        decl("health", vec![], FieldValue::SInt(10)),
        decl("max_health", range_tokens(1, 100), FieldValue::SInt(50)),
        decl("secret", vec![ident("skip")], FieldValue::Text("hidden".to_string())),
        decl("label", vec![], FieldValue::Text("hi".to_string())),
    ];
    let fields = enumerate_fields(decls).unwrap();
    assert_eq!(fields.len(), 3);
    assert_eq!(fields[0].name.as_str(), "Health");
    assert_eq!(fields[1].name.as_str(), "Max Health");
    assert_eq!(fields[2].name.as_str(), "Label");
    assert_eq!(fields[0].opts.range, None);
    assert_eq!(fields[1].opts.range, Some((1, 100)));
    assert_eq!(fields[2].opts.range, None);
    assert!(matches!(fields[0].value, FieldValue::SInt(10)));
    assert!(matches!(fields[1].value, FieldValue::SInt(50)));
    assert!(matches!(&fields[2].value, FieldValue::Text(t) if t == "hi"));
}

#[test]
fn skipped_fields_never_appear() {
    let decls = vec![
        decl("first", vec![ident("skip")], FieldValue::Boolean(true)),
        decl("second", vec![], FieldValue::Boolean(false)),
        decl("third", vec![ident("skip")], FieldValue::SInt(3)),
    ];
    let fields = enumerate_fields(decls).unwrap();
    assert_eq!(fields.len(), 1);
    assert_eq!(fields[0].name.as_str(), "Second");
}

#[test]
fn skipped_field_with_range_still_skipped() {
    let mut toks = vec![ident("skip")];
    toks.extend(range_tokens(0, 9));
    let decls = vec![decl("hidden", toks, FieldValue::SInt(1))];
    let fields = enumerate_fields(decls).unwrap();
    assert_eq!(fields.len(), 0);
}

#[test]
fn enumeration_reports_first_malformed_annotation() {
    let decls = vec![
        decl("fine", vec![], FieldValue::SInt(0)),
        decl("broken", vec![ident("range"), ident("skip")], FieldValue::SInt(0)),
        decl("also_broken", vec![ident("range")], FieldValue::SInt(0)),
    ];
    let r = enumerate_fields(decls);
    assert_eq!(r.err(), Some(AttrError::NoPunctAfterRange));
}

#[test]
fn enumerates_nothing_from_no_fields() {
    let fields = enumerate_fields(vec![]).unwrap();
    assert_eq!(fields.len(), 0);
}
