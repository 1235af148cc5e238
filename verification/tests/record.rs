use serde::de::Error;
use unidpp_projector::codelist::CodeListMapping;
use unidpp_projector::json::{Json, JsonObject};
use unidpp_projector::primmel::{CmpOp, Expr, PrimmelPackage, RoundingMode};
use unidpp_projector::record::{invalid_type_text, unknown_variant_text};

const OPERATORS: &[&str] = &["lt", "le", "gt", "ge", "eq", "ne"];

fn package(text: &str) -> Result<PrimmelPackage, String> {
    PrimmelPackage::from_json(&Json::parse(text).unwrap())
}

/// Why a package is not read.
fn unread(text: &str) -> String {
    let err = package(text).unwrap_err();
    err.strip_prefix("primmel package does not parse: ").unwrap().to_string()
}

/// A package whose only guard is this document.
fn guarded(guard: &str) -> String {
    format!(
        r#"{{ "id": "p", "version": "1", "rules": [
            {{ "id": "r", "clause_urn": "urn:x#clause-1", "arms": [
                {{ "label": "a", "when": {guard} }}, {{ "label": "b" }} ] }} ] }}"#
    )
}

/// The operator of a package's only guard, written as this document.
fn operator(op: &str) -> Result<CmpOp, String> {
    let text = guarded(&format!(
        r#"{{ "op": {op}, "lhs": {{ "input": "x" }}, "rhs": {{ "const": "1" }} }}"#
    ));
    package(&text).map(|p| p.rules[0].arms[0].when.as_ref().unwrap().op)
}

/// The rounding mode of a package's only expression, written as this document.
fn mode(mode: &str) -> Result<RoundingMode, String> {
    let text = guarded(&format!(
        r#"{{ "op": "ge", "rhs": {{ "const": "1" }},
              "lhs": {{ "round": {{ "of": {{ "input": "x" }}, "decimals": 1, "mode": {mode} }} }} }}"#
    ));
    package(&text).map(|p| match &p.rules[0].arms[0].when.as_ref().unwrap().lhs {
        Expr::Round { round } => round.mode,
        other => panic!("not a rounding: {other:?}"),
    })
}

#[test]
fn operators_and_modes_are_read_from_objects_too() {
    assert_eq!(operator(r#""ge""#).unwrap(), CmpOp::Ge);
    assert_eq!(operator(r#"{ "ge": null }"#).unwrap(), CmpOp::Ge);
    assert_eq!(operator(r#"{ "ne": null }"#).unwrap(), CmpOp::Ne);
    assert_eq!(mode(r#""half-even""#).unwrap(), RoundingMode::HalfEven);
    assert_eq!(mode(r#"{ "half-even": null }"#).unwrap(), RoundingMode::HalfEven);
    assert_eq!(mode(r#"{ "truncate": null }"#).unwrap(), RoundingMode::Truncate);
}

#[test]
fn unreadable_operators_say_why() {
    let why = |op: &str| {
        let err = operator(op).unwrap_err();
        err.strip_prefix("primmel package does not parse: ").unwrap().to_string()
    };
    let names = "one of `lt`, `le`, `gt`, `ge`, `eq`, `ne`";
    assert_eq!(why(r#""approx""#), format!("unknown variant `approx`, expected {names}"));
    // An unknown name is reported before its content is looked at.
    assert_eq!(why(r#"{ "about": 7 }"#), format!("unknown variant `about`, expected {names}"));
    assert_eq!(why(r#"{ "ge": 7 }"#), "invalid type: integer `7`, expected unit");
    assert_eq!(why("{}"), "invalid value: map, expected map with a single key");
    assert_eq!(
        why(r#"{ "ge": null, "le": null }"#),
        "invalid value: map, expected map with a single key"
    );
    assert_eq!(why("null"), "invalid type: null, expected string or map");
    assert_eq!(why(r#"["ge"]"#), "invalid type: sequence, expected string or map");
    assert_eq!(
        unknown_variant_text("approx", names),
        serde_json::Error::unknown_variant("approx", OPERATORS).to_string()
    );
}

#[test]
fn unreadable_modes_leave_no_expression() {
    for bad in [r#""up""#, r#"{ "half-up": 1 }"#, "{}", r#"{ "half-up": null, "up": null }"#, "3"] {
        assert_eq!(
            mode(bad).unwrap_err(),
            "primmel package does not parse: \
             data did not match any variant of untagged enum Expr"
        );
    }
}

#[test]
fn other_documents_are_shown_as_the_parser_shows_them() {
    let texts = [
        "null", "true", "false", "0", "7", "18446744073709551615", "-3", "-9223372036854775808",
        "1.5", "-0.25", "1e300", "2.0", "-0", "123456789012345678901234567890",
        "[]", "[1]", "{}", r#"{"a": 1}"#,
    ];
    for text in texts {
        let doc = Json::parse(text).unwrap();
        let value: serde_json::Value = serde_json::from_str(text).unwrap();
        let err = serde_json::from_value::<String>(value).unwrap_err();
        assert_eq!(invalid_type_text(&doc, "a string"), err.to_string());
    }
    for text in ["plain", "", "it's \"quoted\"", "back\\slash", "line\nbreak\ttab", "Größe 日本", "\u{7f}\u{200b}"] {
        let err = serde_json::from_value::<Vec<u8>>(serde_json::Value::String(text.into())).unwrap_err();
        assert_eq!(invalid_type_text(&Json::text(text), "a sequence"), err.to_string());
        let err = serde_json::from_value::<()>(serde_json::Value::String(text.into())).unwrap_err();
        assert_eq!(invalid_type_text(&Json::text(text), "unit"), err.to_string());
    }
    assert_eq!(
        invalid_type_text(&Json::Ratio(1, 2), "a string"),
        "invalid type: floating point `1/2`, expected a string"
    );
}

#[test]
fn a_document_of_another_kind_is_no_record() {
    assert_eq!(unread("3"), "invalid type: integer `3`, expected struct PrimmelPackage");
    assert_eq!(unread("\"p\""), "invalid type: string \"p\", expected struct PrimmelPackage");
    assert_eq!(
        unread(r#"{ "id": "p", "version": "1", "rules": [true] }"#),
        "invalid type: boolean `true`, expected struct PrimmelRule"
    );
    assert_eq!(
        unread(r#"{ "id": "p", "version": "1", "rules": [{ "id": "r", "clause_urn": "c", "arms": [1.5] }] }"#),
        "invalid type: floating point `1.5`, expected struct Arm"
    );
    assert_eq!(unread(&guarded("\"ge\"")), "invalid type: string \"ge\", expected struct Predicate");
    assert_eq!(
        CodeListMapping::from_json(&Json::Null).unwrap_err(),
        "code-list mapping does not parse: invalid type: null, expected struct CodeListMapping"
    );
}

#[test]
fn absent_fields_are_named_in_their_order() {
    assert_eq!(unread("{}"), "missing field `id`");
    assert_eq!(unread(r#"{ "id": "p", "rules": [] }"#), "missing field `version`");
    assert_eq!(unread(r#"{ "id": "p", "version": "1" }"#), "missing field `rules`");
    assert_eq!(unread(&guarded(r#"{ "lhs": { "input": "x" } }"#)), "missing field `op`");
    assert_eq!(
        serde_json::Error::missing_field("id").to_string(),
        unread("{}")
    );
    // `null` is a document, not an absent field.
    assert_eq!(
        unread(r#"{ "id": null, "version": "1", "rules": [] }"#),
        "invalid type: null, expected a string"
    );
}

#[test]
fn of_several_unreadable_members_the_first_by_name_is_reported() {
    // `rules` sorts before `title` and `version`; all come before absent ones.
    assert_eq!(
        unread(r#"{ "version": 1, "title": true, "rules": "none" }"#),
        "invalid type: string \"none\", expected a sequence"
    );
    assert_eq!(
        unread(r#"{ "version": 1, "title": true, "rules": [] }"#),
        "invalid type: boolean `true`, expected a string"
    );
    assert_eq!(
        unread(r#"{ "version": 1, "title": null }"#),
        "invalid type: integer `1`, expected a string"
    );
    // `lhs` sorts before `op`.
    assert_eq!(
        unread(&guarded(r#"{ "op": "approx", "lhs": 3, "rhs": 3 }"#)),
        "data did not match any variant of untagged enum Expr"
    );
    let mapping = Json::parse(r#"{ "id": 1, "citation": 2, "table": [3] }"#).unwrap();
    assert_eq!(
        CodeListMapping::from_json(&mapping).unwrap_err(),
        "code-list mapping does not parse: invalid type: integer `2`, expected a string"
    );
    let mapping = Json::parse(r#"{ "table": [3], "version": 4 }"#).unwrap();
    assert_eq!(
        CodeListMapping::from_json(&mapping).unwrap_err(),
        "code-list mapping does not parse: invalid type: integer `3`, expected struct MappingEntry"
    );
}

#[test]
fn a_list_is_read_in_the_order_of_the_fields() {
    assert_eq!(unread("[]"), "invalid length 0, expected struct PrimmelPackage with 4 elements");
    assert_eq!(
        unread(r#"["p", "1", null]"#),
        "invalid length 3, expected struct PrimmelPackage with 4 elements"
    );
    assert_eq!(unread(r#"["p", 1, true]"#), "invalid type: integer `1`, expected a string");
    // Too many items are reported last.
    assert_eq!(
        unread(r#"["p", "1", null, "none", 5]"#),
        "invalid type: string \"none\", expected a sequence"
    );
    assert_eq!(
        unread(r#"["p", "1", null, [], 5, 6]"#),
        "invalid length 6, expected fewer elements in array"
    );
    assert_eq!(
        serde_json::Error::invalid_length(6, &"fewer elements in array").to_string(),
        unread(r#"["p", "1", null, [], 5, 6]"#)
    );
    assert_eq!(
        unread(&guarded(r#"["ge", { "input": "x" }]"#)),
        "invalid length 2, expected struct Predicate with 3 elements"
    );
}

#[test]
fn the_last_member_under_a_key_counts() {
    let mut op = JsonObject::new();
    op.insert("ge", Json::Num(1));
    op.insert("ge", Json::Null);
    let mut guard = JsonObject::new();
    guard.insert("op", Json::Obj(op));
    guard.insert("lhs", Json::parse(r#"{ "input": "x" }"#).unwrap());
    guard.insert("rhs", Json::parse(r#"{ "const": "1" }"#).unwrap());
    let doc = Json::Arr(vec![
        Json::text("p"),
        Json::text("1"),
        Json::Null,
        Json::Arr(vec![Json::Arr(vec![
            Json::text("r"),
            Json::text("urn:x#clause-1"),
            Json::Null,
            Json::Arr(vec![
                Json::Arr(vec![Json::text("a"), Json::Obj(guard)]),
                Json::Arr(vec![Json::text("b")]),
            ]),
        ])]),
    ]);
    let read = PrimmelPackage::from_json(&doc).unwrap();
    assert_eq!(read.rules[0].arms[0].when.as_ref().unwrap().op, CmpOp::Ge);
}
