use unidpp_projector::decimal::Decimal;
use unidpp_projector::json::{Json, JsonObject};
use unidpp_projector::primmel::{
    eval_expr, round_decimal, Arm, CmpOp, EvalError, Expr, PackageSet, Predicate, PrimmelPackage,
    PrimmelRule, RoundingMode, UNCLASSIFIED,
};
use unidpp_projector::strmap::StrMap;

fn d(s: &str) -> Decimal {
    Decimal::parse(s).unwrap()
}

fn package(text: &str) -> Result<PrimmelPackage, String> {
    PrimmelPackage::from_json(&Json::parse(text).unwrap())
}

const GUARD_BAND: &str = r#"{
    "id": "urn:primmel:pkg:test",
    "version": "1.0.0",
    "rules": [
        {
            "id": "soh-guard-band",
            "clause_urn": "urn:oiml:pub:r:91-2:2025#clause-6.1",
            "arms": [
                { "label": "conforming", "when": {
                    "op": "ge",
                    "lhs": { "sub": [ { "input": "soh" }, { "input": "U" } ] },
                    "rhs": { "const": "85" } } },
                { "label": "not-demonstrably-conforming" }
            ]
        }
    ]
}"#;

/// The guard-band fixture rule: SoH >= 85 % guarded with w = U.
fn guard_band_rule() -> PrimmelRule {
    package(GUARD_BAND).unwrap().rules.pop().unwrap()
}

fn inputs(pairs: &[(&str, &str)]) -> StrMap<Decimal> {
    let mut out = StrMap::new();
    for (k, v) in pairs {
        out.insert(k.to_string(), d(v));
    }
    out
}

fn input(name: &str) -> Expr {
    Expr::Input { input: name.into() }
}

fn at_least(name: &str, min: &str) -> Predicate {
    Predicate {
        op: CmpOp::Ge,
        lhs: input(name),
        rhs: Expr::Const { value: d(min) },
    }
}

fn expr_doc(e: &Expr) -> Json {
    let pair = |key: &str, a: &Expr, b: &Expr| {
        let mut m = JsonObject::new();
        m.put_arr(key, vec![expr_doc(a), expr_doc(b)]);
        Json::Obj(m)
    };
    let mut m = JsonObject::new();
    match e {
        Expr::Input { input } => m.put("input", input),
        Expr::Const { value } => m.put("const", &value.to_text()),
        Expr::Add { a, b } => return pair("add", a, b),
        Expr::Sub { a, b } => return pair("sub", a, b),
        Expr::Mul { a, b } => return pair("mul", a, b),
        Expr::Round { round } => {
            let mut r = JsonObject::new();
            r.insert("of", expr_doc(&round.of));
            r.put_num("decimals", round.decimals as u64);
            r.put(
                "mode",
                match round.mode {
                    RoundingMode::HalfUp => "half-up",
                    RoundingMode::HalfEven => "half-even",
                    RoundingMode::Truncate => "truncate",
                },
            );
            m.put_obj("round", r);
        }
    }
    Json::Obj(m)
}

fn op_text(op: CmpOp) -> &'static str {
    match op {
        CmpOp::Lt => "lt",
        CmpOp::Le => "le",
        CmpOp::Gt => "gt",
        CmpOp::Ge => "ge",
        CmpOp::Eq => "eq",
        CmpOp::Ne => "ne",
    }
}

fn package_doc(p: &PrimmelPackage) -> Json {
    let rules = p
        .rules
        .iter()
        .map(|rule| {
            let arms = rule
                .arms
                .iter()
                .map(|arm| {
                    let mut m = JsonObject::new();
                    m.put("label", &arm.label);
                    if let Some(when) = &arm.when {
                        let mut w = JsonObject::new();
                        w.put("op", op_text(when.op));
                        w.insert("lhs", expr_doc(&when.lhs));
                        w.insert("rhs", expr_doc(&when.rhs));
                        m.put_obj("when", w);
                    }
                    Json::Obj(m)
                })
                .collect();
            let mut m = JsonObject::new();
            m.put("id", &rule.id);
            m.put("clause_urn", &rule.clause_urn);
            m.put_opt("title", &rule.title);
            m.put_arr("arms", arms);
            Json::Obj(m)
        })
        .collect();
    let mut m = JsonObject::new();
    m.put("id", &p.id);
    m.put("version", &p.version);
    m.put_opt("title", &p.title);
    m.put_arr("rules", rules);
    Json::Obj(m)
}

#[test]
fn package_parses_from_the_wire_schema() {
    let pkg = package(
        r#"{
        "id": "urn:primmel:pkg:battery-rules",
        "version": "1.2.0",
        "title": "Battery decision rules",
        "rules": [
            {
                "id": "soh-guard-band",
                "clause_urn": "urn:oiml:pub:r:91-2:2025#clause-6.1",
                "title": "SoH >= 85 %, w = U",
                "arms": [
                    { "label": "conforming", "when": {
                        "op": "ge",
                        "lhs": { "sub": [ { "input": "soh" }, { "input": "U" } ] },
                        "rhs": { "const": "85" } } },
                    { "label": "not-demonstrably-conforming" }
                ]
            },
            {
                "id": "efficiency-class",
                "clause_urn": "urn:eu:reg:2017:1369#annex-ii",
                "arms": [
                    { "label": "A", "when": {
                        "op": "ge",
                        "lhs": { "input": "eff" },
                        "rhs": { "const": "92" } } },
                    { "label": "B", "when": {
                        "op": "ge",
                        "lhs": { "input": "eff" },
                        "rhs": { "const": "85" } } },
                    { "label": "C", "when": {
                        "op": "ge",
                        "lhs": { "input": "eff" },
                        "rhs": { "const": "0" } } }
                ]
            }
        ]
    }"#,
    )
    .unwrap();
    assert_eq!(pkg.id, "urn:primmel:pkg:battery-rules");
    assert_eq!(pkg.version, "1.2.0");
    assert_eq!(pkg.rules.len(), 2);
    assert_eq!(
        pkg.rule("soh-guard-band").unwrap().clause_urn,
        "urn:oiml:pub:r:91-2:2025#clause-6.1"
    );
    assert!(pkg.rule("nope").is_none());
    // Round trip through the typed model is a fixed point.
    let back = package_doc(&pkg);
    let again = PrimmelPackage::from_json(&back).unwrap();
    assert_eq!(again, pkg);
}

#[test]
fn guard_band_decides_on_the_narrowed_limit() {
    let rule = guard_band_rule();
    // 86.3 - 1.8 = 84.5 < 85: not demonstrably conforming under w = U,
    // although the bare value would pass.
    let out = rule
        .evaluate(&inputs(&[("soh", "86.3"), ("U", "1.8")]))
        .unwrap();
    assert_eq!(out.label, "not-demonstrably-conforming");
    assert_eq!(out.matched_arm, Some(1));
    // 86.3 - 1.0 = 85.3 >= 85: conforming.
    let out = rule
        .evaluate(&inputs(&[("soh", "86.3"), ("U", "1.0")]))
        .unwrap();
    assert_eq!(out.label, "conforming");
    assert_eq!(out.matched_arm, Some(0));
    // Exactly on the guard-banded limit: >= is inclusive.
    let out = rule
        .evaluate(&inputs(&[("soh", "86.0"), ("U", "1.0")]))
        .unwrap();
    assert_eq!(out.label, "conforming");
}

#[test]
fn evaluation_is_deterministic_and_order_sensitive() {
    let rule = guard_band_rule();
    let env = inputs(&[("soh", "86.3"), ("U", "1.8")]);
    let first = rule.evaluate(&env).unwrap();
    let second = rule.evaluate(&env).unwrap();
    assert_eq!(first, second);
    // Named inputs resolve by identity, not position.
    let flipped = inputs(&[("U", "86.3"), ("soh", "1.8")]);
    let out = rule.evaluate(&flipped).unwrap();
    assert_eq!(out.label, "not-demonstrably-conforming");

    // First match wins: the earlier arm shadows the later one.
    let shadowing = PrimmelRule {
        id: "shadow".into(),
        clause_urn: "urn:x:test#clause-1".into(),
        title: None,
        arms: vec![
            Arm {
                label: "first".into(),
                when: Some(at_least("v", "10")),
            },
            Arm {
                label: "second".into(),
                when: Some(at_least("v", "0")),
            },
        ],
    };
    let out = shadowing.evaluate(&inputs(&[("v", "50")])).unwrap();
    assert_eq!(out.label, "first");
    assert_eq!(out.matched_arm, Some(0));
}

#[test]
fn unmatched_guards_fall_through_to_unclassified() {
    let rule = PrimmelRule {
        id: "band".into(),
        clause_urn: "urn:x:test#clause-2".into(),
        title: None,
        arms: vec![Arm {
            label: "high".into(),
            when: Some(at_least("v", "90")),
        }],
    };
    let out = rule.evaluate(&inputs(&[("v", "5")])).unwrap();
    assert_eq!(out.label, UNCLASSIFIED);
    assert_eq!(out.matched_arm, None);
}

#[test]
fn arithmetic_is_exact_over_decimals() {
    let env = inputs(&[("a", "0.1"), ("b", "0.2"), ("c", "-3")]);
    let eval = |e: &Expr| eval_expr(e, &env).unwrap();
    let add = Expr::Add {
        a: Box::new(input("a")),
        b: Box::new(input("b")),
    };
    assert_eq!(eval(&add).to_text(), "0.3"); // exact, no float error
    let mul = Expr::Mul {
        a: Box::new(input("c")),
        b: Box::new(input("b")),
    };
    assert_eq!(eval(&mul).to_text(), "-0.6");
    let sub = Expr::Sub {
        a: Box::new(input("a")),
        b: Box::new(input("b")),
    };
    assert_eq!(eval(&sub).to_text(), "-0.1");
}

#[test]
fn rounding_is_explicit_and_mode_stable() {
    let round = |v: &str, decimals: u8, mode: RoundingMode| {
        round_decimal(d(v), decimals, mode).unwrap().to_text()
    };
    // Half away from zero vs half to even at the .5 boundary.
    assert_eq!(round("84.45", 1, RoundingMode::HalfUp), "84.5");
    assert_eq!(round("84.45", 1, RoundingMode::HalfEven), "84.4");
    assert_eq!(round("84.55", 1, RoundingMode::HalfEven), "84.6"); // even up
    assert_eq!(round("84.5", 0, RoundingMode::HalfUp), "85");
    assert_eq!(round("84.5", 0, RoundingMode::HalfEven), "84");
    assert_eq!(round("84.5", 0, RoundingMode::Truncate), "84");
    // Negative values round on magnitude, sign preserved.
    assert_eq!(round("-84.45", 1, RoundingMode::HalfUp), "-84.5");
    assert_eq!(round("-84.45", 1, RoundingMode::HalfEven), "-84.4");
    assert_eq!(round("-84.45", 1, RoundingMode::Truncate), "-84.4");
    // No discarded digits: exact, unchanged value.
    assert_eq!(round("85", 2, RoundingMode::HalfUp), "85");
    assert_eq!(round("85.00", 0, RoundingMode::HalfUp), "85");
}

#[test]
fn rounding_node_participates_in_predicates() {
    // A rule that rounds the measurand to whole per cent before comparing
    // — the rounding is explicit in the package.
    let rule = package(
        r#"{
        "id": "urn:primmel:pkg:round-test",
        "version": "1.0.0",
        "rules": [
            {
                "id": "rounded-limit",
                "clause_urn": "urn:x:test#clause-3",
                "arms": [
                    { "label": "pass", "when": {
                        "op": "ge",
                        "lhs": { "round": { "of": { "input": "v" },
                                            "decimals": 0, "mode": "half-up" } },
                        "rhs": { "const": "85" } } },
                    { "label": "fail" }
                ]
            }
        ]
    }"#,
    )
    .unwrap()
    .rules
    .pop()
    .unwrap();
    // 84.6 rounds half-up to 85: pass (the guard band would have said
    // otherwise — the package states which rule applies).
    let out = rule.evaluate(&inputs(&[("v", "84.6")])).unwrap();
    assert_eq!(out.label, "pass");
    let out = rule.evaluate(&inputs(&[("v", "84.4")])).unwrap();
    assert_eq!(out.label, "fail");
}

#[test]
fn missing_and_mistyped_inputs_are_distinguished() {
    let rule = guard_band_rule();
    let err = rule.evaluate(&inputs(&[("soh", "86.3")])).unwrap_err();
    assert_eq!(err, EvalError::MissingInput { input: "U".into() });
    assert!(err.to_text().contains("U"));
    // Declared inputs are reported in declaration order.
    assert_eq!(rule.inputs(), vec!["soh", "U"]);
}

#[test]
fn evaluation_errors_have_their_texts() {
    let not_numeric = EvalError::NotNumeric { input: "soh".into() };
    assert_eq!(not_numeric.to_text(), "input `soh` is not a numeric fact");
    let missing = EvalError::MissingInput { input: "U".into() };
    assert_eq!(missing.to_text(), "input `U` has no value");
    // A product beyond the decimal domain is refused, never wrapped.
    let big = "123456789012345678901234567890";
    let square = Expr::Mul {
        a: Box::new(input("v")),
        b: Box::new(input("v")),
    };
    let err = eval_expr(&square, &inputs(&[("v", big)])).unwrap_err();
    assert!(matches!(err, EvalError::Arithmetic(_)));
    assert!(err.to_text().starts_with("arithmetic failed: "));
}

#[test]
fn validation_rejects_structurally_bad_packages() {
    let base = |rules: &str| {
        package(&format!(
            r#"{{ "id": "urn:primmel:pkg:bad", "version": "1.0.0", "rules": {rules} }}"#
        ))
    };
    // Duplicate rule ids.
    let dup = r#"[
        { "id": "r", "clause_urn": "urn:x#clause-1",
          "arms": [ { "label": "ok" } ] },
        { "id": "r", "clause_urn": "urn:x#clause-2",
          "arms": [ { "label": "ok" } ] }
    ]"#;
    assert!(base(dup).unwrap_err().contains("duplicate rule id"));
    // Missing or malformed clause URN.
    let no_urn = r#"[
        { "id": "r", "clause_urn": "clause-1",
          "arms": [ { "label": "ok" } ] }
    ]"#;
    assert!(base(no_urn).unwrap_err().contains("clause URN"));
    // Unconditional arm that is not last.
    let early_else = r#"[
        { "id": "r", "clause_urn": "urn:x#clause-1",
          "arms": [
               { "label": "else-first" },
               { "label": "guarded", "when": {
                   "op": "ge", "lhs": { "input": "v" }, "rhs": { "const": "1" } } }
          ] }
    ]"#;
    assert!(base(early_else).unwrap_err().contains("not last"));
    // Guarded arm closing the table: legitimate — fall-through is the
    // explicit `unclassified`, so validation accepts it.
    let guarded_last = r#"[
        { "id": "r", "clause_urn": "urn:x#clause-1",
          "arms": [
               { "label": "high", "when": {
                   "op": "ge", "lhs": { "input": "v" }, "rhs": { "const": "9" } } }
          ] }
    ]"#;
    assert!(base(guarded_last).is_ok());
    // Rounding beyond the decimal domain is refused at parse.
    let over_rounding = r#"[
        { "id": "r", "clause_urn": "urn:x#clause-1",
          "arms": [
               { "label": "x", "when": {
                   "op": "ge",
                   "lhs": { "round": { "of": { "input": "v" },
                                       "decimals": 19, "mode": "half-up" } },
                   "rhs": { "const": "1" } } },
               { "label": "y" }
          ] }
    ]"#;
    assert!(base(over_rounding).unwrap_err().contains("max 18"));
    // Empty arms / empty label.
    let no_arms = r#"[
        { "id": "r", "clause_urn": "urn:x#clause-1", "arms": [] }
    ]"#;
    assert!(base(no_arms).unwrap_err().contains("no arms"));
    // Empty input name inside a predicate.
    let empty_input = r#"[
        { "id": "r", "clause_urn": "urn:x#clause-1",
          "arms": [
               { "label": "x", "when": {
                   "op": "ge", "lhs": { "input": " " }, "rhs": { "const": "1" } } },
               { "label": "y" }
          ] }
    ]"#;
    assert!(base(empty_input).unwrap_err().contains("empty input name"));
    // Version pin required (the missing field is named, or the validator
    // rejects the empty pin).
    assert!(package(r#"{ "id": "urn:primmel:pkg:x", "rules": [] }"#)
        .unwrap_err()
        .contains("version"));
}

#[test]
fn comparison_operators_hold_on_both_sides() {
    let holds = |op: &str, a: &str, b: &str| -> bool {
        let pkg = package(&format!(
            r#"{{
            "id": "urn:primmel:pkg:cmp",
            "version": "1.0.0",
            "rules": [
                {{ "id": "r", "clause_urn": "urn:x#clause-1",
                  "arms": [
                      {{ "label": "yes", "when": {{
                          "op": "{op}",
                          "lhs": {{ "input": "a" }},
                          "rhs": {{ "const": "{b}" }} }} }},
                      {{ "label": "no" }}
                  ] }}
            ]
        }}"#
        ))
        .unwrap();
        let rule = &pkg.rules[0];
        rule.evaluate(&inputs(&[("a", a)])).unwrap().label == "yes"
    };
    assert!(holds("lt", "1.5", "2"));
    assert!(holds("le", "2", "2"));
    assert!(holds("gt", "2.1", "2"));
    assert!(holds("ge", "2", "2"));
    assert!(holds("eq", "2.0", "2"));
    assert!(holds("ne", "2.1", "2"));
    assert!(!holds("lt", "2", "2"));
    assert!(!holds("gt", "-1", "-0.5"));
}

#[test]
fn package_set_round_trips_and_reads_directories() {
    let mut set = PackageSet::empty();
    assert!(set.get("urn:primmel:pkg:none").is_none());
    let pkg = package(GUARD_BAND).unwrap();
    set.insert(pkg.copy(), "dir");
    let (got, source) = set.get("urn:primmel:pkg:test").unwrap();
    assert_eq!(got, &pkg);
    assert_eq!(source, "dir");
    assert_eq!(
        PackageSet::of(pkg.copy(), "registry")
            .get("urn:primmel:pkg:test")
            .unwrap()
            .1,
        "registry"
    );

    // File by file: parse errors surface with the file's name, and leave
    // the set as it was.
    let mut loaded = PackageSet::empty();
    loaded.add_file("battery.prml", GUARD_BAND).unwrap();
    let (got, source) = loaded.get("urn:primmel:pkg:test").unwrap();
    assert_eq!(got, &pkg);
    assert_eq!(source, "dir");

    let err = loaded.add_file("broken.prml", "{\"id\": \"nope\"}").unwrap_err();
    assert!(err.contains("broken.prml"), "{err}");
    let err = loaded.add_file("torn.prml", "{").unwrap_err();
    assert!(err.starts_with("torn.prml is not valid JSON: "), "{err}");
    assert_eq!(loaded.packages.len(), 1);
}

#[test]
fn rounding_stays_within_half_a_unit() {
    for (v, up, even, cut) in [
        ("2.5", "3", "2", "2"),
        ("3.5", "4", "4", "3"),
        ("-2.5", "-3", "-2", "-2"),
        ("2.49", "2", "2", "2"),
    ] {
        let round = |mode| round_decimal(d(v), 0, mode).unwrap().to_text();
        assert_eq!(round(RoundingMode::HalfUp), up);
        assert_eq!(round(RoundingMode::HalfEven), even);
        assert_eq!(round(RoundingMode::Truncate), cut);
    }
    // A number with no more digits than are kept is unchanged.
    assert!(round_decimal(d("1.25"), 2, RoundingMode::HalfUp)
        .unwrap()
        .equal(&d("1.25")));
}

#[test]
fn evaluation_ignores_inputs_that_the_rule_does_not_name() {
    let rule = guard_band_rule();
    let a = rule
        .evaluate(&inputs(&[("soh", "90"), ("U", "1"), ("other", "7")]))
        .unwrap();
    let b = rule.evaluate(&inputs(&[("soh", "90"), ("U", "1")])).unwrap();
    assert_eq!(a, b);
}

#[test]
fn rules_are_read_from_lists_too() {
    let pkg = package(
        r#"["urn:primmel:pkg:l", "1.0.0", null, [
            ["r", "urn:x#clause-1", "title", [
                ["pass", ["ge", { "round": [{ "input": "v" }, 0, "half-up"] }, { "const": "85" }]],
                ["fail"]
            ]]
        ]]"#,
    )
    .unwrap();
    let rule = pkg.rule("r").unwrap();
    assert_eq!(rule.title.as_deref(), Some("title"));
    assert_eq!(rule.evaluate(&inputs(&[("v", "84.6")])).unwrap().label, "pass");
    assert_eq!(rule.evaluate(&inputs(&[("v", "84.4")])).unwrap().label, "fail");
    let err = package(r#"["urn:primmel:pkg:l", "1.0.0", null, [], 5]"#).unwrap_err();
    assert_eq!(
        err,
        "primmel package does not parse: invalid length 5, expected fewer elements in array"
    );
}

#[test]
fn inputs_are_named_once_in_first_occurrence_order() {
    let pkg = package(
        r#"{ "id": "urn:primmel:pkg:i", "version": "1.0.0", "rules": [
            { "id": "r", "clause_urn": "urn:x#clause-1", "arms": [
                { "label": "a", "when": { "op": "ge",
                    "lhs": { "add": [ { "input": "y" }, { "input": "x" } ] },
                    "rhs": { "input": "y" } } },
                { "label": "b", "when": { "op": "lt",
                    "lhs": { "input": "z" }, "rhs": { "input": "x" } } },
                { "label": "c" } ] } ] }"#,
    )
    .unwrap();
    assert_eq!(pkg.rules[0].inputs(), vec!["y", "x", "z"]);
}
