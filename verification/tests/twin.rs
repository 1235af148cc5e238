use unidpp_projector::decimal::Decimal;
use unidpp_projector::fixtures::{demo_as_of, demo_passport, facts};
use unidpp_projector::model::{
    CapabilityClass, EventPayload, FactValue, Interval, Passport, SealedEvent, Status, TrustMarker,
    TypedEvent,
};
use unidpp_projector::strmap::StrMap;
use unidpp_projector::time::Timestamp;
use unidpp_projector::twin::{fold, typed_value, TwinState};

fn heads() -> Vec<String> {
    (0..11).map(|i| format!("{i:02x}").repeat(32)).collect()
}

fn fold_at(at: Timestamp) -> TwinState {
    fold(&demo_passport(&heads()), at)
}

fn num(s: &str) -> FactValue {
    FactValue::Num(Decimal::parse(s).unwrap())
}

fn instant(s: &str) -> Timestamp {
    Timestamp::parse(s).unwrap()
}

#[test]
fn milestone_counters_become_facts_with_provenance() {
    let state = fold_at(demo_as_of());
    let fact = state.get(facts::CARBON).unwrap();
    assert_eq!(fact.value, num("96.4"));
    // The milestone event is seq 6, attested, by the OEM.
    assert_eq!(fact.origin.seq, 6);
    assert_eq!(fact.origin.trust, TrustMarker::Attested);
    assert_eq!(fact.origin.actor_role, "economic operator");
}

#[test]
fn correction_values_are_typed() {
    let state = fold_at(demo_as_of());
    let operator = state.get(facts::OPERATOR_ID).unwrap();
    assert_eq!(
        operator.value,
        FactValue::Str("urn:unidpp:actor:oem-nordwave".into())
    );
    // Booleans and decimals type through the same rule.
    assert_eq!(typed_value("8.1"), num("8.1"));
    assert_eq!(typed_value(" TRUE "), FactValue::Bool(true));
    assert_eq!(typed_value("false"), FactValue::Bool(false));
    assert_eq!(
        typed_value("pse-square-95"),
        FactValue::Str("pse-square-95".into())
    );
}

#[test]
fn as_of_cut_excludes_later_events() {
    // Before the milestone (2027-01-12) the score is absent.
    let early = instant("2027-01-05T00:00:00Z");
    let state = fold_at(early);
    assert!(state.get(facts::CARBON).is_none());
    assert!(state.get(facts::REPARABILITY).is_none());
    // The corrections through 2026-12-02 are already in (six events); the
    // milestone (2027-01-12) is not.
    assert!(state.get(facts::OPERATOR_ID).is_some());
    assert!(state.get(facts::PSE_MARK).is_some());
    assert_eq!(state.event_count, 6);
}

#[test]
fn a_later_correction_replaces_value_and_origin() {
    let mut doc = demo_passport(&heads());
    let later = instant("2027-03-01T00:00:00Z");
    let seq = doc.log.len() as u64;
    doc.log.push(SealedEvent {
        event: TypedEvent {
            seq,
            occurred_at: later,
            actor_role: "regulator".into(),
            actor_id: "urn:unidpp:actor:reg-eu".into(),
            payload: EventPayload::Correction {
                field: facts::CARBON.to_string(),
                prior_value: "96.4".into(),
                new_value: "94.9".into(),
                reason: "operator restatement after audit".into(),
            },
            trust: TrustMarker::MultiSigned,
        },
        state_hash: "ff".repeat(32),
    });
    let state = fold(&doc, later);
    let fact = state.get(facts::CARBON).unwrap();
    assert_eq!(fact.value, num("94.9"));
    assert_eq!(fact.origin.seq, seq);
    assert_eq!(fact.origin.trust, TrustMarker::MultiSigned);
    // As-of the earlier instant the earlier value stands.
    assert_eq!(
        fold(&doc, demo_as_of()).get(facts::CARBON).unwrap().value,
        num("96.4")
    );
}

#[test]
fn custody_software_and_status_are_tracked() {
    let state = fold_at(demo_as_of());
    assert_eq!(state.custodian.as_deref(), Some("consumer-anon-1"));
    assert_eq!(
        state.get("custody.custodian").unwrap().value,
        FactValue::Str("consumer-anon-1".into())
    );
    assert_eq!(
        state.get("software.system-firmware").unwrap().value,
        FactValue::Str("1.07".into())
    );
    assert_eq!(state.status, Status::Issued);
    // The eight lifecycle events and the three protocol checks.
    assert_eq!(state.event_count, 11);
}

#[test]
fn core_facts_stay_compatible_with_trigger_predicates() {
    let state = fold_at(demo_as_of());
    let core = state.to_core_facts();
    let holds = match core.get(facts::MARKETS).unwrap() {
        FactValue::Str(s) => s.contains("JP"),
        FactValue::List(items) => items.iter().any(|m| m == "JP"),
        _ => false,
    };
    assert!(holds);
    assert_eq!(core.len(), state.facts.len());
}

fn log_of(payloads: Vec<EventPayload>) -> Passport {
    let log = payloads
        .into_iter()
        .enumerate()
        .map(|(i, payload)| SealedEvent {
            event: TypedEvent {
                seq: i as u64,
                occurred_at: Timestamp::from_secs(100 + i as i64),
                actor_role: "economic operator".into(),
                actor_id: "urn:unidpp:actor:test".into(),
                payload,
                trust: TrustMarker::SelfDeclared,
            },
            state_hash: format!("{i:02x}").repeat(32),
        })
        .collect();
    Passport {
        passport_id: "urn:unidpp:passport:t".into(),
        product_id: "gtin:4006381333931".into(),
        capability: CapabilityClass::Silent,
        validity: Interval::starting(Timestamp::from_secs(0)),
        log,
    }
}

#[test]
fn child_edges_come_and_go() {
    let p = log_of(vec![
        EventPayload::Issuance {
            derived: true,
            inputs: vec!["b".into(), "a".into()],
        },
        EventPayload::PartReplace {
            removed: "a".into(),
            added: "c".into(),
            like_for_like: true,
        },
        EventPayload::EdgeChange {
            attached: vec!["d".into()],
            detached: vec!["b".into()],
        },
    ]);
    assert_eq!(fold(&p, Timestamp::from_secs(100)).active(), vec!["a", "b"]);
    assert_eq!(fold(&p, Timestamp::from_secs(101)).active(), vec!["b", "c"]);
    assert_eq!(fold(&p, Timestamp::from_secs(102)).active(), vec!["c", "d"]);
    // A plain issuance names no children.
    let plain = log_of(vec![EventPayload::Issuance {
        derived: false,
        inputs: vec!["a".into()],
    }]);
    assert!(fold(&plain, Timestamp::from_secs(100)).active().is_empty());
}

#[test]
fn status_follows_the_log() {
    let status = |payload| {
        fold(&log_of(vec![payload]), Timestamp::from_secs(100))
            .status
            .text()
            .to_string()
    };
    assert_eq!(status(EventPayload::Other), Status::Issued.text());
    assert_eq!(
        status(EventPayload::Split {
            parent_consumed: true
        }),
        Status::Transformed.text()
    );
    assert_eq!(
        status(EventPayload::Split {
            parent_consumed: false
        }),
        Status::Issued.text()
    );
    assert_eq!(status(EventPayload::Decompose), Status::Transformed.text());
    assert_eq!(status(EventPayload::EndOfWaste), Status::EndOfWaste.text());
    assert_eq!(
        status(EventPayload::StatusChange {
            to: Status::Named("recalled".into())
        }),
        "recalled"
    );
}

#[test]
fn every_fact_comes_from_an_event_at_or_before_the_instant() {
    let p = demo_passport(&heads());
    let state = fold(&p, demo_as_of());
    for i in 0..state.facts.len() {
        let origin = &state.facts.value(i).origin;
        let source = p.log.iter().find(|e| e.event.seq == origin.seq).unwrap();
        assert!(source.event.occurred_at <= demo_as_of());
        assert_eq!(source.event.trust, origin.trust);
        assert_eq!(source.event.actor_id, origin.actor_id);
    }
    let mut versions = StrMap::new();
    versions.insert("bms".to_string(), "2".to_string());
    let p = log_of(vec![EventPayload::SoftwareUpdate {
        versions,
        unlocked_features: vec![],
    }]);
    let state = fold(&p, Timestamp::from_secs(100));
    assert_eq!(
        state.get("software.bms").unwrap().value,
        FactValue::Str("2".into())
    );
    assert_eq!(state.last_event_at, Some(Timestamp::from_secs(100)));
}

#[test]
fn any_number_of_later_events_goes_unseen() {
    let now = Timestamp::from_secs(100);
    let one = log_of(vec![EventPayload::EndOfWaste]);
    let many = log_of(vec![
        EventPayload::EndOfWaste,
        EventPayload::Decompose,
        EventPayload::StatusChange {
            to: Status::Named("recalled".into()),
        },
    ]);
    assert_eq!(fold(&many, now), fold(&one, now));
}
