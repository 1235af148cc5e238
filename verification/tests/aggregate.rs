use unidpp_projector::aggregate::{div_exact, AggregationOperation, ChildDocuments};
use unidpp_projector::decimal::Decimal;
use unidpp_projector::fixtures::{demo_as_of, pack_child, pack_children, PACK_CHILD_IDS};
use unidpp_projector::model::Passport;

fn d(s: &str) -> Decimal {
    Decimal::parse(s).unwrap()
}

fn heads(index: usize) -> Vec<String> {
    vec![format!("{index}a").repeat(32), format!("{index}b").repeat(32)]
}

fn child(index: usize) -> Passport {
    pack_child(index, &heads(index))
}

#[test]
fn division_is_exact_or_refused() {
    // Exact quotients.
    assert_eq!(div_exact(&d("289.5"), &d("10")).unwrap().to_text(), "28.95");
    assert_eq!(div_exact(&d("90"), &d("3")).unwrap().to_text(), "30");
    assert_eq!(div_exact(&d("-6"), &d("3")).unwrap().to_text(), "-2");
    assert_eq!(div_exact(&d("1"), &d("8")).unwrap().to_text(), "0.125");
    // 1/3 does not terminate in the decimal domain: refused, never
    // silently rounded.
    assert!(div_exact(&d("1"), &d("3")).is_none());
    assert!(div_exact(&d("96.4"), &d("0")).is_none());
}

#[test]
fn root_hash_is_deterministic_and_order_stable() {
    let children = ChildDocuments::of(vec![child(2), child(0), child(1)]);
    let at = demo_as_of();
    let ids: Vec<String> = (0..children.documents.len())
        .map(|i| children.documents.key(i).clone())
        .collect();
    let first = children.root_parts(&ids, at);
    let second = children.root_parts(&ids, at);
    assert_eq!(first, second);
    // The committed parts are the ids in order, each with its head.
    assert_eq!(
        first,
        vec![
            PACK_CHILD_IDS[0].to_string(),
            heads(0)[1].clone(),
            PACK_CHILD_IDS[1].to_string(),
            heads(1)[1].clone(),
            PACK_CHILD_IDS[2].to_string(),
            heads(2)[1].clone(),
        ]
    );
    // A different set commits differently.
    let truncated: Vec<String> = ids[..2].to_vec();
    assert_ne!(children.root_parts(&truncated, at), first);
    // An unresolvable child commits the set with the marker, and differs
    // from a set where it is resolvable.
    let empty = ChildDocuments::empty();
    let marked = empty.root_parts(&ids, at);
    assert_ne!(marked, first);
    assert_eq!(marked[0], PACK_CHILD_IDS[0]);
    assert_eq!(marked[1], "\u{2205}");
}

#[test]
fn child_documents_key_by_their_own_ids() {
    let children = pack_children(&vec![heads(0), heads(1), heads(2)]);
    let set = ChildDocuments::of(children);
    for id in PACK_CHILD_IDS {
        assert!(set.get(id).is_some(), "{id} resolvable");
    }
    assert!(set.get("urn:unidpp:passport:none-such").is_none());
}

#[test]
fn operations_have_their_wire_names() {
    assert_eq!(AggregationOperation::Sum.text(), "sum");
    assert_eq!(AggregationOperation::WeightedAverage.text(), "weighted-average");
    assert_eq!(AggregationOperation::Count.text(), "count");
}

#[test]
fn quotients_multiply_back() {
    let q = div_exact(&d("7.5"), &d("0.24")).unwrap();
    assert_eq!(q.to_text(), "31.25");
    assert!(q.mul(&d("0.24")).unwrap().equal(&d("7.5")));
    assert_eq!(div_exact(&d("0"), &d("-4")).unwrap().to_text(), "0");
}
