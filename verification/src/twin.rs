//! The twin-state fold: replay a passport's append-only event log as-of an
//! instant into facts, each carrying the origin of the event that last wrote
//! it.
//!
//! The twin state is derived, never stored. The event-to-fact mapping is:
//!
//! | event | effect |
//! |---|---|
//! | `MilestoneRecord` | every counter `k` becomes fact `k` (numeric) |
//! | `Correction` | fact `field` := typed `new_value` (decimal, then bool, then string) |
//! | `SoftwareUpdate` | fact `software.<slot>` := version string |
//! | `CustodyTransfer` | fact `custody.custodian` := `to`; custodian tracked |
//! | `RefurbishRemanufacture` | fact `subject.condition-grade` := grade |
//! | `ProductModify` | fact `subject.type` := derived type (when one spawns) |
//! | `StatusChange`, `Split`, `Decompose`, `EndOfWaste` | status tracked |
//! | `Issuance` (derived), `PartReplace`, `EdgeChange` | active child set tracked |
//!
//! Later events overwrite earlier same-path facts: the last write as-of the
//! instant wins, and its origin travels with the value.
use vstd::prelude::*;
use vstd::string::*;

use crate::decimal::{all_digits, decimal_text, dot_from, is_digit, number_digits, parsed_decimal, text_reads_back, unsigned_part, Decimal};
use crate::model::{status_text, EventPayload, FactValue, Passport, SealedEvent, Status, TrustMarker, TypedEvent};
use crate::strmap::{in_order, in_order_is, one_more_key, StrMap};
use crate::text::{lower_char, lowercase, lowered, same, texts, trim, trimmed};
use crate::time::Timestamp;

verus! {

/// What a fact value says.
pub enum ValueView {
    Str(Seq<char>),
    Num(Decimal),
    Bool(bool),
    List(Seq<Seq<char>>),
}

impl View for FactValue {
    type V = ValueView;

    open spec fn view(&self) -> ValueView {
        match *self {
            FactValue::Str(s) => ValueView::Str(s@),
            FactValue::Num(d) => ValueView::Num(d),
            FactValue::Bool(b) => ValueView::Bool(b),
            FactValue::List(l) => ValueView::List(texts(l@)),
        }
    }
}

/// The type name of a fact value.
pub open spec fn value_type(v: ValueView) -> Seq<char> {
    match v {
        ValueView::Str(_) => "str"@,
        ValueView::Num(_) => "num"@,
        ValueView::Bool(_) => "bool"@,
        ValueView::List(_) => "list"@,
    }
}

impl FactValue {
    /// The type name.
    pub fn kind_name(&self) -> (r: &'static str)
        ensures
            r@ == value_type(self@),
    {
        match self {
            FactValue::Str(_) => "str",
            FactValue::Num(_) => "num",
            FactValue::Bool(_) => "bool",
            FactValue::List(_) => "list",
        }
    }

    /// A copy of the value.
    pub fn copy(&self) -> (r: FactValue)
        ensures
            r@ == self@,
    {
        match self {
            FactValue::Str(s) => FactValue::Str(s.clone()),
            FactValue::Num(d) => FactValue::Num(*d),
            FactValue::Bool(b) => FactValue::Bool(*b),
            FactValue::List(l) => {
                let mut out: Vec<String> = Vec::new();
                let mut i: usize = 0;
                while i < l.len()
                    invariant
                        i <= l.len(),
                        texts(out@) == texts(l@).take(i as int),
                    decreases l.len() - i,
                {
                    let ghost done = out@;
                    out.push(l[i].clone());
                    assert(texts(out@) =~= texts(done).push(l@[i as int]@));
                    i = i + 1;
                }
                assert(texts(l@).take(l.len() as int) =~= texts(l@));
                FactValue::List(out)
            },
        }
    }
}

/// Where a fact came from: the event that last wrote it.
#[derive(Debug, PartialEq)]
pub struct FactOrigin {
    /// Sequence number of the sourcing event.
    pub seq: u64,
    /// When the sourcing event occurred.
    pub occurred_at: Timestamp,
    /// Role the acting party declared.
    pub actor_role: String,
    /// Identifier of the acting party.
    pub actor_id: String,
    /// Trust marker carried by the sourcing event.
    pub trust: TrustMarker,
}

/// What an origin says.
pub struct OriginView {
    pub seq: u64,
    pub occurred_at: Timestamp,
    pub actor_role: Seq<char>,
    pub actor_id: Seq<char>,
    pub trust: TrustMarker,
}

impl View for FactOrigin {
    type V = OriginView;

    open spec fn view(&self) -> OriginView {
        OriginView {
            seq: self.seq,
            occurred_at: self.occurred_at,
            actor_role: self.actor_role@,
            actor_id: self.actor_id@,
            trust: self.trust,
        }
    }
}

/// The origin of a fact that `e` writes.
pub open spec fn origin_of(e: TypedEvent) -> OriginView {
    OriginView {
        seq: e.seq,
        occurred_at: e.occurred_at,
        actor_role: e.actor_role@,
        actor_id: e.actor_id@,
        trust: e.trust,
    }
}

impl FactOrigin {
    /// The origin of a fact that `event` writes.
    pub fn of(event: &TypedEvent) -> (r: FactOrigin)
        ensures
            r@ == origin_of(*event),
    {
        FactOrigin {
            seq: event.seq,
            occurred_at: event.occurred_at,
            actor_role: event.actor_role.clone(),
            actor_id: event.actor_id.clone(),
            trust: event.trust,
        }
    }
}

/// A fact together with its origin.
#[derive(Debug, PartialEq)]
pub struct SourcedFact {
    pub value: FactValue,
    pub origin: FactOrigin,
}

/// What a sourced fact says.
pub struct FactView {
    pub value: ValueView,
    pub origin: OriginView,
}

impl View for SourcedFact {
    type V = FactView;

    open spec fn view(&self) -> FactView {
        FactView { value: self.value@, origin: self.origin@ }
    }
}

/// The twin state at an instant, with per-fact provenance.
#[derive(Debug, PartialEq)]
pub struct TwinState {
    /// Facts keyed by path.
    pub facts: StrMap<SourcedFact>,
    /// Passport status as-of.
    pub status: Status,
    /// Current custodian as-of, when a custody transfer is recorded.
    pub custodian: Option<String>,
    /// The active child passports as-of, in id order.
    pub children: StrMap<()>,
    /// Events counted into this state.
    pub event_count: usize,
    /// When the last counted event occurred.
    pub last_event_at: Option<Timestamp>,
}

/// What a twin state says.
#[verifier::ext_equal]
pub struct TwinView {
    pub facts: Map<Seq<char>, FactView>,
    pub status: Seq<char>,
    pub custodian: Option<Seq<char>>,
    pub children: Set<Seq<char>>,
    pub event_count: nat,
    pub last_event_at: Option<Timestamp>,
}

/// What each fact of a map says.
pub open spec fn facts_view(facts: Map<Seq<char>, SourcedFact>) -> Map<Seq<char>, FactView> {
    facts.map_values(|f: SourcedFact| f@)
}

impl View for TwinState {
    type V = TwinView;

    open spec fn view(&self) -> TwinView {
        TwinView {
            facts: facts_view(self.facts@),
            status: status_text(self.status),
            custodian: match self.custodian {
                Some(c) => Some(c@),
                None => None,
            },
            children: self.children@.dom(),
            event_count: self.event_count as nat,
            last_event_at: self.last_event_at,
        }
    }
}

/// The active children of a state, in id order.
pub open spec fn active_children(s: TwinView) -> Seq<Seq<char>> {
    in_order(s.children)
}

/// A correction's new value: an exact decimal where it reads as one, a truth
/// value for the spellings `true` and `false`, else the text as it stands.
pub open spec fn typed_view(raw: Seq<char>) -> ValueView {
    let t = trimmed(raw);
    match parsed_decimal(t) {
        Some(d) => ValueView::Num(d),
        None => if lowered(t) == "true"@ {
            ValueView::Bool(true)
        } else if lowered(t) == "false"@ {
            ValueView::Bool(false)
        } else {
            ValueView::Str(raw)
        },
    }
}

/// The fact that says `value`, written by `e`.
pub open spec fn fact_by(value: ValueView, e: TypedEvent) -> FactView {
    FactView { value, origin: origin_of(e) }
}

/// The facts that an event writes, by path.
pub open spec fn written_facts(e: TypedEvent) -> Map<Seq<char>, FactView> {
    match e.payload {
        EventPayload::MilestoneRecord { counters } => counters@.map_values(
            |d: Decimal| fact_by(ValueView::Num(d), e),
        ),
        EventPayload::Correction { field, new_value, .. } => map![
            field@ => fact_by(typed_view(new_value@), e),
        ],
        EventPayload::SoftwareUpdate { versions, .. } => Map::new(
            |k: Seq<char>| is_software_slot(k, versions@),
            |k: Seq<char>| fact_by(ValueView::Str(versions@[slot_of(k)]@), e),
        ),
        EventPayload::CustodyTransfer { to, .. } => map![
            "custody.custodian"@ => fact_by(ValueView::Str(to@), e),
        ],
        EventPayload::RefurbishRemanufacture { condition_grade } => map![
            "subject.condition-grade"@ => fact_by(ValueView::Str(condition_grade@), e),
        ],
        EventPayload::ProductModify { derived_type: Some(t) } => map![
            "subject.type"@ => fact_by(ValueView::Str(t@), e),
        ],
        _ => Map::empty(),
    }
}

/// The slot named by a software fact path.
pub open spec fn slot_of(path: Seq<char>) -> Seq<char> {
    path.skip("software."@.len() as int)
}

/// `path` is `software.` followed by a slot of `versions`.
pub open spec fn is_software_slot(path: Seq<char>, versions: Map<Seq<char>, String>) -> bool {
    "software."@.is_prefix_of(path) && versions.contains_key(slot_of(path))
}

/// The status after an event.
pub open spec fn status_after(status: Seq<char>, e: TypedEvent) -> Seq<char> {
    match e.payload {
        EventPayload::StatusChange { to } => status_text(to),
        EventPayload::Split { parent_consumed } => if parent_consumed {
            "transformed"@
        } else {
            status
        },
        EventPayload::Decompose => "transformed"@,
        EventPayload::EndOfWaste => "end-of-waste"@,
        _ => status,
    }
}

/// The active children after an event.
pub open spec fn children_after(children: Set<Seq<char>>, e: TypedEvent) -> Set<Seq<char>> {
    match e.payload {
        EventPayload::Issuance { derived, inputs } => if derived {
            children.union(texts(inputs@).to_set())
        } else {
            children
        },
        EventPayload::PartReplace { removed, added, .. } => children.remove(removed@).insert(
            added@,
        ),
        EventPayload::EdgeChange { attached, detached } => children.difference(
            texts(detached@).to_set(),
        ).union(texts(attached@).to_set()),
        _ => children,
    }
}

/// The state after one more event.
pub open spec fn state_after(s: TwinView, e: TypedEvent) -> TwinView {
    TwinView {
        facts: s.facts.union_prefer_right(written_facts(e)),
        status: status_after(s.status, e),
        custodian: match e.payload {
            EventPayload::CustodyTransfer { to, .. } => Some(to@),
            _ => s.custodian,
        },
        children: children_after(s.children, e),
        event_count: s.event_count + 1,
        last_event_at: Some(e.occurred_at),
    }
}

/// The state before any event.
pub open spec fn initial_state() -> TwinView {
    TwinView {
        facts: Map::empty(),
        status: "issued"@,
        custodian: None,
        children: Set::empty(),
        event_count: 0,
        last_event_at: None,
    }
}

/// The log replayed as-of `at`: every event that occurred at or before the
/// instant, in log order.
pub open spec fn folded(log: Seq<SealedEvent>, at: Timestamp) -> TwinView
    decreases log.len(),
{
    if log.len() == 0 {
        initial_state()
    } else {
        let before = folded(log.drop_last(), at);
        if log.last().event.occurred_at.secs <= at.secs {
            state_after(before, log.last().event)
        } else {
            before
        }
    }
}

impl TwinState {
    /// Look up a fact.
    pub fn get(&self, path: &str) -> (r: Option<&SourcedFact>)
        ensures
            match r {
                Some(f) => self@.facts.contains_key(path@) && f@ == self@.facts[path@],
                None => !self@.facts.contains_key(path@),
            },
    {
        self.facts.get(path)
    }

    /// The bare facts: values only, origins stripped.
    pub fn to_core_facts(&self) -> (r: StrMap<FactValue>)
        ensures
            r@.map_values(|v: FactValue| v@) == self@.facts.map_values(|f: FactView| f.value),
    {
        let mut out: StrMap<FactValue> = StrMap::new();
        let n: usize = self.facts.len();
        let ghost keys = self.facts.keys();
        let mut i: usize = 0;
        while i < n
            invariant
                i <= n == keys.len(),
                keys == self.facts.keys(),
                forall|k: Seq<char>| #[trigger] out@.contains_key(k) <==> keys.take(i as int).contains(k),
                forall|k: Seq<char>| #[trigger] out@.contains_key(k) ==> out@[k]@ == self.facts@[k].value@,
            decreases n - i,
        {
            let ghost k = keys[i as int];
            let ghost prev = out@;
            out.insert(self.facts.key(i).clone(), self.facts.value(i).value.copy());
            proof {
                one_more_key(keys, i as int);
                assert forall|x: Seq<char>| #[trigger] out@.contains_key(x) <==> keys.take(
                    i as int + 1,
                ).contains(x) by {
                    assert(prev.contains_key(x) <==> keys.take(i as int).contains(x));
                }
                assert forall|x: Seq<char>| #[trigger] out@.contains_key(x) implies out@[x]@
                    == self.facts@[x].value@ by {
                    if x != k {
                        assert(prev.contains_key(x));
                    }
                }
            }
            i = i + 1;
        }
        assert(keys.take(n as int) =~= keys);
        assert(out@.map_values(|v: FactValue| v@) =~= self@.facts.map_values(|f: FactView| f.value)) by {
            assert forall|k: Seq<char>| out@.contains_key(k) <==> self@.facts.contains_key(k) by {
                assert(self.facts@.contains_key(k) <==> keys.contains(k));
            }
        }
        out
    }

    /// The active children, in id order.
    pub fn active(&self) -> (r: Vec<String>)
        ensures
            texts(r@) == active_children(self@),
    {
        let n: usize = self.children.len();
        let ghost keys = self.children.keys();
        let mut out: Vec<String> = Vec::new();
        let mut i: usize = 0;
        while i < n
            invariant
                i <= n == keys.len(),
                keys == self.children.keys(),
                texts(out@) == keys.take(i as int),
            decreases n - i,
        {
            let ghost done = out@;
            out.push(self.children.key(i).clone());
            assert(texts(out@) =~= texts(done).push(keys[i as int]));
            assert(keys.take(i as int + 1) =~= keys.take(i as int).push(keys[i as int]));
            i = i + 1;
        }
        assert(keys.take(n as int) =~= keys);
        proof {
            assert forall|k: Seq<char>| #[trigger] keys.contains(k) <==> self@.children.contains(k) by {
                assert(self.children@.contains_key(k) <==> keys.contains(k));
            }
            in_order_is(self@.children, keys);
        }
        out
    }

    /// Write a fact.
    fn write(&mut self, path: String, value: FactValue, event: &TypedEvent)
        ensures
            final(self)@ == (TwinView {
                facts: old(self)@.facts.insert(path@, fact_by(value@, *event)),
                ..old(self)@
            }),
    {
        let ghost before = self.facts@;
        let fact: SourcedFact = SourcedFact { value, origin: FactOrigin::of(event) };
        let ghost said = fact;
        let ghost p = path@;
        self.facts.insert(path, fact);
        assert(facts_view(before.insert(p, said)) =~= facts_view(before).insert(p, said@));
    }
}

/// Type a correction's new value.
pub fn typed_value(raw: &str) -> (r: FactValue)
    ensures
        r@ == typed_view(raw@),
{
    let trimmed_raw: String = trim(raw);
    match Decimal::parse(trimmed_raw.as_str()) {
        Ok(d) => FactValue::Num(d),
        Err(_) => {
            let low: String = lowercase(trimmed_raw.as_str());
            if same(low.as_str(), "true") {
                FactValue::Bool(true)
            } else if same(low.as_str(), "false") {
                FactValue::Bool(false)
            } else {
                FactValue::Str(raw.to_string())
            }
        },
    }
}

/// The facts for the first keys of the counters.
spec fn counter_facts(counters: Map<Seq<char>, Decimal>, keys: Seq<Seq<char>>, e: TypedEvent) -> Map<
    Seq<char>,
    FactView,
> {
    Map::new(
        |k: Seq<char>| keys.contains(k),
        |k: Seq<char>| fact_by(ValueView::Num(counters[k]), e),
    )
}

/// The facts for the first slots of the versions.
spec fn version_facts(versions: Map<Seq<char>, String>, keys: Seq<Seq<char>>, e: TypedEvent) -> Map<
    Seq<char>,
    FactView,
> {
    Map::new(
        |p: Seq<char>| "software."@.is_prefix_of(p) && keys.contains(slot_of(p)),
        |p: Seq<char>| fact_by(ValueView::Str(versions[slot_of(p)]@), e),
    )
}

/// A slot's path leads back to the slot, and no other path does.
proof fn slot_paths(slot: Seq<char>)
    ensures
        slot_of("software."@ + slot) == slot,
        "software."@.is_prefix_of("software."@ + slot),
        forall|p: Seq<char>|
            "software."@.is_prefix_of(p) && #[trigger] slot_of(p) == slot ==> p == "software."@ + slot,
{
    let pre = "software."@;
    assert((pre + slot).skip(pre.len() as int) =~= slot);
    assert forall|p: Seq<char>| pre.is_prefix_of(p) && #[trigger] slot_of(p) == slot implies p == pre
        + slot by {
        assert(p =~= p.take(pre.len() as int) + p.skip(pre.len() as int));
    }
}

impl TwinState {
    fn write_counters(&mut self, counters: &StrMap<Decimal>, event: &TypedEvent)
        ensures
            final(self)@ == (TwinView {
                facts: old(self)@.facts.union_prefer_right(
                    counters@.map_values(|d: Decimal| fact_by(ValueView::Num(d), *event)),
                ),
                ..old(self)@
            }),
    {
        let ghost start = self@;
        let n: usize = counters.len();
        let ghost keys = counters.keys();
        let mut i: usize = 0;
        assert(start.facts.union_prefer_right(counter_facts(counters@, keys.take(0), *event))
            =~= start.facts);
        while i < n
            invariant
                i <= n == keys.len(),
                keys == counters.keys(),
                self@ == (TwinView {
                    facts: start.facts.union_prefer_right(
                        counter_facts(counters@, keys.take(i as int), *event),
                    ),
                    ..start
                }),
            decreases n - i,
        {
            let ghost k = keys[i as int];
            self.write(counters.key(i).clone(), FactValue::Num(*counters.value(i)), event);
            proof {
                one_more_key(keys, i as int);
                assert(start.facts.union_prefer_right(
                    counter_facts(counters@, keys.take(i as int), *event),
                ).insert(k, fact_by(ValueView::Num(counters@[k]), *event))
                    =~= start.facts.union_prefer_right(
                    counter_facts(counters@, keys.take(i as int + 1), *event),
                ));
            }
            i = i + 1;
        }
        proof {
            assert(keys.take(n as int) =~= keys);
            assert(counter_facts(counters@, keys, *event) =~= counters@.map_values(
                |d: Decimal| fact_by(ValueView::Num(d), *event),
            )) by {
                assert forall|k: Seq<char>| keys.contains(k) <==> counters@.contains_key(k) by {
                    assert(counters@.contains_key(k) <==> keys.contains(k));
                }
            }
        }
    }

    fn write_versions(&mut self, versions: &StrMap<String>, event: &TypedEvent)
        ensures
            final(self)@ == (TwinView {
                facts: old(self)@.facts.union_prefer_right(
                    Map::new(
                        |k: Seq<char>| is_software_slot(k, versions@),
                        |k: Seq<char>| fact_by(ValueView::Str(versions@[slot_of(k)]@), *event),
                    ),
                ),
                ..old(self)@
            }),
    {
        let ghost start = self@;
        let n: usize = versions.len();
        let ghost keys = versions.keys();
        let mut i: usize = 0;
        assert(start.facts.union_prefer_right(version_facts(versions@, keys.take(0), *event))
            =~= start.facts);
        while i < n
            invariant
                i <= n == keys.len(),
                keys == versions.keys(),
                self@ == (TwinView {
                    facts: start.facts.union_prefer_right(
                        version_facts(versions@, keys.take(i as int), *event),
                    ),
                    ..start
                }),
            decreases n - i,
        {
            let ghost k = keys[i as int];
            let mut path: String = "software.".to_string();
            path.append(versions.key(i).as_str());
            let ghost p = path@;
            self.write(path, FactValue::Str(versions.value(i).clone()), event);
            proof {
                one_more_key(keys, i as int);
                slot_paths(k);
                assert(start.facts.union_prefer_right(
                    version_facts(versions@, keys.take(i as int), *event),
                ).insert(p, fact_by(ValueView::Str(versions@[k]@), *event))
                    =~= start.facts.union_prefer_right(
                    version_facts(versions@, keys.take(i as int + 1), *event),
                ));
            }
            i = i + 1;
        }
        proof {
            assert(keys.take(n as int) =~= keys);
            assert(version_facts(versions@, keys, *event) =~= Map::new(
                |k: Seq<char>| is_software_slot(k, versions@),
                |k: Seq<char>| fact_by(ValueView::Str(versions@[slot_of(k)]@), *event),
            )) by {
                assert forall|k: Seq<char>| keys.contains(k) <==> versions@.contains_key(k) by {
                    assert(versions@.contains_key(k) <==> keys.contains(k));
                }
            }
        }
    }

    fn attach(&mut self, ids: &Vec<String>)
        ensures
            final(self)@ == (TwinView {
                children: old(self)@.children.union(texts(ids@).to_set()),
                ..old(self)@
            }),
    {
        let ghost start = self@;
        let ghost all = texts(ids@);
        let mut i: usize = 0;
        assert(start.children.union(all.take(0).to_set()) =~= start.children);
        while i < ids.len()
            invariant
                i <= ids.len(),
                all == texts(ids@),
                self@ == (TwinView {
                    children: start.children.union(all.take(i as int).to_set()),
                    ..start
                }),
            decreases ids.len() - i,
        {
            self.children.insert(ids[i].clone(), ());
            proof {
                one_more_key(all, i as int);
                assert(start.children.union(all.take(i as int).to_set()).insert(all[i as int])
                    =~= start.children.union(all.take(i as int + 1).to_set()));
            }
            i = i + 1;
        }
        assert(all.take(all.len() as int) =~= all);
    }

    fn detach(&mut self, ids: &Vec<String>)
        ensures
            final(self)@ == (TwinView {
                children: old(self)@.children.difference(texts(ids@).to_set()),
                ..old(self)@
            }),
    {
        let ghost start = self@;
        let ghost all = texts(ids@);
        let mut i: usize = 0;
        assert(start.children.difference(all.take(0).to_set()) =~= start.children);
        while i < ids.len()
            invariant
                i <= ids.len(),
                all == texts(ids@),
                self@ == (TwinView {
                    children: start.children.difference(all.take(i as int).to_set()),
                    ..start
                }),
            decreases ids.len() - i,
        {
            self.children.remove(ids[i].as_str());
            proof {
                one_more_key(all, i as int);
                assert(start.children.difference(all.take(i as int).to_set()).remove(all[i as int])
                    =~= start.children.difference(all.take(i as int + 1).to_set()));
            }
            i = i + 1;
        }
        assert(all.take(all.len() as int) =~= all);
    }

    /// Fold one more event into the state.
    fn apply(&mut self, event: &TypedEvent)
        requires
            old(self).event_count < usize::MAX,
        ensures
            final(self)@ == state_after(old(self)@, *event),
            final(self).event_count == old(self).event_count + 1,
    {
        let ghost start = self@;
        let ghost facts = start.facts;
        assert(facts.union_prefer_right(Map::empty()) =~= facts);
        match &event.payload {
            EventPayload::Issuance { derived, inputs } => {
                if *derived {
                    self.attach(inputs);
                }
            },
            EventPayload::MilestoneRecord { counters } => {
                self.write_counters(counters, event);
            },
            EventPayload::Correction { field, new_value, .. } => {
                self.write(field.clone(), typed_value(new_value.as_str()), event);
                assert(self@.facts =~= facts.union_prefer_right(written_facts(*event)));
            },
            EventPayload::SoftwareUpdate { versions, .. } => {
                self.write_versions(versions, event);
            },
            EventPayload::CustodyTransfer { to, .. } => {
                self.write("custody.custodian".to_string(), FactValue::Str(to.clone()), event);
                self.custodian = Some(to.clone());
                assert(self@.facts =~= facts.union_prefer_right(written_facts(*event)));
            },
            EventPayload::RefurbishRemanufacture { condition_grade } => {
                self.write(
                    "subject.condition-grade".to_string(),
                    FactValue::Str(condition_grade.clone()),
                    event,
                );
                assert(self@.facts =~= facts.union_prefer_right(written_facts(*event)));
            },
            EventPayload::ProductModify { derived_type } => {
                match derived_type {
                    Some(t) => {
                        self.write("subject.type".to_string(), FactValue::Str(t.clone()), event);
                        assert(self@.facts =~= facts.union_prefer_right(written_facts(*event)));
                    },
                    None => {},
                }
            },
            EventPayload::StatusChange { to } => {
                self.status = to.copy();
            },
            EventPayload::Split { parent_consumed } => {
                if *parent_consumed {
                    self.status = Status::Transformed;
                }
            },
            EventPayload::Decompose => {
                self.status = Status::Transformed;
            },
            EventPayload::EndOfWaste => {
                self.status = Status::EndOfWaste;
            },
            EventPayload::PartReplace { removed, added, .. } => {
                self.children.remove(removed.as_str());
                self.children.insert(added.clone(), ());
                assert(self@.children =~= start.children.remove(removed@).insert(added@));
            },
            EventPayload::EdgeChange { attached, detached } => {
                self.detach(detached);
                self.attach(attached);
            },
            EventPayload::Other => {},
        }
        self.event_count = self.event_count + 1;
        self.last_event_at = Some(event.occurred_at);
        assert(self@ =~= state_after(start, *event));
    }
}

/// Replay the passport's log up to `at` (inclusive: events that occurred at
/// or before `at`) into the twin state.
pub fn fold(passport: &Passport, at: Timestamp) -> (r: TwinState)
    ensures
        r@ == folded(passport.log@, at),
{
    let mut state: TwinState = TwinState {
        facts: StrMap::new(),
        status: Status::Issued,
        custodian: None,
        children: StrMap::new(),
        event_count: 0,
        last_event_at: None,
    };
    let ghost log = passport.log@;
    let mut i: usize = 0;
    assert(state@ =~= initial_state());
    while i < passport.log.len()
        invariant
            i <= passport.log.len(),
            log == passport.log@,
            state@ == folded(log.take(i as int), at),
            state.event_count <= i,
        decreases passport.log.len() - i,
    {
        assert(log.take(i as int + 1).drop_last() =~= log.take(i as int));
        if passport.log[i].event.occurred_at.at_or_before(&at) {
            state.apply(&passport.log[i].event);
        }
        i = i + 1;
    }
    assert(log.take(log.len() as int) =~= log);
    state
}

/// Entry `i` of the log is counted as-of `at` and writes fact `path`.
pub open spec fn writes(log: Seq<SealedEvent>, i: int, at: Timestamp, path: Seq<char>) -> bool {
    0 <= i < log.len() && log[i].event.occurred_at.secs <= at.secs && written_facts(
        log[i].event,
    ).contains_key(path)
}

/// The last write as-of the instant wins: where entry `i` writes a fact and
/// no later counted entry does, the folded state holds what entry `i` wrote,
/// value and origin.
pub proof fn last_write_wins(log: Seq<SealedEvent>, at: Timestamp, i: int, path: Seq<char>)
    requires
        writes(log, i, at, path),
        forall|j: int| i < j < log.len() ==> !writes(log, j, at, path),
    ensures
        folded(log, at).facts.contains_key(path),
        folded(log, at).facts[path] == written_facts(log[i].event)[path],
    decreases log.len(),
{
    let rest = log.drop_last();
    if i < log.len() - 1 {
        assert(!writes(log, log.len() - 1, at, path));
        assert forall|j: int| i < j < rest.len() implies !writes(rest, j, at, path) by {
            assert(!writes(log, j, at, path));
        }
        last_write_wins(rest, at, i, path);
    }
}

/// No fact without an origin: every fact of the folded state was written,
/// value and origin, by a log entry that occurred at or before the instant.
pub proof fn every_fact_has_its_event(log: Seq<SealedEvent>, at: Timestamp, path: Seq<char>)
    requires
        folded(log, at).facts.contains_key(path),
    ensures
        exists|i: int|
            #[trigger] writes(log, i, at, path) && folded(log, at).facts[path] == written_facts(
                log[i].event,
            )[path],
    decreases log.len(),
{
    if log.len() > 0 {
        let last = log.len() - 1;
        let rest = log.drop_last();
        if writes(log, last, at, path) {
        } else {
            every_fact_has_its_event(rest, at, path);
            let i = choose|i: int|
                #[trigger] writes(rest, i, at, path) && folded(rest, at).facts[path]
                    == written_facts(rest[i].event)[path];
            assert(writes(log, i, at, path));
        }
    }
}

/// The origin of a written fact is the event that wrote it.
pub proof fn written_facts_carry_their_origin(e: TypedEvent, path: Seq<char>)
    requires
        written_facts(e).contains_key(path),
    ensures
        written_facts(e)[path].origin == origin_of(e),
{
}

/// Events after the instant, however many, change nothing.
pub proof fn later_events_are_not_seen(
    log: Seq<SealedEvent>,
    more: Seq<SealedEvent>,
    at: Timestamp,
)
    requires
        forall|i: int|
            0 <= i < more.len() ==> (#[trigger] more[i]).event.occurred_at.secs > at.secs,
    ensures
        folded(log + more, at) == folded(log, at),
    decreases more.len(),
{
    if more.len() > 0 {
        later_events_are_not_seen(log, more.drop_last(), at);
        assert((log + more).drop_last() =~= log + more.drop_last());
    } else {
        assert(log + more =~= log);
    }
}

/// The fold as-of an instant reads only the entries that occurred by then:
/// where all later ones are left out, the state is the same.
pub proof fn fold_reads_the_past_only(log: Seq<SealedEvent>, at: Timestamp)
    ensures
        folded(log, at) == folded(
            log.filter(|s: SealedEvent| s.event.occurred_at.secs <= at.secs),
            at,
        ),
        folded(log, at).event_count == log.filter(
            |s: SealedEvent| s.event.occurred_at.secs <= at.secs,
        ).len(),
    decreases log.len(),
{
    reveal(Seq::filter);
    let counted = |s: SealedEvent| s.event.occurred_at.secs <= at.secs;
    if log.len() > 0 {
        fold_reads_the_past_only(log.drop_last(), at);
        let rest = log.drop_last().filter(counted);
        if counted(log.last()) {
            assert(log.filter(counted) =~= rest.push(log.last()));
            assert(rest.push(log.last()).drop_last() =~= rest);
        } else {
            assert(log.filter(counted) =~= rest);
        }
    } else {
        assert(log.filter(counted) =~= Seq::<SealedEvent>::empty());
    }
}

/// `f` says `value`, and names `e` as the event that wrote it.
pub open spec fn stated_by(f: FactView, value: ValueView, e: TypedEvent) -> bool {
    &&& f.value == value
    &&& f.origin.seq == e.seq
    &&& f.origin.occurred_at == e.occurred_at
    &&& f.origin.actor_role == e.actor_role@
    &&& f.origin.actor_id == e.actor_id@
    &&& f.origin.trust == e.trust
}

/// The state has the fact `path`, saying `value`, from the event `e`.
pub open spec fn holds_fact(s: TwinView, path: Seq<char>, value: ValueView, e: TypedEvent) -> bool {
    s.facts.contains_key(path) && stated_by(s.facts[path], value, e)
}

/// The event names the path: a milestone its counters, a correction its
/// field, an update its slots behind `software.`, and so on.
pub open spec fn names_path(e: TypedEvent, path: Seq<char>) -> bool {
    match e.payload {
        EventPayload::MilestoneRecord { counters } => counters@.contains_key(path),
        EventPayload::Correction { field, .. } => field@ == path,
        EventPayload::SoftwareUpdate { versions, .. } => exists|slot: Seq<char>|
            #[trigger] versions@.contains_key(slot) && path == "software."@ + slot,
        EventPayload::CustodyTransfer { .. } => path == "custody.custodian"@,
        EventPayload::RefurbishRemanufacture { .. } => path == "subject.condition-grade"@,
        EventPayload::ProductModify { derived_type } => derived_type is Some && path
            == "subject.type"@,
        _ => false,
    }
}

/// The row of each event: where the last entry is counted, the state says
/// what that event states, under the path of its kind, with the event as the
/// origin.
pub proof fn the_last_event_is_stated(log: Seq<SealedEvent>, at: Timestamp)
    requires
        log.len() > 0,
        log.last().event.occurred_at.secs <= at.secs,
    ensures
        ({
            let s = folded(log, at);
            let e = log.last().event;
            match e.payload {
                EventPayload::MilestoneRecord { counters } => forall|k: Seq<char>| #[trigger]
                    counters@.contains_key(k) ==> holds_fact(s, k, ValueView::Num(counters@[k]), e),
                EventPayload::SoftwareUpdate { versions, .. } => forall|k: Seq<char>| #[trigger]
                    versions@.contains_key(k) ==> holds_fact(
                        s,
                        "software."@ + k,
                        ValueView::Str(versions@[k]@),
                        e,
                    ),
                EventPayload::CustodyTransfer { to, .. } => holds_fact(
                    s,
                    "custody.custodian"@,
                    ValueView::Str(to@),
                    e,
                ),
                EventPayload::RefurbishRemanufacture { condition_grade } => holds_fact(
                    s,
                    "subject.condition-grade"@,
                    ValueView::Str(condition_grade@),
                    e,
                ),
                EventPayload::ProductModify { derived_type: Some(t) } => holds_fact(
                    s,
                    "subject.type"@,
                    ValueView::Str(t@),
                    e,
                ),
                _ => true,
            }
        }),
{
    let e = log.last().event;
    match e.payload {
        EventPayload::SoftwareUpdate { versions, .. } => {
            assert forall|k: Seq<char>| #[trigger] versions@.contains_key(k) implies holds_fact(
                folded(log, at),
                "software."@ + k,
                ValueView::Str(versions@[k]@),
                e,
            ) by {
                slot_paths(k);
                assert(is_software_slot("software."@ + k, versions@));
            }
        },
        _ => {},
    }
}

/// A correction states its new value under its field: the number that the
/// text writes, whatever white space stands around it; a truth value for
/// `true` and `false` in any case; every other text as it stands.
pub proof fn the_last_correction_is_stated(log: Seq<SealedEvent>, at: Timestamp)
    requires
        log.len() > 0,
        log.last().event.occurred_at.secs <= at.secs,
        log.last().event.payload is Correction,
    ensures
        ({
            let s = folded(log, at);
            let e = log.last().event;
            let field = e.payload->Correction_field@;
            let raw = e.payload->Correction_new_value@;
            &&& forall|d: Decimal|
                #[trigger] d.valid() && trimmed(raw) == decimal_text(d) ==> holds_fact(
                    s,
                    field,
                    ValueView::Num(d),
                    e,
                )
            &&& forall|d: Decimal|
                #[trigger] parsed_decimal(trimmed(raw)) == Some(d) ==> holds_fact(
                    s,
                    field,
                    ValueView::Num(d),
                    e,
                )
            &&& lowered(trimmed(raw)) == "true"@ ==> holds_fact(s, field, ValueView::Bool(true), e)
            &&& lowered(trimmed(raw)) == "false"@ ==> holds_fact(
                s,
                field,
                ValueView::Bool(false),
                e,
            )
            &&& parsed_decimal(trimmed(raw)) is None && lowered(trimmed(raw)) != "true"@ && lowered(
                trimmed(raw),
            ) != "false"@ ==> holds_fact(s, field, ValueView::Str(raw), e)
        }),
{
    let e = log.last().event;
    let raw = e.payload->Correction_new_value@;
    let t = trimmed(raw);
    assert(folded(log, at).facts[e.payload->Correction_field@] == fact_by(typed_view(raw), e));
    assert forall|d: Decimal| #[trigger] d.valid() && t == decimal_text(d) implies typed_view(raw)
        == ValueView::Num(d) by {
        text_reads_back(d);
    }
    reveal_strlit("true");
    reveal_strlit("false");
    assert(lowered(t) == "true"@ || lowered(t) == "false"@ ==> parsed_decimal(t) is None) by {
        if lowered(t) == "true"@ || lowered(t) == "false"@ {
            assert("true"@.len() == 4 && "true"@[0] == 't');
            assert("false"@.len() == 5 && "false"@[0] == 'f');
            assert(lowered(t).len() == t.len());
            assert(lowered(t)[0] == lower_char(t[0]));
            assert(t[0] != '-' && t[0] != '.' && !is_digit(t[0]));
            let body = unsigned_part(t);
            assert(body =~= t);
            if dot_from(body, 0) != 0 {
                assert(dot_from(body, 0) == dot_from(body, 1));
                dot_from_grows(body, 1);
                assert(number_digits(body)[0] == t[0]);
                assert(!all_digits(number_digits(body)));
            }
        }
    }
    assert("true"@.len() != "false"@.len());
}

proof fn dot_from_grows(s: Seq<char>, i: int)
    requires
        0 <= i <= s.len(),
    ensures
        i <= dot_from(s, i) <= s.len(),
    decreases s.len() - i,
{
    if i < s.len() && s[i] != '.' {
        dot_from_grows(s, i + 1);
    }
}

/// No event touches a fact whose path it does not name: the fact is there
/// after it exactly where it was before, the same.
pub proof fn events_leave_other_facts(log: Seq<SealedEvent>, at: Timestamp, path: Seq<char>)
    requires
        log.len() > 0,
        log.last().event.occurred_at.secs <= at.secs ==> !names_path(log.last().event, path),
    ensures
        folded(log, at).facts.contains_key(path) <==> folded(
            log.drop_last(),
            at,
        ).facts.contains_key(path),
        folded(log, at).facts.contains_key(path) ==> folded(log, at).facts[path] == folded(
            log.drop_last(),
            at,
        ).facts[path],
{
    let e = log.last().event;
    match e.payload {
        EventPayload::SoftwareUpdate { versions, .. } => {
            if is_software_slot(path, versions@) && e.occurred_at.secs <= at.secs {
                slot_paths(slot_of(path));
                assert(versions@.contains_key(slot_of(path)) && path == "software."@ + slot_of(path));
            }
        },
        _ => {},
    }
}

/// A fact stands until an event names its path again: where no counted entry
/// behind the first `n` names it, the state says of it what it said after
/// them.
pub proof fn facts_stand_until_named(
    log: Seq<SealedEvent>,
    at: Timestamp,
    n: int,
    path: Seq<char>,
)
    requires
        0 <= n <= log.len(),
        forall|j: int|
            n <= j < log.len() && (#[trigger] log[j]).event.occurred_at.secs <= at.secs
                ==> !names_path(log[j].event, path),
    ensures
        folded(log, at).facts.contains_key(path) <==> folded(log.take(n), at).facts.contains_key(
            path,
        ),
        folded(log, at).facts.contains_key(path) ==> folded(log, at).facts[path] == folded(
            log.take(n),
            at,
        ).facts[path],
    decreases log.len(),
{
    if n < log.len() {
        let rest = log.drop_last();
        assert forall|j: int|
            n <= j < rest.len() && (#[trigger] rest[j]).event.occurred_at.secs
                <= at.secs implies !names_path(rest[j].event, path) by {
            assert(rest[j] == log[j]);
        }
        facts_stand_until_named(rest, at, n, path);
        assert(rest.take(n) =~= log.take(n));
        assert(log.last() == log[log.len() - 1]);
        events_leave_other_facts(log, at, path);
    } else {
        assert(log.take(n) =~= log);
    }
}

/// A counted milestone's measurement stands as-of the instant, number and
/// origin, where no later counted entry names its path.
pub proof fn the_last_measurement_stands(
    log: Seq<SealedEvent>,
    at: Timestamp,
    i: int,
    path: Seq<char>,
)
    requires
        0 <= i < log.len(),
        log[i].event.occurred_at.secs <= at.secs,
        log[i].event.payload is MilestoneRecord,
        log[i].event.payload->counters@.contains_key(path),
        forall|j: int|
            i < j < log.len() && (#[trigger] log[j]).event.occurred_at.secs <= at.secs
                ==> !names_path(log[j].event, path),
    ensures
        holds_fact(
            folded(log, at),
            path,
            ValueView::Num(log[i].event.payload->counters@[path]),
            log[i].event,
        ),
{
    facts_stand_until_named(log, at, i + 1, path);
    assert(log.take(i + 1).last() == log[i]);
    the_last_event_is_stated(log.take(i + 1), at);
}

/// Before any event nothing is stated: the passport is issued, has no
/// custodian and no children, and nothing has been counted.
pub proof fn an_empty_log_states_nothing(at: Timestamp)
    ensures
        ({
            let s = folded(Seq::empty(), at);
            &&& forall|path: Seq<char>| !#[trigger] s.facts.contains_key(path)
            &&& forall|id: Seq<char>| !#[trigger] s.children.contains(id)
            &&& s.status == "issued"@
            &&& s.custodian is None
            &&& s.event_count == 0
            &&& s.last_event_at is None
        }),
{
}

/// What an event does beside its facts: the status moves with a status
/// change, a consuming split, a decomposition and the end of waste, and with
/// nothing else; the custodian moves with a custody transfer alone; every
/// counted event is counted once, and its time is the last one.
pub proof fn status_and_custodian_follow_their_events(log: Seq<SealedEvent>, at: Timestamp)
    requires
        log.len() > 0,
        log.last().event.occurred_at.secs <= at.secs,
    ensures
        ({
            let s = folded(log, at);
            let before = folded(log.drop_last(), at);
            let e = log.last().event;
            &&& s.status == (match e.payload {
                EventPayload::StatusChange { to: Status::Issued } => "issued"@,
                EventPayload::StatusChange { to: Status::Transformed } => "transformed"@,
                EventPayload::StatusChange { to: Status::EndOfWaste } => "end-of-waste"@,
                EventPayload::StatusChange { to: Status::Named(name) } => name@,
                EventPayload::Split { parent_consumed: true } => "transformed"@,
                EventPayload::Decompose => "transformed"@,
                EventPayload::EndOfWaste => "end-of-waste"@,
                _ => before.status,
            })
            &&& e.payload is CustodyTransfer ==> s.custodian == Some(e.payload->CustodyTransfer_to@)
            &&& !(e.payload is CustodyTransfer) ==> s.custodian == before.custodian
            &&& s.event_count == before.event_count + 1
            &&& s.last_event_at == Some(e.occurred_at)
        }),
{
}

/// How the active children move: a derived issuance and an edge change attach
/// what they name, an edge change detaches what it names and does not attach
/// again, a replacement takes one out and puts one in; all others stay, and
/// no other event moves any.
pub proof fn children_follow_their_events(log: Seq<SealedEvent>, at: Timestamp, id: Seq<char>)
    requires
        log.len() > 0,
        log.last().event.occurred_at.secs <= at.secs,
    ensures
        ({
            let now = folded(log, at).children.contains(id);
            let was = folded(log.drop_last(), at).children.contains(id);
            match log.last().event.payload {
                EventPayload::Issuance { derived, inputs } => now <==> was || (derived && exists|
                    i: int,
                |
                    0 <= i < inputs@.len() && (#[trigger] inputs@[i])@ == id),
                EventPayload::PartReplace { removed, added, .. } => now <==> added@ == id || (was
                    && removed@ != id),
                EventPayload::EdgeChange { attached, detached } => now <==> (exists|i: int|
                    0 <= i < attached@.len() && (#[trigger] attached@[i])@ == id) || (was && !(exists|
                    i: int,
                |
                    0 <= i < detached@.len() && (#[trigger] detached@[i])@ == id)),
                _ => now <==> was,
            }
        }),
{
    match log.last().event.payload {
        EventPayload::Issuance { derived, inputs } => texts_hold(inputs@, id),
        EventPayload::EdgeChange { attached, detached } => {
            texts_hold(attached@, id);
            texts_hold(detached@, id);
        },
        _ => {},
    }
}

proof fn texts_hold(parts: Seq<String>, id: Seq<char>)
    ensures
        texts(parts).to_set().contains(id) <==> exists|i: int|
            0 <= i < parts.len() && (#[trigger] parts[i])@ == id,
{
    if texts(parts).contains(id) {
        let i = choose|i: int| 0 <= i < texts(parts).len() && texts(parts)[i] == id;
        assert(parts[i]@ == id);
    }
    if exists|i: int| 0 <= i < parts.len() && (#[trigger] parts[i])@ == id {
        let i = choose|i: int| 0 <= i < parts.len() && (#[trigger] parts[i])@ == id;
        assert(texts(parts)[i] == id);
    }
}

/// An entry that occurred after the instant changes nothing, wherever it
/// stands in the log.
pub proof fn later_entries_change_nothing(log: Seq<SealedEvent>, at: Timestamp)
    requires
        log.len() > 0,
        log.last().event.occurred_at.secs > at.secs,
    ensures
        folded(log, at) == folded(log.drop_last(), at),
{
}

/// The names of the kinds of values, as documents show them.
pub proof fn kinds_have_their_names(v: ValueView)
    ensures
        value_type(v) == (if v is Str {
            "str"@
        } else if v is Num {
            "num"@
        } else if v is Bool {
            "bool"@
        } else {
            "list"@
        }),
{
}

} // verus!
