//! The passport, its event log, and the profile: the values that a
//! projection reads.
use vstd::prelude::*;
use vstd::string::*;

use crate::decimal::Decimal;
use crate::strmap::StrMap;
use crate::time::Timestamp;

verus! {

/// How far the statement of an event can be trusted, from weakest to
/// strongest.
#[derive(Clone, Copy, Debug, PartialEq, Eq, Structural)]
pub enum TrustMarker {
    Unsigned,
    SelfDeclared,
    Attested,
    MultiSigned,
}

/// The rung of a trust marker on the ladder.
pub open spec fn trust_grade(t: TrustMarker) -> int {
    match t {
        TrustMarker::Unsigned => 0,
        TrustMarker::SelfDeclared => 1,
        TrustMarker::Attested => 2,
        TrustMarker::MultiSigned => 3,
    }
}

/// The wire name of a trust marker.
pub open spec fn trust_text(t: TrustMarker) -> Seq<char> {
    match t {
        TrustMarker::Unsigned => "unsigned"@,
        TrustMarker::SelfDeclared => "self-declared"@,
        TrustMarker::Attested => "attested"@,
        TrustMarker::MultiSigned => "multi-signed"@,
    }
}

impl TrustMarker {
    /// The rung on the ladder.
    pub fn grade(&self) -> (r: u8)
        ensures
            r == trust_grade(*self),
    {
        match self {
            TrustMarker::Unsigned => 0,
            TrustMarker::SelfDeclared => 1,
            TrustMarker::Attested => 2,
            TrustMarker::MultiSigned => 3,
        }
    }

    /// Whether the marker is at least as strong as `floor`.
    pub fn meets(&self, floor: TrustMarker) -> (r: bool)
        ensures
            r == (trust_grade(*self) >= trust_grade(floor)),
    {
        self.grade() >= floor.grade()
    }

    /// The wire name.
    pub fn text(&self) -> (r: &'static str)
        ensures
            r@ == trust_text(*self),
    {
        match self {
            TrustMarker::Unsigned => "unsigned",
            TrustMarker::SelfDeclared => "self-declared",
            TrustMarker::Attested => "attested",
            TrustMarker::MultiSigned => "multi-signed",
        }
    }
}

/// What a physical subject is able to attest by itself: a silent object (S0),
/// one that authenticates passively (S1), a connected one (S3), or any other
/// class of the ladder.
#[derive(Debug, PartialEq, Eq)]
#[allow(inconsistent_fields)]
pub enum CapabilityClass {
    Silent,
    PassiveAuth,
    Connected,
    /// Any other class, by its rank on the ladder and its wire name.
    Graded { rank: u8, name: String },
}

/// The rank of a capability class on the S0 to S3 ladder.
pub open spec fn capability_rank(c: CapabilityClass) -> int {
    match c {
        CapabilityClass::Silent => 0,
        CapabilityClass::PassiveAuth => 1,
        CapabilityClass::Connected => 3,
        CapabilityClass::Graded { rank, .. } => rank as int,
    }
}

/// The wire name of a capability class.
pub open spec fn capability_text(c: CapabilityClass) -> Seq<char> {
    match c {
        CapabilityClass::Silent => "silent"@,
        CapabilityClass::PassiveAuth => "passive-auth"@,
        CapabilityClass::Connected => "connected"@,
        CapabilityClass::Graded { name, .. } => name@,
    }
}

impl CapabilityClass {
    /// The rank.
    pub fn rank(&self) -> (r: u8)
        ensures
            r == capability_rank(*self),
    {
        match self {
            CapabilityClass::Silent => 0,
            CapabilityClass::PassiveAuth => 1,
            CapabilityClass::Connected => 3,
            CapabilityClass::Graded { rank, .. } => *rank,
        }
    }

    /// The wire name.
    pub fn text(&self) -> (r: &str)
        ensures
            r@ == capability_text(*self),
    {
        match self {
            CapabilityClass::Silent => "silent",
            CapabilityClass::PassiveAuth => "passive-auth",
            CapabilityClass::Connected => "connected",
            CapabilityClass::Graded { name, .. } => name.as_str(),
        }
    }

    /// A copy of the class.
    pub fn copy(&self) -> (r: CapabilityClass)
        ensures
            r == *self,
    {
        match self {
            CapabilityClass::Silent => CapabilityClass::Silent,
            CapabilityClass::PassiveAuth => CapabilityClass::PassiveAuth,
            CapabilityClass::Connected => CapabilityClass::Connected,
            CapabilityClass::Graded { rank, name } => CapabilityClass::Graded {
                rank: *rank,
                name: name.clone(),
            },
        }
    }
}

/// The passport status.
#[derive(Debug, PartialEq, Eq)]
pub enum Status {
    Issued,
    Transformed,
    EndOfWaste,
    /// Any other status of the status machine, by its wire name.
    Named(String),
}

/// The wire name of a status.
pub open spec fn status_text(s: Status) -> Seq<char> {
    match s {
        Status::Issued => "issued"@,
        Status::Transformed => "transformed"@,
        Status::EndOfWaste => "end-of-waste"@,
        Status::Named(name) => name@,
    }
}

impl Status {
    /// The wire name.
    pub fn text(&self) -> (r: &str)
        ensures
            r@ == status_text(*self),
    {
        match self {
            Status::Issued => "issued",
            Status::Transformed => "transformed",
            Status::EndOfWaste => "end-of-waste",
            Status::Named(name) => name.as_str(),
        }
    }

    /// A copy of the status.
    pub fn copy(&self) -> (r: Status)
        ensures
            r == *self,
    {
        match self {
            Status::Issued => Status::Issued,
            Status::Transformed => Status::Transformed,
            Status::EndOfWaste => Status::EndOfWaste,
            Status::Named(name) => Status::Named(name.clone()),
        }
    }
}

/// A span of time: from an instant on, up to (not including) another.
#[derive(Clone, Copy, Debug, PartialEq, Eq)]
pub struct Interval {
    pub from: Timestamp,
    pub to: Option<Timestamp>,
}

/// `at` lies in the interval.
pub open spec fn interval_contains(i: Interval, at: Timestamp) -> bool {
    i.from.secs <= at.secs && (match i.to {
        Some(end) => at.secs < end.secs,
        None => true,
    })
}

impl Interval {
    /// From `from` on, without end.
    pub fn starting(from: Timestamp) -> (r: Interval)
        ensures
            r == (Interval { from, to: None }),
    {
        Interval { from, to: None }
    }

    /// Whether `at` lies in the interval.
    pub fn contains(&self, at: Timestamp) -> (r: bool)
        ensures
            r == interval_contains(*self, at),
    {
        self.from.secs <= at.secs && match self.to {
            Some(end) => at.secs < end.secs,
            None => true,
        }
    }
}

/// The value of a fact.
#[derive(Debug, PartialEq)]
pub enum FactValue {
    Str(String),
    Num(Decimal),
    Bool(bool),
    List(Vec<String>),
}

/// What an event states.
#[allow(inconsistent_fields)]
#[derive(Debug, PartialEq)]
pub enum EventPayload {
    /// The passport is issued; a derived one names the passports it is made
    /// from.
    Issuance { derived: bool, inputs: Vec<String> },
    /// Measured counters.
    MilestoneRecord { counters: StrMap<Decimal> },
    /// A field takes a new value.
    Correction { field: String, prior_value: String, new_value: String, reason: String },
    /// Software versions by slot.
    SoftwareUpdate { versions: StrMap<String>, unlocked_features: Vec<String> },
    /// The subject changes hands.
    CustodyTransfer { from: String, to: String, counterparty_signed: bool },
    /// The subject is refurbished to a grade.
    RefurbishRemanufacture { condition_grade: String },
    /// The product is modified, possibly into another type.
    ProductModify { derived_type: Option<String> },
    /// The status changes.
    StatusChange { to: Status },
    /// The subject is split, and possibly consumed by it.
    Split { parent_consumed: bool },
    /// The subject is taken apart.
    Decompose,
    /// The subject ceases to be waste.
    EndOfWaste,
    /// One part is taken out and another put in.
    PartReplace { removed: String, added: String, like_for_like: bool },
    /// Child passports come and go (combination inputs, consumable
    /// replacements, removals, consumed parts).
    EdgeChange { attached: Vec<String>, detached: Vec<String> },
    /// An event that writes no fact, no status and no child edge.
    Other,
}

/// One event of the log.
#[derive(Debug, PartialEq)]
pub struct TypedEvent {
    pub seq: u64,
    pub occurred_at: Timestamp,
    pub actor_role: String,
    pub actor_id: String,
    pub payload: EventPayload,
    pub trust: TrustMarker,
}

/// An event together with the head of the log behind it.
#[derive(Debug, PartialEq)]
pub struct SealedEvent {
    pub event: TypedEvent,
    /// The log's state hash after this event, in hexadecimal.
    pub state_hash: String,
}

/// A passport document: identity, validity, and the append-only log.
#[derive(Debug, PartialEq)]
pub struct Passport {
    pub passport_id: String,
    /// The product identifier in its text form.
    pub product_id: String,
    pub capability: CapabilityClass,
    pub validity: Interval,
    pub log: Vec<SealedEvent>,
}

/// The state hash as-of `at`: that of the last of the first `n` log entries
/// whose event occurred at or before the instant.
pub open spec fn head_at(log: Seq<SealedEvent>, at: Timestamp) -> Option<Seq<char>>
    decreases log.len(),
{
    if log.len() == 0 {
        None
    } else if log.last().event.occurred_at.secs <= at.secs {
        Some(log.last().state_hash@)
    } else {
        head_at(log.drop_last(), at)
    }
}

impl Passport {
    /// The log's state hash as-of `at`, where an event had occurred by then.
    pub fn state_hash_at(&self, at: Timestamp) -> (r: Option<&String>)
        ensures
            match r {
                Some(h) => head_at(self.log@, at) == Some(h@),
                None => head_at(self.log@, at) is None,
            },
    {
        let mut n: usize = self.log.len();
        assert(self.log@.take(n as int) =~= self.log@);
        while n > 0
            invariant
                n <= self.log.len(),
                head_at(self.log@, at) == head_at(self.log@.take(n as int), at),
            decreases n,
        {
            assert(self.log@.take(n as int).drop_last() =~= self.log@.take(n - 1));
            if self.log[n - 1].event.occurred_at.at_or_before(&at) {
                return Some(&self.log[n - 1].state_hash);
            }
            n = n - 1;
        }
        None
    }
}

/// A reference to a registered data element.
#[derive(Debug, PartialEq)]
pub struct DataPointRef {
    pub register: String,
    pub item: String,
    pub version: Option<String>,
}

/// The canonical text of a data point: `register/item@version`.
pub open spec fn data_point_text(p: DataPointRef) -> Seq<char> {
    match p.version {
        Some(v) => p.register@ + "/"@ + p.item@ + "@"@ + v@,
        None => p.register@ + "/"@ + p.item@,
    }
}

impl DataPointRef {
    /// A reference by its parts.
    pub fn new(register: &str, item: &str, version: Option<&str>) -> (r: DataPointRef)
        ensures
            r.register@ == register@,
            r.item@ == item@,
            match version {
                Some(v) => r.version is Some && r.version->0@ == v@,
                None => r.version is None,
            },
    {
        DataPointRef {
            register: register.to_string(),
            item: item.to_string(),
            version: match version {
                Some(v) => Some(v.to_string()),
                None => None,
            },
        }
    }

    /// The canonical text.
    pub fn text(&self) -> (r: String)
        ensures
            r@ == data_point_text(*self),
    {
        let mut out: String = self.register.clone();
        out.append("/");
        out.append(self.item.as_str());
        match &self.version {
            Some(v) => {
                out.append("@");
                out.append(v.as_str());
            },
            None => {},
        }
        out
    }
}

/// The core profile: what a lens requires.
#[derive(Debug, PartialEq)]
pub struct ProfileManifest {
    pub id: String,
    /// The axes (jurisdiction, sector, purpose) in their text form.
    pub axes: String,
    /// The trigger predicate in its text form.
    pub trigger: String,
    /// The freshness requirement in its text form.
    pub freshness: String,
    pub min_capability: CapabilityClass,
    /// When the profile is in force.
    pub effective: Interval,
    /// The required elements, in order.
    pub data_points: Vec<DataPointRef>,
    /// The resolution posture by its wire name; `none` is not servable.
    pub resolution: String,
    /// Why the core rules refuse the profile, where they do.
    pub refusal: Option<String>,
}

/// The trust ladder: every rung is above those before it, and has a name of
/// its own.
pub proof fn trust_is_a_ladder()
    ensures
        trust_grade(TrustMarker::Unsigned) < trust_grade(TrustMarker::SelfDeclared),
        trust_grade(TrustMarker::SelfDeclared) < trust_grade(TrustMarker::Attested),
        trust_grade(TrustMarker::Attested) < trust_grade(TrustMarker::MultiSigned),
        trust_text(TrustMarker::Unsigned) == "unsigned"@,
        trust_text(TrustMarker::SelfDeclared) == "self-declared"@,
        trust_text(TrustMarker::Attested) == "attested"@,
        trust_text(TrustMarker::MultiSigned) == "multi-signed"@,
{
}

/// The capability ladder: a silent object is below one that authenticates
/// passively, that below a connected one, and any other class stands where
/// its rank says; each is known by its name.
pub proof fn capability_is_a_ladder(rank: u8, name: String, other: u8, called: String)
    ensures
        capability_rank(CapabilityClass::Silent) < capability_rank(CapabilityClass::PassiveAuth),
        capability_rank(CapabilityClass::PassiveAuth) < capability_rank(CapabilityClass::Connected),
        capability_rank(CapabilityClass::PassiveAuth) < capability_rank(
            CapabilityClass::Graded { rank, name },
        ) <==> rank > 1,
        capability_rank(CapabilityClass::Graded { rank, name }) < capability_rank(
            CapabilityClass::Connected,
        ) <==> rank < 3,
        capability_rank(CapabilityClass::Graded { rank: other, name: called }) < capability_rank(
            CapabilityClass::Graded { rank, name },
        ) <==> other < rank,
        capability_text(CapabilityClass::Silent) == "silent"@,
        capability_text(CapabilityClass::PassiveAuth) == "passive-auth"@,
        capability_text(CapabilityClass::Connected) == "connected"@,
        capability_text(CapabilityClass::Graded { rank, name }) == name@,
{
}

/// An interval holds its start and everything up to its end, not the end
/// itself; without an end it holds everything from its start on.
pub proof fn intervals_exclude_their_end(i: Interval, at: Timestamp)
    ensures
        at.secs < i.from.secs ==> !interval_contains(i, at),
        i.to is Some && at.secs >= i.to->0.secs ==> !interval_contains(i, at),
        i.to is Some && i.from.secs <= at.secs && at.secs < i.to->0.secs ==> interval_contains(
            i,
            at,
        ),
        i.to is None && i.from.secs <= at.secs ==> interval_contains(i, at),
{
}

/// The head as-of an instant is that of the last entry that had occurred by
/// then; before the first there is none.
pub proof fn the_head_is_the_last_counted_one(log: Seq<SealedEvent>, at: Timestamp, i: int)
    requires
        -1 <= i < log.len(),
        i >= 0 ==> log[i].event.occurred_at.secs <= at.secs,
        forall|j: int|
            i < j < log.len() ==> (#[trigger] log[j]).event.occurred_at.secs > at.secs,
    ensures
        i >= 0 ==> head_at(log, at) == Some(log[i].state_hash@),
        i < 0 ==> head_at(log, at) is None,
    decreases log.len(),
{
    if i < log.len() - 1 {
        assert(log[log.len() - 1].event.occurred_at.secs > at.secs);
        let rest = log.drop_last();
        assert forall|j: int| i < j < rest.len() implies (
        #[trigger] rest[j]).event.occurred_at.secs > at.secs by {
            assert(rest[j] == log[j]);
        }
        the_head_is_the_last_counted_one(rest, at, i);
    }
}

/// The text of a data point names its register and its item, and its version
/// where it has one: two that differ in the version alone have different
/// texts.
pub proof fn data_point_texts_tell_versions_apart(a: DataPointRef, b: DataPointRef)
    requires
        a.register@ == b.register@,
        a.item@ == b.item@,
    ensures
        a.version is None ==> data_point_text(a) == a.register@ + "/"@ + a.item@,
        (a.register@ + "/"@ + a.item@).is_prefix_of(data_point_text(a)),
        data_point_text(a) == data_point_text(b) <==> (a.version is Some <==> b.version is Some)
            && (a.version is Some ==> a.version->0@ == b.version->0@),
{
    reveal_strlit("@");
    let head = a.register@ + "/"@ + a.item@;
    let x = data_point_text(a);
    let y = data_point_text(b);
    assert(x.take(head.len() as int) =~= head);
    if a.version is Some {
        assert(x =~= head + "@"@ + a.version->0@);
        assert(x.skip((head.len() + 1) as int) =~= a.version->0@);
    }
    if b.version is Some {
        assert(y =~= head + "@"@ + b.version->0@);
        assert(y.skip((head.len() + 1) as int) =~= b.version->0@);
    }
}

} // verus!
