//! The aggregation transform class: cross-child roll-ups, methodology-bound.
//!
//! An aggregation binding names an *input element*; the projector selects
//! that element's value from every passport in the subject's **active
//! traversal set**, applies the declared operation exactly, and emits the
//! aggregated output together with:
//!
//! - `method_citation` — the method standard the roll-up follows;
//! - `input_set_root` — the root hash of the committed child set, so a
//!   roll-up names exactly the input set it aggregated;
//! - per-child inputs with their values, trust markers and log heads — and
//!   per-child *gaps* when a child is missing the element: a coverage gap,
//!   never an error.
//!
//! Division (weighted average) is exact-or-refused: an inexact quotient is
//! reported as a failure with its reason, not a quietly truncated value.
use vstd::arithmetic::power::*;
use vstd::prelude::*;
use vstd::string::*;

use crate::decimal::{decimal_text, fits, made_facts, made_from_shifted, pow10, product, products_in_the_domain_are_found, reduced, reduced_facts, reduced_scaled, representable, same_value_same_decimal, scaled, sum, sums_in_the_domain_are_found, within, Decimal, EXP_LIMIT};
use crate::json::{json_view_cases, json_views, member_names_differ, member_str, member_view, Json, JsonObject, JsonView};
use crate::lens::DataPointBinding;
use crate::model::{capability_rank, head_at, trust_grade, trust_text, FactValue, Passport, TrustMarker};
use crate::project::{all_some, later_heads_are_not_seen, named_by, reason_detail, reason_name, select, selection_of, Selection};
use crate::strmap::StrMap;
use crate::text::{nat_text, number_text, phrase, texts};
use crate::time::{instant_text, Timestamp};
use crate::twin::{active_children, fold, folded, later_events_are_not_seen, names_path, the_last_measurement_stands, value_type, FactView, SourcedFact, TwinState, TwinView, ValueView};

verus! {

/// The roll-up operations an aggregation may declare.
#[derive(Clone, Copy, Debug, PartialEq, Eq, Structural)]
pub enum AggregationOperation {
    /// Σ values across the children providing the element.
    Sum,
    /// Σ(value × weight) / Σ(weight) — exact, or refused.
    WeightedAverage,
    /// The number of children providing the element.
    Count,
}

/// The wire name of an operation.
pub open spec fn operation_text(op: AggregationOperation) -> Seq<char> {
    match op {
        AggregationOperation::Sum => "sum"@,
        AggregationOperation::WeightedAverage => "weighted-average"@,
        AggregationOperation::Count => "count"@,
    }
}

impl AggregationOperation {
    /// The wire name.
    pub fn text(&self) -> (r: &'static str)
        ensures
            r@ == operation_text(*self),
    {
        match self {
            AggregationOperation::Sum => "sum",
            AggregationOperation::WeightedAverage => "weighted-average",
            AggregationOperation::Count => "count",
        }
    }
}

/// The quotient of the numbers at the first scale from `10^k` on at which the
/// division leaves no rest, up to 18 further digits.
pub open spec fn quotient_from(n: Decimal, d: Decimal, k: int) -> Option<Decimal>
    decreases 19 - k,
{
    if k < 0 || k > 18 || !fits(n.mant() * pow10(k)) {
        None
    } else if (n.mant() * pow10(k)) % d.mant() == 0 {
        Decimal::made((n.mant() * pow10(k)) / d.mant(), n.exp() - d.exp() - k)
    } else {
        quotient_from(n, d, k + 1)
    }
}

/// The exact quotient, where it exists within the decimal domain.
pub open spec fn quotient(n: Decimal, d: Decimal) -> Option<Decimal> {
    if d.mant() == 0 {
        None
    } else {
        quotient_from(n, d, 0)
    }
}

/// Signed exact division through magnitudes.
proof fn signed_division(s: int, d: int, sm: int, dm: int)
    requires
        d != 0,
        sm == (if s < 0 { -s } else { s }),
        dm == (if d < 0 { -d } else { d }),
    ensures
        (s % d == 0) == (sm % dm == 0),
        sm % dm == 0 ==> s / d == (if (s < 0) == (d < 0) { sm / dm } else { -(sm / dm) }),
{
    let q = sm / dm;
    vstd::arithmetic::div_mod::lemma_fundamental_div_mod(sm, dm);
    if sm % dm == 0 {
        assert(sm == dm * q);
        let x = if (s < 0) == (d < 0) { q } else { -q };
        assert(s == d * x) by (nonlinear_arith)
            requires
                sm == dm * q,
                sm == (if s < 0 { -s } else { s }),
                dm == (if d < 0 { -d } else { d }),
                x == (if (s < 0) == (d < 0) { q } else { -q }),
        ;
        assert(s % d == 0 && s / d == x) by (nonlinear_arith)
            requires
                s == d * x,
                d != 0,
        ;
    }
    if s % d == 0 {
        let y = s / d;
        assert(s == d * y) by (nonlinear_arith)
            requires
                s % d == 0,
                y == s / d,
                d != 0,
        ;
        let z = if (s < 0) == (d < 0) { y } else { -y };
        assert(sm == dm * z) by (nonlinear_arith)
            requires
                s == d * y,
                sm == (if s < 0 { -s } else { s }),
                dm == (if d < 0 { -d } else { d }),
                z == (if (s < 0) == (d < 0) { y } else { -y }),
        ;
        assert(sm % dm == 0) by (nonlinear_arith)
            requires
                sm == dm * z,
                dm > 0,
        ;
    }
}

/// Exact decimal division: `n / d`, or `None` when the quotient does not
/// terminate within the decimal domain.
pub fn div_exact(n: &Decimal, d: &Decimal) -> (r: Option<Decimal>)
    ensures
        r == quotient(*n, *d),
{
    let nm: i128 = n.mantissa();
    let dm: i128 = d.mantissa();
    if dm == 0 {
        return None;
    }
    let dmag: u128 = if dm < 0 {
        (-dm) as u128
    } else {
        dm as u128
    };
    let base: i32 = n.exponent() - d.exponent();
    let mut k: u32 = 0;
    while k <= 18
        invariant
            k <= 19,
            nm == n.mant(),
            dm == d.mant(),
            dm != 0,
            fits(nm as int),
            fits(dm as int),
            dmag == (if dm < 0 { -dm } else { dm as int }),
            base == n.exp() - d.exp(),
            -2 * EXP_LIMIT <= base <= 2 * EXP_LIMIT,
            quotient(*n, *d) == quotient_from(*n, *d, k as int),
        decreases 19 - k,
    {
        let s: i128 = match scaled(nm, k) {
            Some(s) => s,
            None => return None,
        };
        let smag: u128 = if s < 0 {
            (-s) as u128
        } else {
            s as u128
        };
        proof {
            signed_division(s as int, dm as int, smag as int, dmag as int);
        }
        if smag % dmag == 0 {
            let q: u128 = smag / dmag;
            proof {
                let (a, b) = (smag as int, dmag as int);
                assert(a / b <= a) by (nonlinear_arith)
                    requires
                        a >= 0,
                        b > 0,
                ;
            }
            let m: i128 = if (s < 0) == (dm < 0) {
                q as i128
            } else {
                -(q as i128)
            };
            return match Decimal::new(m, base - k as i32) {
                Ok(v) => Some(v),
                Err(_) => None,
            };
        }
        k = k + 1;
    }
    None
}

/// A quotient, multiplied by the divisor, is the dividend: division never
/// rounds.
pub proof fn quotient_is_exact(n: Decimal, d: Decimal)
    requires
        n.valid(),
        d.valid(),
        quotient(n, d) is Some,
    ensures
        quotient(n, d)->0.valid(),
        quotient(n, d)->0.value() * d.value() == n.value() * pow10(EXP_LIMIT as int),
{
    quotient_from_is_exact(n, d, 0);
}

proof fn quotient_from_is_exact(n: Decimal, d: Decimal, k: int)
    requires
        n.valid(),
        d.valid(),
        d.mant() != 0,
        0 <= k,
        quotient_from(n, d, k) is Some,
    ensures
        quotient_from(n, d, k)->0.valid(),
        quotient_from(n, d, k)->0.value() * d.value() == n.value() * pow10(EXP_LIMIT as int),
    decreases 19 - k,
{
    let l = EXP_LIMIT as int;
    let s = n.mant() * pow10(k);
    if s % d.mant() == 0 {
        let m = s / d.mant();
        let e = n.exp() - d.exp() - k;
        let q = quotient_from(n, d, k)->0;
        assert(s == d.mant() * m) by (nonlinear_arith)
            requires
                s % d.mant() == 0,
                m == s / d.mant(),
                d.mant() != 0,
        ;
        made_facts(m, e);
        reduced_facts(m, e);
        if m == 0 {
            lemma_pow_positive(10, k as nat);
            assert(n.mant() == 0) by (nonlinear_arith)
                requires
                    d.mant() * m == n.mant() * pow10(k),
                    m == 0,
                    pow10(k) > 0,
            ;
            assert(0 * pow10(q.exp() + l) == 0) by (nonlinear_arith);
            assert(0 * d.value() == 0) by (nonlinear_arith);
            assert(0 * pow10(n.exp() + l) == 0) by (nonlinear_arith);
            assert(0 * pow10(l) == 0) by (nonlinear_arith);
        } else {
            // q.mant * 10^t == m, with q.exp == e + t
            let t = q.exp() - e;
            assert(m == q.mant() * pow10(t));
            let (a, b, c) = (pow10(q.exp() + l), pow10(d.exp() + l), pow10(k));
            let (f, g) = (pow10(n.exp() + l), pow10(l));
            // 10^(q.exp+l) * 10^(d.exp+l) * 10^k == 10^t * 10^(n.exp+l) * 10^l
            lemma_pow_adds(10, (q.exp() + l) as nat, (d.exp() + l) as nat);
            lemma_pow_adds(10, (q.exp() + d.exp() + 2 * l) as nat, k as nat);
            lemma_pow_adds(10, t as nat, (n.exp() + l) as nat);
            lemma_pow_adds(10, (t + n.exp() + l) as nat, l as nat);
            assert(q.exp() + d.exp() + 2 * l + k == t + n.exp() + l + l);
            let x = pow10(t);
            assert((a * b) * c == (x * f) * g);
            lemma_pow_positive(10, k as nat);
            lemma_pow_positive(10, t as nat);
            // (qm*a) * (dm*b) * c * x == (nm*f) * g * c * x ... cancel c * x
            let lhs = (q.mant() * a) * (d.mant() * b);
            let rhs = (n.mant() * f) * g;
            assert(lhs * (c * x) == (d.mant() * (q.mant() * x)) * ((a * b) * c)) by (nonlinear_arith)
                requires
                    lhs == (q.mant() * a) * (d.mant() * b),
            ;
            assert(rhs * (c * x) == (n.mant() * c) * ((x * f) * g)) by (nonlinear_arith)
                requires
                    rhs == (n.mant() * f) * g,
            ;
            assert(d.mant() * (q.mant() * x) == n.mant() * c);
            assert(lhs * (c * x) == rhs * (c * x));
            assert(lhs == rhs) by (nonlinear_arith)
                requires
                    lhs * (c * x) == rhs * (c * x),
                    c > 0,
                    x > 0,
            ;
        }
    } else {
        quotient_from_is_exact(n, d, k + 1);
    }
}

/// Lowering the exponent does not change the reduced number.
proof fn reduced_alike(m: int, e: int, t: nat)
    ensures
        reduced(m * pow10(t as int), e - t) == reduced(m, e),
{
    if m == 0 {
        assert(0 * pow10(t as int) == 0) by (nonlinear_arith);
    } else {
        reduced_facts(m, e);
        let (a, b) = reduced(m, e);
        let k = (b - e) as nat;
        lemma_pow_adds(10, k, t);
        assert((a * pow10(k as int)) * pow10(t as int) == a * (pow10(k as int) * pow10(t as int)))
            by (nonlinear_arith);
        reduced_scaled(a, k + t, e - t);
    }
}

/// Division refuses only what has no quotient within the domain: where some
/// scale of up to 18 further digits leaves no rest and its quotient is in the
/// domain, that quotient is the result.
pub proof fn exact_quotients_are_found(n: Decimal, d: Decimal, k: int)
    requires
        d.mant() != 0,
        0 <= k <= 18,
        fits(n.mant() * pow10(k)),
        (n.mant() * pow10(k)) % d.mant() == 0,
        representable((n.mant() * pow10(k)) / d.mant(), n.exp() - d.exp() - k),
    ensures
        quotient(n, d) is Some,
        quotient(n, d) == Decimal::made(
            (n.mant() * pow10(k)) / d.mant(),
            n.exp() - d.exp() - k,
        ),
{
    quotient_found_from(n, d, k, 0);
}

proof fn quotient_found_from(n: Decimal, d: Decimal, k: int, j: int)
    requires
        d.mant() != 0,
        0 <= j <= k <= 18,
        fits(n.mant() * pow10(k)),
        (n.mant() * pow10(k)) % d.mant() == 0,
    ensures
        quotient_from(n, d, j) == Decimal::made(
            (n.mant() * pow10(k)) / d.mant(),
            n.exp() - d.exp() - k,
        ),
    decreases k - j,
{
    let (a, b) = (n.mant(), d.mant());
    let t = (k - j) as nat;
    let (x, y, z) = (pow10(j), pow10(t as int), pow10(k));
    lemma_pow_adds(10, j as nat, t);
    lemma_pow_positive(10, j as nat);
    lemma_pow_positive(10, t);
    let s = a * x;
    assert(a * z == s * y) by (nonlinear_arith)
        requires
            s == a * x,
            z == x * y,
    ;
    assert(fits(s)) by (nonlinear_arith)
        requires
            fits(s * y),
            y >= 1,
    ;
    if s % b == 0 {
        let q = s / b;
        assert(s == b * q) by (nonlinear_arith)
            requires
                s % b == 0,
                q == s / b,
                b != 0,
        ;
        assert((s * y) / b == q * y) by (nonlinear_arith)
            requires
                s == b * q,
                b != 0,
        ;
        reduced_alike(q, n.exp() - d.exp() - j, t);
    } else if j < k {
        quotient_found_from(n, d, k, j + 1);
    }
}

/// The child passport documents available to a projection, keyed by passport
/// id (the traversal set's resolvable members). Ids that do not resolve are
/// reported as per-child gaps.
#[derive(Debug, PartialEq)]
pub struct ChildDocuments {
    /// Child documents by passport id.
    pub documents: StrMap<Passport>,
}

/// The first `n` documents keyed by their own ids; of two with one id the
/// later counts.
pub open spec fn keyed(documents: Seq<Passport>, n: int) -> Map<Seq<char>, Passport>
    decreases n,
{
    if n <= 0 {
        Map::empty()
    } else {
        keyed(documents, n - 1).insert(documents[n - 1].passport_id@, documents[n - 1])
    }
}

/// The log head of a child document, where it resolves and had an event.
pub open spec fn child_head(
    children: Map<Seq<char>, Passport>,
    id: Seq<char>,
    at: Timestamp,
) -> Option<Seq<char>> {
    if children.contains_key(id) {
        head_at(children[id].log@, at)
    } else {
        None
    }
}

/// What the root hash of a child set commits to: each active child (in id
/// order) — its id, then its log head as-of the instant, or the marker `∅`
/// when there is none, so the root commits to the *set*, not to what happened
/// to be loadable.
pub open spec fn committed(
    children: Map<Seq<char>, Passport>,
    active: Seq<Seq<char>>,
    at: Timestamp,
    n: int,
) -> Seq<Seq<char>>
    decreases n,
{
    if n <= 0 {
        Seq::empty()
    } else {
        let id = active[n - 1];
        let head = match child_head(children, id, at) {
            Some(h) => h,
            None => "∅"@,
        };
        committed(children, active, at, n - 1).push(id).push(head)
    }
}

impl ChildDocuments {
    /// An empty set (no children resolvable).
    pub fn empty() -> (r: ChildDocuments)
        ensures
            r.documents@ == Map::<Seq<char>, Passport>::empty(),
    {
        ChildDocuments { documents: StrMap::new() }
    }

    /// Build from documents (keyed by their own passport ids).
    pub fn of(documents: Vec<Passport>) -> (r: ChildDocuments)
        ensures
            r.documents@ == keyed(documents@, documents@.len() as int),
    {
        let ghost all = documents@;
        let mut map: StrMap<Passport> = StrMap::new();
        let mut rest: Vec<Passport> = documents;
        let mut seen: Vec<Passport> = Vec::new();
        // Taken from the end, then put in from the front, so that the later
        // document counts.
        while rest.len() > 0
            invariant
                rest@ == all.take(rest@.len() as int),
                rest@.len() <= all.len(),
                seen@.len() == all.len() - rest@.len(),
                forall|i: int| 0 <= i < seen@.len() ==> seen@[i] == all[all.len() - 1 - i],
            decreases rest.len(),
        {
            match rest.pop() {
                Some(p) => seen.push(p),
                None => {},
            }
        }
        let ghost n = all.len();
        while seen.len() > 0
            invariant
                n == all.len(),
                seen@.len() <= n,
                forall|i: int| 0 <= i < seen@.len() ==> seen@[i] == all[n - 1 - i],
                map@ == keyed(all, n - seen@.len()),
            decreases seen.len(),
        {
            let ghost k = n - seen@.len();
            match seen.pop() {
                Some(p) => {
                    assert(p == all[k]);
                    map.insert(p.passport_id.clone(), p);
                },
                None => {},
            }
        }
        ChildDocuments { documents: map }
    }

    /// Look up one child document.
    pub fn get(&self, id: &str) -> (r: Option<&Passport>)
        ensures
            match r {
                Some(p) => self.documents@.contains_key(id@) && *p == self.documents@[id@],
                None => !self.documents@.contains_key(id@),
            },
    {
        self.documents.get(id)
    }

    /// What the root hash of the active child set is taken over, in order.
    pub fn root_parts(&self, active_ids: &Vec<String>, at: Timestamp) -> (r: Vec<String>)
        ensures
            texts(r@) == committed(
                self.documents@,
                texts(active_ids@),
                at,
                active_ids@.len() as int,
            ),
    {
        let ghost active = texts(active_ids@);
        let mut parts: Vec<String> = Vec::new();
        let mut i: usize = 0;
        assert(texts(parts@) =~= Seq::<Seq<char>>::empty());
        while i < active_ids.len()
            invariant
                i <= active_ids.len(),
                active == texts(active_ids@),
                texts(parts@) == committed(self.documents@, active, at, i as int),
            decreases active_ids.len() - i,
        {
            let id: &String = &active_ids[i];
            assert(active[i as int] == id@);
            let head: String = match self.get(id.as_str()) {
                Some(p) => match p.state_hash_at(at) {
                    Some(h) => h.clone(),
                    None => "∅".to_string(),
                },
                None => "∅".to_string(),
            };
            let ghost done = parts@;
            let ghost h = head@;
            parts.push(id.clone());
            parts.push(head);
            assert(texts(parts@) =~= texts(done).push(id@).push(h));
            i = i + 1;
        }
        parts
    }
}

/// The committed parts name the set: two sets with the same parts are the
/// same active children with the same heads, in the same order.
pub proof fn root_commits_to_the_set(
    a: Map<Seq<char>, Passport>,
    x: Seq<Seq<char>>,
    b: Map<Seq<char>, Passport>,
    y: Seq<Seq<char>>,
    at: Timestamp,
)
    requires
        committed(a, x, at, x.len() as int) == committed(b, y, at, y.len() as int),
    ensures
        x == y,
        forall|i: int|
            0 <= i < x.len() ==> (#[trigger] head_or_marker(a, x[i], at)) == head_or_marker(
                b,
                y[i],
                at,
            ),
{
    committed_parts(a, x, at, x.len() as int);
    committed_parts(b, y, at, y.len() as int);
    let p = committed(a, x, at, x.len() as int);
    assert forall|i: int| 0 <= i < x.len() implies x[i] == y[i] by {
        assert(p[2 * i] == x[i]);
        assert(p[2 * i] == y[i]);
    }
    assert(x =~= y);
    assert forall|i: int| 0 <= i < x.len() implies (#[trigger] head_or_marker(a, x[i], at))
        == head_or_marker(b, y[i], at) by {
        assert(p[2 * i + 1] == head_or_marker(a, x[i], at));
        assert(p[2 * i + 1] == head_or_marker(b, y[i], at));
    }
}

/// The head of a child, or the marker for none.
pub open spec fn head_or_marker(
    children: Map<Seq<char>, Passport>,
    id: Seq<char>,
    at: Timestamp,
) -> Seq<char> {
    match child_head(children, id, at) {
        Some(h) => h,
        None => "∅"@,
    }
}

proof fn committed_parts(
    children: Map<Seq<char>, Passport>,
    active: Seq<Seq<char>>,
    at: Timestamp,
    n: int,
)
    requires
        0 <= n <= active.len(),
    ensures
        committed(children, active, at, n).len() == 2 * n,
        forall|i: int|
            #![trigger active[i]]
            0 <= i < n ==> committed(children, active, at, n)[2 * i] == active[i] && committed(
                children,
                active,
                at,
                n,
            )[2 * i + 1] == head_or_marker(children, active[i], at),
    decreases n,
{
    if n > 0 {
        committed_parts(children, active, at, n - 1);
    }
}

/// Why a child contributed no value to the roll-up (a coverage gap, never an
/// error).
pub struct GapView {
    pub reason: Seq<char>,
    pub detail: Seq<char>,
}

struct ChildGap {
    reason: &'static str,
    detail: String,
}

/// The value that a binding selects from a child, through the same gates as
/// the subject view; a blocked child is a gap with the view's reason, a
/// non-numeric fact a type gap.
pub open spec fn child_outcome(child: Passport, s: TwinView, b: DataPointBinding) -> Result<
    (Decimal, FactView),
    GapView,
> {
    match selection_of(child.capability, s, b) {
        Err(reason) => Err(
            GapView {
                reason: reason_name(reason),
                detail: "child `"@ + child.passport_id@ + "`: "@ + reason_detail(reason),
            },
        ),
        Ok(fact) => match fact.value {
            ValueView::Num(v) => Ok((v, fact)),
            other => Err(
                GapView {
                    reason: "not-numeric"@,
                    detail: "child `"@ + child.passport_id@ + "`: fact `"@ + b.source@ + "` is a "@
                        + value_type(other) + " fact; the roll-up needs a numeric measurand"@,
                },
            ),
        },
    }
}

fn child_value<'a>(child: &Passport, state: &'a TwinState, binding: &DataPointBinding) -> (r: Result<
    (Decimal, &'a SourcedFact),
    ChildGap,
>)
    ensures
        match r {
            Ok(found) => child_outcome(*child, state@, *binding) == Ok::<
                (Decimal, FactView),
                GapView,
            >((found.0, found.1@)),
            Err(gap) => child_outcome(*child, state@, *binding) == Err::<
                (Decimal, FactView),
                GapView,
            >(GapView { reason: gap.reason@, detail: gap.detail@ }),
        },
{
    match select(child, state, binding) {
        Selection::Blocked(reason) => {
            let mut detail: String = phrase("child `", child.passport_id.as_str(), "`: ");
            detail.append(reason.detail().as_str());
            Err(ChildGap { reason: reason.name(), detail })
        },
        Selection::Found(fact) => match &fact.value {
            FactValue::Num(v) => Ok((*v, fact)),
            other => {
                let mut detail: String = phrase(
                    "child `",
                    child.passport_id.as_str(),
                    "`: fact `",
                );
                detail.append(binding.source.as_str());
                detail.append("` is a ");
                detail.append(other.kind_name());
                detail.append(" fact; the roll-up needs a numeric measurand");
                Err(ChildGap { reason: "not-numeric", detail })
            },
        },
    }
}

/// What one active child contributes.
pub enum Contribution {
    /// A gap, as its `missing_children` entry.
    Gap(JsonView),
    /// A value with its weight (where the roll-up weighs), the trust of its
    /// source, and its `inputs` entry.
    Given(Decimal, Option<Decimal>, TrustMarker, JsonView),
}

/// The `missing_children` entry of a gap.
pub open spec fn gap_doc(passport: Seq<char>, reason: Seq<char>, detail: Seq<char>) -> JsonView {
    JsonView::Obj(
        map![
            "passport"@ => JsonView::Str(passport),
            "reason"@ => JsonView::Str(reason),
            "detail"@ => JsonView::Str(detail),
        ],
    )
}

/// The `inputs` entry of a contributing child.
pub open spec fn input_doc(
    id: Seq<char>,
    value: Decimal,
    fact: FactView,
    head: Option<Seq<char>>,
) -> JsonView {
    JsonView::Obj(
        map![
            "passport"@ => JsonView::Str(id),
            "value"@ => JsonView::Str(decimal_text(value)),
            "trust"@ => JsonView::Str(trust_text(fact.origin.trust)),
            "sourced_seq"@ => JsonView::Num(fact.origin.seq),
            "log_head"@ => JsonView::Str(
                match head {
                    Some(h) => h,
                    None => Seq::empty(),
                },
            ),
        ],
    )
}

/// What the active child `id` contributes: its value through the input
/// binding, weighed through the weight binding by a positive quantity — or
/// the gap that keeps it out.
pub open spec fn contribution(
    children: Map<Seq<char>, Passport>,
    id: Seq<char>,
    input: DataPointBinding,
    weight: Option<DataPointBinding>,
    at: Timestamp,
) -> Contribution {
    if !children.contains_key(id) {
        Contribution::Gap(
            gap_doc(
                id,
                "document-unavailable"@,
                "the child document is not resolvable from this projector's passport store"@,
            ),
        )
    } else {
        let child = children[id];
        let s = folded(child.log@, at);
        match child_outcome(child, s, input) {
            Err(gap) => Contribution::Gap(gap_doc(child.passport_id@, gap.reason, gap.detail)),
            Ok(found) => {
                let entry = input_doc(id, found.0, found.1, head_at(child.log@, at));
                let trust = found.1.origin.trust;
                match weight {
                    None => Contribution::Given(found.0, None, trust, entry),
                    Some(wb) => match child_outcome(child, s, wb) {
                        Ok(w) => if w.0.mant() > 0 {
                            Contribution::Given(found.0, Some(w.0), trust, entry)
                        } else {
                            Contribution::Gap(
                                gap_doc(
                                    id,
                                    "weight-not-positive"@,
                                    "weight fact `"@ + wb.source@
                                        + "` is not a positive quantity"@,
                                ),
                            )
                        },
                        Err(gap) => Contribution::Gap(
                            gap_doc(id, "weight-missing"@, gap.detail),
                        ),
                    },
                }
            },
        }
    }
}

/// One contributed value: value, weight, trust of the source.
pub type Counted = (Decimal, Option<Decimal>, TrustMarker);

/// The contributions of the first active children, sorted into inputs, gaps
/// and values.
#[verifier::ext_equal]
pub struct Rollup {
    pub inputs: Seq<JsonView>,
    pub gaps: Seq<JsonView>,
    pub values: Seq<Counted>,
}

/// The contributions of the first `n` active children.
pub open spec fn rolled(
    children: Map<Seq<char>, Passport>,
    active: Seq<Seq<char>>,
    input: DataPointBinding,
    weight: Option<DataPointBinding>,
    at: Timestamp,
    n: int,
) -> Rollup
    decreases n,
{
    if n <= 0 {
        Rollup { inputs: Seq::empty(), gaps: Seq::empty(), values: Seq::empty() }
    } else {
        let before = rolled(children, active, input, weight, at, n - 1);
        match contribution(children, active[n - 1], input, weight, at) {
            Contribution::Gap(g) => Rollup { gaps: before.gaps.push(g), ..before },
            Contribution::Given(v, w, t, entry) => Rollup {
                inputs: before.inputs.push(entry),
                values: before.values.push((v, w, t)),
                ..before
            },
        }
    }
}

/// The weakest trust among the first `n` values.
pub open spec fn weakest(values: Seq<Counted>, n: int) -> Option<TrustMarker>
    decreases n,
{
    if n <= 0 {
        None
    } else {
        let t = values[n - 1].2;
        match weakest(values, n - 1) {
            None => Some(t),
            Some(low) => if trust_grade(t) < trust_grade(low) {
                Some(t)
            } else {
                Some(low)
            },
        }
    }
}

/// The exact sum of the first `n` values.
pub open spec fn total(values: Seq<Counted>, n: int) -> Option<Decimal>
    decreases n,
{
    if n <= 0 {
        Some(Decimal::of_parts(0, 0))
    } else {
        match total(values, n - 1) {
            Some(t) => sum(t, values[n - 1].0),
            None => None,
        }
    }
}

/// The exact sum of the first `n` weighed values.
pub open spec fn weighed_total(values: Seq<Counted>, n: int) -> Option<Decimal>
    decreases n,
{
    if n <= 0 {
        Some(Decimal::of_parts(0, 0))
    } else {
        match (weighed_total(values, n - 1), product(values[n - 1].0, values[n - 1].1->0)) {
            (Some(t), Some(p)) => sum(t, p),
            _ => None,
        }
    }
}

/// The exact sum of the first `n` weights.
pub open spec fn weight_total(values: Seq<Counted>, n: int) -> Option<Decimal>
    decreases n,
{
    if n <= 0 {
        Some(Decimal::of_parts(0, 0))
    } else {
        match weight_total(values, n - 1) {
            Some(t) => sum(t, values[n - 1].1->0),
            None => None,
        }
    }
}

/// Σ(value × weight) / Σ(weight), exact or none.
pub open spec fn average(values: Seq<Counted>) -> Option<Decimal> {
    let n = values.len() as int;
    match (weighed_total(values, n), weight_total(values, n)) {
        (Some(a), Some(b)) => quotient(a, b),
        _ => None,
    }
}

/// The result of an operation over the contributed values, or why there is
/// none.
pub open spec fn rollup_result(op: AggregationOperation, values: Seq<Counted>) -> Result<
    Decimal,
    Seq<char>,
> {
    match op {
        AggregationOperation::Sum => match total(values, values.len() as int) {
            Some(d) => Ok(d),
            None => Err("the exact result leaves the decimal domain"@),
        },
        AggregationOperation::Count => match Decimal::made(values.len() as int, 0) {
            Some(d) => Ok(d),
            None => Err("the exact result leaves the decimal domain"@),
        },
        AggregationOperation::WeightedAverage => match average(values) {
            Some(d) => Ok(d),
            None => Err(
                "the weighted average over "@ + nat_text(values.len())
                    + " children is not exactly representable in the decimal domain (weight it or restate the inputs) — the projector never rounds silently"@,
            ),
        },
    }
}

/// The entry of an aggregation up to its inputs.
pub open spec fn rollup_head(
    id: Seq<char>,
    op: AggregationOperation,
    input: DataPointBinding,
    weight: Option<DataPointBinding>,
    citation: Seq<char>,
    children_required: nat,
    root: Seq<char>,
) -> Map<Seq<char>, JsonView> {
    let head = map![
        "id"@ => JsonView::Str(id),
        "kind"@ => JsonView::Str("aggregation"@),
        "operation"@ => JsonView::Str(operation_text(op)),
        "input_element"@ => JsonView::Str(input.element@),
    ];
    let weighed = match weight {
        Some(w) => head.insert("weight_element"@, JsonView::Str(w.element@)),
        None => head,
    };
    weighed.insert("method_citation"@, JsonView::Str(citation)).insert(
        "children_required"@,
        JsonView::Num(children_required as u64),
    ).insert("input_set_root"@, JsonView::Str(root))
}

/// The entry of an aggregation.
pub open spec fn rollup_doc(
    id: Seq<char>,
    op: AggregationOperation,
    input: DataPointBinding,
    weight: Option<DataPointBinding>,
    citation: Seq<char>,
    active: Seq<Seq<char>>,
    children: Map<Seq<char>, Passport>,
    root: Seq<char>,
    at: Timestamp,
) -> JsonView {
    let head = rollup_head(id, op, input, weight, citation, active.len(), root);
    if active.len() == 0 {
        JsonView::Obj(
            head.insert("status"@, JsonView::Str("failed"@)).insert(
                "error"@,
                JsonView::Str(
                    "the subject carries no active child edges as-of "@ + instant_text(at)
                        + " — there is no traversal set to aggregate"@,
                ),
            ),
        )
    } else {
        let r = rolled(children, active, input, weight, at, active.len() as int);
        let given = head.insert("inputs"@, JsonView::Arr(r.inputs));
        let trusted = match weakest(r.values, r.values.len() as int) {
            Some(t) => given.insert("trust"@, JsonView::Str(trust_text(t))),
            None => given,
        };
        if r.values.len() == 0 {
            JsonView::Obj(
                trusted.insert("status"@, JsonView::Str("missing-children"@)).insert(
                    "missing_children"@,
                    JsonView::Arr(r.gaps),
                ),
            )
        } else {
            match rollup_result(op, r.values) {
                Err(why) => JsonView::Obj(
                    trusted.insert("status"@, JsonView::Str("failed"@)).insert(
                        "error"@,
                        JsonView::Str(why),
                    ),
                ),
                Ok(amount) => {
                    let bare = map!["amount"@ => JsonView::Str(decimal_text(amount))];
                    let output = match input.declared_unit {
                        Some(u) => bare.insert("unit"@, JsonView::Str(u@)),
                        None => bare,
                    };
                    let done = trusted.insert("output"@, JsonView::Obj(output)).insert(
                        "children_provided"@,
                        JsonView::Num(r.values.len() as u64),
                    );
                    if r.gaps.len() == 0 {
                        JsonView::Obj(done.insert("status"@, JsonView::Str("computed"@)))
                    } else {
                        JsonView::Obj(
                            done.insert("status"@, JsonView::Str("missing-children"@)).insert(
                                "missing_children"@,
                                JsonView::Arr(r.gaps),
                            ),
                        )
                    }
                },
            }
        }
    }
}

fn gap_json(passport: &str, reason: &str, detail: &str) -> (r: Json)
    ensures
        r@ == gap_doc(passport@, reason@, detail@),
{
    broadcast use json_view_cases;

    let mut m: JsonObject = JsonObject::new();
    m.put("passport", passport);
    m.put("reason", reason);
    m.put("detail", detail);
    Json::Obj(m)
}

/// What one active child contributes.
enum Given {
    Gap(Json),
    Counted(Decimal, Option<Decimal>, TrustMarker, Json),
}

fn contribute(
    children: &ChildDocuments,
    id: &str,
    input: &DataPointBinding,
    weight: Option<&DataPointBinding>,
    at: Timestamp,
) -> (r: Given)
    ensures
        match r {
            Given::Gap(g) => contribution(
                children.documents@,
                id@,
                *input,
                opt_binding(weight),
                at,
            ) == Contribution::Gap(g@),
            Given::Counted(v, w, t, e) => contribution(
                children.documents@,
                id@,
                *input,
                opt_binding(weight),
                at,
            ) == Contribution::Given(v, w, t, e@),
        },
{
    broadcast use json_view_cases;

    let child: &Passport = match children.get(id) {
        Some(c) => c,
        None => return Given::Gap(
            gap_json(
                id,
                "document-unavailable",
                "the child document is not resolvable from this projector's passport store",
            ),
        ),
    };
    let state: TwinState = fold(child, at);
    match child_value(child, &state, input) {
        Err(gap) => Given::Gap(
            gap_json(child.passport_id.as_str(), gap.reason, gap.detail.as_str()),
        ),
        Ok((value, fact)) => {
            let weighed: Option<Decimal> = match weight {
                None => None,
                Some(wb) => match child_value(child, &state, wb) {
                    Ok((w, _)) => {
                        if w.is_negative() || w.is_zero() {
                            let detail: String = phrase(
                                "weight fact `",
                                wb.source.as_str(),
                                "` is not a positive quantity",
                            );
                            return Given::Gap(
                                gap_json(id, "weight-not-positive", detail.as_str()),
                            );
                        }
                        Some(w)
                    },
                    Err(gap) => return Given::Gap(
                        gap_json(id, "weight-missing", gap.detail.as_str()),
                    ),
                },
            };
            let mut m: JsonObject = JsonObject::new();
            m.put("passport", id);
            m.put("value", value.to_text().as_str());
            m.put("trust", fact.origin.trust.text());
            m.put_num("sourced_seq", fact.origin.seq);
            match child.state_hash_at(at) {
                Some(h) => m.put("log_head", h.as_str()),
                None => {
                    assert(""@ =~= Seq::<char>::empty()) by {
                        reveal_strlit("");
                    }
                    m.put("log_head", "");
                },
            }
            Given::Counted(value, weighed, fact.origin.trust, Json::Obj(m))
        },
    }
}

/// The binding behind an optional reference.
pub open spec fn opt_binding(b: Option<&DataPointBinding>) -> Option<DataPointBinding> {
    match b {
        Some(x) => Some(*x),
        None => None,
    }
}

fn weakest_of(values: &Vec<Counted>) -> (r: Option<TrustMarker>)
    ensures
        r == weakest(values@, values@.len() as int),
{
    let mut low: Option<TrustMarker> = None;
    let mut i: usize = 0;
    while i < values.len()
        invariant
            i <= values.len(),
            low == weakest(values@, i as int),
        decreases values.len() - i,
    {
        let t: TrustMarker = values[i].2;
        low = match low {
            None => Some(t),
            Some(l) => if t.grade() < l.grade() {
                Some(t)
            } else {
                Some(l)
            },
        };
        i = i + 1;
    }
    low
}

/// A missing sum stays missing.
proof fn totals_stop(values: Seq<Counted>, i: int, n: int)
    requires
        0 <= i <= n,
    ensures
        total(values, i) is None ==> total(values, n) is None,
        weighed_total(values, i) is None ==> weighed_total(values, n) is None,
        weight_total(values, i) is None ==> weight_total(values, n) is None,
    decreases n - i,
{
    if i < n {
        totals_stop(values, i, n - 1);
    }
}

fn sum_of(values: &Vec<Counted>) -> (r: Option<Decimal>)
    ensures
        r == total(values@, values@.len() as int),
{
    let mut t: Decimal = Decimal::zero();
    proof {
        crate::decimal::made_of_valid(t);
    }
    let mut i: usize = 0;
    while i < values.len()
        invariant
            i <= values.len(),
            total(values@, i as int) == Some(t),
        decreases values.len() - i,
    {
        match t.add(&values[i].0) {
            Ok(next) => {
                t = next;
            },
            Err(_) => {
                proof {
                    totals_stop(values@, i as int + 1, values@.len() as int);
                }
                return None;
            },
        }
        i = i + 1;
    }
    Some(t)
}

/// The weighted average over the contributed children, exact or none.
fn weighted_average(values: &Vec<Counted>) -> (r: Option<Decimal>)
    requires
        forall|i: int| 0 <= i < values@.len() ==> (#[trigger] values@[i]).1 is Some,
    ensures
        r == average(values@),
{
    let mut numerator: Decimal = Decimal::zero();
    let mut denominator: Decimal = Decimal::zero();
    proof {
        crate::decimal::made_of_valid(numerator);
        crate::decimal::made_of_valid(denominator);
    }
    let mut i: usize = 0;
    while i < values.len()
        invariant
            i <= values.len(),
            forall|j: int| 0 <= j < values@.len() ==> (#[trigger] values@[j]).1 is Some,
            weighed_total(values@, i as int) == Some(numerator),
            weight_total(values@, i as int) == Some(denominator),
        decreases values.len() - i,
    {
        proof {
            totals_stop(values@, i as int + 1, values@.len() as int);
        }
        let w: Decimal = match values[i].1 {
            Some(w) => w,
            None => return None,
        };
        let p: Decimal = match values[i].0.mul(&w) {
            Ok(p) => p,
            Err(_) => return None,
        };
        numerator = match numerator.add(&p) {
            Ok(x) => x,
            Err(_) => return None,
        };
        denominator = match denominator.add(&w) {
            Ok(x) => x,
            Err(_) => return None,
        };
        i = i + 1;
    }
    div_exact(&numerator, &denominator)
}

fn apply_operation(op: AggregationOperation, values: &Vec<Counted>) -> (r: Result<Decimal, String>)
    requires
        op == AggregationOperation::WeightedAverage ==> (forall|i: int|
            0 <= i < values@.len() ==> (#[trigger] values@[i]).1 is Some),
    ensures
        match r {
            Ok(d) => rollup_result(op, values@) == Ok::<Decimal, Seq<char>>(d),
            Err(e) => rollup_result(op, values@) == Err::<Decimal, Seq<char>>(e@),
        },
{
    match op {
        AggregationOperation::Sum => match sum_of(values) {
            Some(d) => Ok(d),
            None => Err("the exact result leaves the decimal domain".to_string()),
        },
        AggregationOperation::Count => match Decimal::new(values.len() as i128, 0) {
            Ok(d) => Ok(d),
            Err(_) => Err("the exact result leaves the decimal domain".to_string()),
        },
        AggregationOperation::WeightedAverage => match weighted_average(values) {
            Some(d) => Ok(d),
            None => Err(
                phrase(
                    "the weighted average over ",
                    number_text(values.len() as u128).as_str(),
                    " children is not exactly representable in the decimal domain (weight it or restate the inputs) — the projector never rounds silently",
                ),
            ),
        },
    }
}

/// Weighed contributions carry their weight.
proof fn weighed_values(
    children: Map<Seq<char>, Passport>,
    active: Seq<Seq<char>>,
    input: DataPointBinding,
    weight: Option<DataPointBinding>,
    at: Timestamp,
    n: int,
)
    requires
        weight is Some,
    ensures
        forall|i: int|
            0 <= i < rolled(children, active, input, weight, at, n).values.len() ==> (
            #[trigger] rolled(children, active, input, weight, at, n).values[i]).1 is Some,
    decreases n,
{
    if n > 0 {
        weighed_values(children, active, input, weight, at, n - 1);
    }
}

/// Evaluate one aggregation binding over the traversal set and render its
/// transform entry. `root` is the root hash over
/// [`ChildDocuments::root_parts`] of the subject's active children.
pub fn aggregation_json(
    id: &str,
    operation: AggregationOperation,
    input_binding: &DataPointBinding,
    weight_binding: Option<&DataPointBinding>,
    method_citation: &str,
    subject_state: &TwinState,
    children: &ChildDocuments,
    root: &str,
    at: Timestamp,
) -> (r: JsonObject)
    requires
        operation == AggregationOperation::WeightedAverage ==> weight_binding is Some,
    ensures
        JsonView::Obj(r@) == rollup_doc(
            id@,
            operation,
            *input_binding,
            opt_binding(weight_binding),
            method_citation@,
            active_children(subject_state@),
            children.documents@,
            root@,
            at,
        ),
{
    let active: Vec<String> = subject_state.active();
    let ghost ids = texts(active@);
    let ghost weight = opt_binding(weight_binding);
    let mut m: JsonObject = JsonObject::new();
    m.put("id", id);
    m.put("kind", "aggregation");
    m.put("operation", operation.text());
    m.put("input_element", input_binding.element.as_str());
    match weight_binding {
        Some(w) => m.put("weight_element", w.element.as_str()),
        None => {},
    }
    m.put("method_citation", method_citation);
    m.put_num("children_required", active.len() as u64);
    m.put("input_set_root", root);
    if active.len() == 0 {
        m.put("status", "failed");
        let at_text: String = at.to_text();
        m.put(
            "error",
            phrase(
                "the subject carries no active child edges as-of ",
                at_text.as_str(),
                " — there is no traversal set to aggregate",
            ).as_str(),
        );
        return m;
    }
    let mut inputs: Vec<Json> = Vec::new();
    let mut gaps: Vec<Json> = Vec::new();
    let mut values: Vec<Counted> = Vec::new();
    let mut i: usize = 0;
    assert(json_views(inputs@) =~= Seq::<JsonView>::empty());
    assert(json_views(gaps@) =~= Seq::<JsonView>::empty());
    while i < active.len()
        invariant
            i <= active.len(),
            ids == texts(active@),
            weight == opt_binding(weight_binding),
            rolled(children.documents@, ids, *input_binding, weight, at, i as int) == (Rollup {
                inputs: json_views(inputs@),
                gaps: json_views(gaps@),
                values: values@,
            }),
        decreases active.len() - i,
    {
        assert(ids[i as int] == active@[i as int]@);
        let ghost (inputs0, gaps0) = (inputs@, gaps@);
        match contribute(children, active[i].as_str(), input_binding, weight_binding, at) {
            Given::Gap(g) => {
                gaps.push(g);
                assert(json_views(gaps@) =~= json_views(gaps0).push(g@));
            },
            Given::Counted(v, w, t, e) => {
                inputs.push(e);
                values.push((v, w, t));
                assert(json_views(inputs@) =~= json_views(inputs0).push(e@));
            },
        }
        i = i + 1;
    }
    proof {
        if weight is Some {
            weighed_values(
                children.documents@,
                ids,
                *input_binding,
                weight,
                at,
                active@.len() as int,
            );
        }
    }
    m.put_arr("inputs", inputs);
    match weakest_of(&values) {
        Some(t) => m.put("trust", t.text()),
        None => {},
    }
    if values.len() == 0 {
        m.put("status", "missing-children");
        m.put_arr("missing_children", gaps);
        return m;
    }
    match apply_operation(operation, &values) {
        Ok(amount) => {
            let mut output: JsonObject = JsonObject::new();
            output.put("amount", amount.to_text().as_str());
            match &input_binding.declared_unit {
                Some(u) => output.put("unit", u.as_str()),
                None => {},
            }
            m.put_obj("output", output);
            m.put_num("children_provided", values.len() as u64);
            if gaps.len() == 0 {
                m.put("status", "computed");
            } else {
                m.put("status", "missing-children");
                m.put_arr("missing_children", gaps);
            }
        },
        Err(why) => {
            m.put("status", "failed");
            m.put("error", why.as_str());
        },
    }
    m
}

/// The child contributes a value.
pub open spec fn gives(
    children: Map<Seq<char>, Passport>,
    id: Seq<char>,
    input: DataPointBinding,
    weight: Option<DataPointBinding>,
    at: Timestamp,
) -> bool {
    contribution(children, id, input, weight, at) is Given
}

/// Every active child is accounted for exactly once: its id stands among the
/// inputs where it gives a value, else among the gaps, both in id order, and
/// every input carries a value.
pub proof fn every_child_is_input_or_gap(
    children: Map<Seq<char>, Passport>,
    active: Seq<Seq<char>>,
    input: DataPointBinding,
    weight: Option<DataPointBinding>,
    at: Timestamp,
    n: int,
)
    requires
        0 <= n <= active.len(),
        forall|id: Seq<char>| #[trigger]
            children.contains_key(id) ==> children[id].passport_id@ == id,
    ensures
        ({
            let r = rolled(children, active, input, weight, at, n);
            r.inputs.len() + r.gaps.len() == n && r.values.len() == r.inputs.len()
        }),
        named_by(rolled(children, active, input, weight, at, n).inputs, "passport"@) == all_some(
            active.take(n).filter(|id: Seq<char>| gives(children, id, input, weight, at)),
        ),
        named_by(rolled(children, active, input, weight, at, n).gaps, "passport"@) == all_some(
            active.take(n).filter(|id: Seq<char>| !gives(children, id, input, weight, at)),
        ),
    decreases n,
{
    reveal(Seq::filter);
    let yes = |id: Seq<char>| gives(children, id, input, weight, at);
    let no = |id: Seq<char>| !gives(children, id, input, weight, at);
    let now = rolled(children, active, input, weight, at, n);
    if n > 0 {
        every_child_is_input_or_gap(children, active, input, weight, at, n - 1);
        let was = rolled(children, active, input, weight, at, n - 1);
        let id = active[n - 1];
        assert(active.take(n).drop_last() =~= active.take(n - 1));
        entries_name_their_child(children, id, input, weight, at);
        match contribution(children, id, input, weight, at) {
            Contribution::Given(_, _, _, entry) => {
                assert(named_by(now.inputs, "passport"@) =~= named_by(was.inputs, "passport"@).push(
                    member_str(entry, "passport"@),
                ));
                assert(all_some(active.take(n - 1).filter(yes).push(id)) =~= all_some(
                    active.take(n - 1).filter(yes),
                ).push(Some(id)));
            },
            Contribution::Gap(gap) => {
                assert(named_by(now.gaps, "passport"@) =~= named_by(was.gaps, "passport"@).push(
                    member_str(gap, "passport"@),
                ));
                assert(all_some(active.take(n - 1).filter(no).push(id)) =~= all_some(
                    active.take(n - 1).filter(no),
                ).push(Some(id)));
            },
        }
    } else {
        assert(active.take(0) =~= Seq::<Seq<char>>::empty());
        assert(named_by(now.inputs, "passport"@) =~= all_some(active.take(0).filter(yes)));
        assert(named_by(now.gaps, "passport"@) =~= all_some(active.take(0).filter(no)));
    }
}

proof fn entries_name_their_child(
    children: Map<Seq<char>, Passport>,
    id: Seq<char>,
    input: DataPointBinding,
    weight: Option<DataPointBinding>,
    at: Timestamp,
)
    requires
        children.contains_key(id) ==> children[id].passport_id@ == id,
    ensures
        match contribution(children, id, input, weight, at) {
            Contribution::Given(_, _, _, entry) => member_str(entry, "passport"@) == Some(id),
            Contribution::Gap(gap) => member_str(gap, "passport"@) == Some(id),
        },
{
    reveal_strlit("passport");
    reveal_strlit("reason");
    reveal_strlit("detail");
    reveal_strlit("value");
    reveal_strlit("trust");
    reveal_strlit("sourced_seq");
    reveal_strlit("log_head");
    assert("passport"@.len() == 8 && "passport"@[0] == 'p' && "log_head"@[0] == 'l');
    assert("reason"@.len() == 6 && "detail"@.len() == 6 && "value"@.len() == 5 && "trust"@.len() == 5
        && "sourced_seq"@.len() == 11);
}

/// A roll-up is never more trustworthy than its weakest input: its trust is
/// that of one of the inputs, and no input's is lower.
pub proof fn rollup_trust_is_weakest(values: Seq<Counted>, n: int)
    requires
        0 < n <= values.len(),
    ensures
        weakest(values, n) is Some,
        forall|i: int|
            0 <= i < n ==> trust_grade(weakest(values, n)->0) <= trust_grade(
                (#[trigger] values[i]).2,
            ),
        exists|i: int| 0 <= i < n && weakest(values, n)->0 == (#[trigger] values[i]).2,
    decreases n,
{
    if n > 1 {
        rollup_trust_is_weakest(values, n - 1);
        let t = values[n - 1].2;
        let low = weakest(values, n - 1)->0;
        if trust_grade(t) < trust_grade(low) {
            assert(weakest(values, n)->0 == values[n - 1].2);
        } else {
            let i = choose|i: int| 0 <= i < n - 1 && low == (#[trigger] values[i]).2;
            assert(weakest(values, n)->0 == values[i].2);
        }
    } else {
        assert(weakest(values, 0) is None);
        assert(weakest(values, n)->0 == values[0].2);
    }
}

/// The values and weights are decimals of the domain.
pub open spec fn all_valid(values: Seq<Counted>) -> bool {
    forall|i: int|
        0 <= i < values.len() ==> (#[trigger] values[i]).0.valid() && (values[i].1 is Some
            ==> values[i].1->0.valid())
}

/// The sum of the first `n` numbers.
pub open spec fn sum_of_values(values: Seq<Counted>, n: int) -> int
    decreases n,
{
    if n <= 0 {
        0
    } else {
        sum_of_values(values, n - 1) + values[n - 1].0.value()
    }
}

/// The sum of the first `n` weights.
pub open spec fn sum_of_weights(values: Seq<Counted>, n: int) -> int
    decreases n,
{
    if n <= 0 {
        0
    } else {
        sum_of_weights(values, n - 1) + values[n - 1].1->0.value()
    }
}

/// The sum of the first `n` products of number and weight.
pub open spec fn sum_of_products(values: Seq<Counted>, n: int) -> int
    decreases n,
{
    if n <= 0 {
        0
    } else {
        sum_of_products(values, n - 1) + values[n - 1].0.value() * values[n - 1].1->0.value()
    }
}

proof fn zero_facts()
    ensures
        Decimal::of_parts(0, 0).valid(),
        Decimal::of_parts(0, 0).value() == 0,
{
    made_facts(0, 0);
    assert(0 * pow10(0 + EXP_LIMIT) == 0) by (nonlinear_arith);
}

/// A summed roll-up is the sum of its inputs, exactly.
pub proof fn rollup_sum_is_exact(values: Seq<Counted>, n: int)
    requires
        0 <= n <= values.len(),
        all_valid(values),
        total(values, n) is Some,
    ensures
        total(values, n)->0.valid(),
        total(values, n)->0.value() == sum_of_values(values, n),
    decreases n,
{
    if n > 0 {
        rollup_sum_is_exact(values, n - 1);
        crate::decimal::sum_is_exact(total(values, n - 1)->0, values[n - 1].0);
    } else {
        zero_facts();
    }
}

proof fn weight_total_is_exact(values: Seq<Counted>, n: int)
    requires
        0 <= n <= values.len(),
        all_valid(values),
        forall|i: int| 0 <= i < values.len() ==> (#[trigger] values[i]).1 is Some,
        weight_total(values, n) is Some,
    ensures
        weight_total(values, n)->0.valid(),
        weight_total(values, n)->0.value() == sum_of_weights(values, n),
    decreases n,
{
    if n > 0 {
        weight_total_is_exact(values, n - 1);
        assert(values[n - 1].0.valid());
        crate::decimal::sum_is_exact(weight_total(values, n - 1)->0, values[n - 1].1->0);
    } else {
        zero_facts();
    }
}

proof fn weighed_total_is_exact(values: Seq<Counted>, n: int)
    requires
        0 <= n <= values.len(),
        all_valid(values),
        forall|i: int| 0 <= i < values.len() ==> (#[trigger] values[i]).1 is Some,
        weighed_total(values, n) is Some,
    ensures
        weighed_total(values, n)->0.valid(),
        weighed_total(values, n)->0.value() * pow10(EXP_LIMIT as int) == sum_of_products(values, n),
    decreases n,
{
    let g = pow10(EXP_LIMIT as int);
    if n > 0 {
        weighed_total_is_exact(values, n - 1);
        assert(values[n - 1].0.valid());
        let t = weighed_total(values, n - 1)->0;
        let p = product(values[n - 1].0, values[n - 1].1->0)->0;
        crate::decimal::product_is_exact(values[n - 1].0, values[n - 1].1->0);
        crate::decimal::sum_is_exact(t, p);
        assert((t.value() + p.value()) * g == t.value() * g + p.value() * g) by (nonlinear_arith);
    } else {
        zero_facts();
        assert(0 * g == 0) by (nonlinear_arith);
    }
}

/// A weighted average is exact: times the sum of the weights it is the sum of
/// the weighed values.
pub proof fn rollup_average_is_exact(values: Seq<Counted>)
    requires
        all_valid(values),
        forall|i: int| 0 <= i < values.len() ==> (#[trigger] values[i]).1 is Some,
        average(values) is Some,
    ensures
        average(values)->0.value() * sum_of_weights(values, values.len() as int)
            == sum_of_products(values, values.len() as int),
{
    let n = values.len() as int;
    weighed_total_is_exact(values, n);
    weight_total_is_exact(values, n);
    quotient_is_exact(weighed_total(values, n)->0, weight_total(values, n)->0);
}

/// `later` is the child document `early` after more events, all of them after
/// the instant.
pub open spec fn has_grown_since(early: Passport, later: Passport, at: Timestamp) -> bool {
    &&& later.passport_id@ == early.passport_id@
    &&& later.capability == early.capability
    &&& early.log@.len() <= later.log@.len()
    &&& later.log@.take(early.log@.len() as int) == early.log@
    &&& forall|i: int|
        early.log@.len() <= i < later.log@.len() ==> (
        #[trigger] later.log@[i]).event.occurred_at.secs > at.secs
}

/// The same children, some of whose logs have grown by events after the
/// instant.
pub open spec fn have_grown_since(
    early: Map<Seq<char>, Passport>,
    later: Map<Seq<char>, Passport>,
    at: Timestamp,
) -> bool {
    &&& forall|id: Seq<char>| #[trigger] early.contains_key(id) <==> later.contains_key(id)
    &&& forall|id: Seq<char>| #[trigger]
        early.contains_key(id) ==> has_grown_since(early[id], later[id], at)
}

proof fn a_grown_child_reads_the_same(early: Passport, later: Passport, at: Timestamp)
    requires
        has_grown_since(early, later, at),
    ensures
        folded(later.log@, at) == folded(early.log@, at),
        head_at(later.log@, at) == head_at(early.log@, at),
{
    let n = early.log@.len() as int;
    let more = later.log@.skip(n);
    assert(later.log@ =~= early.log@ + more);
    assert forall|i: int| 0 <= i < more.len() implies (
    #[trigger] more[i]).event.occurred_at.secs > at.secs by {
        assert(more[i] == later.log@[n + i]);
    }
    later_events_are_not_seen(early.log@, more, at);
    later_heads_are_not_seen(early.log@, more, at);
}

proof fn a_grown_child_contributes_the_same(
    early: Map<Seq<char>, Passport>,
    later: Map<Seq<char>, Passport>,
    id: Seq<char>,
    input: DataPointBinding,
    weight: Option<DataPointBinding>,
    at: Timestamp,
)
    requires
        have_grown_since(early, later, at),
    ensures
        contribution(early, id, input, weight, at) == contribution(later, id, input, weight, at),
        child_head(early, id, at) == child_head(later, id, at),
{
    if early.contains_key(id) {
        a_grown_child_reads_the_same(early[id], later[id], at);
    }
}

proof fn grown_children_roll_up_the_same(
    early: Map<Seq<char>, Passport>,
    later: Map<Seq<char>, Passport>,
    active: Seq<Seq<char>>,
    input: DataPointBinding,
    weight: Option<DataPointBinding>,
    at: Timestamp,
    n: int,
)
    requires
        have_grown_since(early, later, at),
    ensures
        rolled(early, active, input, weight, at, n) == rolled(later, active, input, weight, at, n),
        committed(early, active, at, n) == committed(later, active, at, n),
    decreases n,
{
    if n > 0 {
        grown_children_roll_up_the_same(early, later, active, input, weight, at, n - 1);
        a_grown_child_contributes_the_same(early, later, active[n - 1], input, weight, at);
    }
}

/// A roll-up as-of an instant does not depend on what happened to the
/// children after it: where their logs have grown by later events only, the
/// entry is the same, and so is what its root commits to.
pub proof fn later_child_events_do_not_change_the_rollup(
    id: Seq<char>,
    op: AggregationOperation,
    input: DataPointBinding,
    weight: Option<DataPointBinding>,
    citation: Seq<char>,
    active: Seq<Seq<char>>,
    early: Map<Seq<char>, Passport>,
    later: Map<Seq<char>, Passport>,
    root: Seq<char>,
    at: Timestamp,
)
    requires
        have_grown_since(early, later, at),
    ensures
        rollup_doc(id, op, input, weight, citation, active, early, root, at) == rollup_doc(
            id,
            op,
            input,
            weight,
            citation,
            active,
            later,
            root,
            at,
        ),
        committed(early, active, at, active.len() as int) == committed(
            later,
            active,
            at,
            active.len() as int,
        ),
{
    grown_children_roll_up_the_same(
        early,
        later,
        active,
        input,
        weight,
        at,
        active.len() as int,
    );
}

/// The binding finds a number in the child as-of the instant: the child's
/// capability reaches the binding's gate, its log states the fact by then,
/// with enough trust, and the fact is a number.
pub open spec fn finds_number(child: Passport, b: DataPointBinding, at: Timestamp) -> bool {
    let facts = folded(child.log@, at).facts;
    &&& capability_rank(child.capability) >= capability_rank(b.min_capability)
    &&& facts.contains_key(b.source@)
    &&& trust_grade(facts[b.source@].origin.trust) >= trust_grade(b.min_trust)
    &&& facts[b.source@].value is Num
}

/// The number that the binding finds in the child as-of the instant.
pub open spec fn number_found(child: Passport, b: DataPointBinding, at: Timestamp) -> Decimal {
    folded(child.log@, at).facts[b.source@].value->Num_0
}

/// What an active child contributes: the number that the input binding finds
/// in it as-of the instant, with its weight where the roll-up weighs, the
/// trust of the event that wrote it, and an entry that shows them. It is a
/// gap exactly where it has no document, the input binding finds no number,
/// or the weight binding finds none above zero; and the gap says which.
#[verifier::rlimit(60)]
#[verifier::spinoff_prover]
pub proof fn children_contribute_what_their_logs_state(
    children: Map<Seq<char>, Passport>,
    id: Seq<char>,
    input: DataPointBinding,
    weight: Option<DataPointBinding>,
    at: Timestamp,
)
    ensures
        ({
            let c = contribution(children, id, input, weight, at);
            let child = children[id];
            let facts = folded(child.log@, at).facts;
            let given = children.contains_key(id) && finds_number(child, input, at) && (
            weight is Some ==> finds_number(child, weight->0, at) && number_found(
                child,
                weight->0,
                at,
            ).mant() > 0);
            &&& c is Given <==> given
            &&& given ==> {
                let fact = facts[input.source@];
                &&& c->Given_0 == number_found(child, input, at)
                &&& weight is Some ==> c->Given_1 == Some(number_found(child, weight->0, at))
                &&& weight is None ==> c->Given_1 is None
                &&& c->Given_2 == fact.origin.trust
                &&& member_str(c->Given_3, "passport"@) == Some(id)
                &&& member_str(c->Given_3, "value"@) == Some(
                    decimal_text(number_found(child, input, at)),
                )
                &&& member_str(c->Given_3, "trust"@) == Some(trust_text(fact.origin.trust))
                &&& member_view(c->Given_3, "sourced_seq"@) == Some(JsonView::Num(fact.origin.seq))
                &&& head_at(child.log@, at) is Some ==> member_str(c->Given_3, "log_head"@)
                    == head_at(child.log@, at)
            }
            &&& !children.contains_key(id) ==> member_str(c->Gap_0, "passport"@) == Some(id)
                && member_str(c->Gap_0, "reason"@) == Some("document-unavailable"@)
            &&& children.contains_key(id) && !finds_number(child, input, at) ==> member_str(
                c->Gap_0,
                "passport"@,
            ) == Some(child.passport_id@) && member_str(c->Gap_0, "reason"@) == Some(
                if capability_rank(child.capability) < capability_rank(input.min_capability) {
                    "capability-gate"@
                } else if !facts.contains_key(input.source@) {
                    "absent-as-of"@
                } else if trust_grade(facts[input.source@].origin.trust) < trust_grade(
                    input.min_trust,
                ) {
                    "below-trust-floor"@
                } else {
                    "not-numeric"@
                },
            )
            &&& children.contains_key(id) && finds_number(child, input, at) && !given
                ==> member_str(c->Gap_0, "passport"@) == Some(id) && member_str(
                c->Gap_0,
                "reason"@,
            ) == Some(
                if finds_number(child, weight->0, at) {
                    "weight-not-positive"@
                } else {
                    "weight-missing"@
                },
            )
        }),
{
    member_names_differ();
}

/// The value a child gives is the number that its own log last wrote at or
/// before the instant: where entry `i` is a counted milestone with the input
/// path among its counters, and no later counted entry names the path, the
/// child gives that counter, with that entry's trust and sequence number.
pub proof fn a_child_gives_its_last_measurement(
    children: Map<Seq<char>, Passport>,
    id: Seq<char>,
    input: DataPointBinding,
    at: Timestamp,
    i: int,
)
    requires
        children.contains_key(id),
        capability_rank(children[id].capability) >= capability_rank(input.min_capability),
        0 <= i < children[id].log@.len(),
        ({
            let log = children[id].log@;
            let e = log[i].event;
            &&& e.occurred_at.secs <= at.secs
            &&& e.payload is MilestoneRecord
            &&& e.payload->counters@.contains_key(input.source@)
            &&& trust_grade(e.trust) >= trust_grade(input.min_trust)
            &&& forall|j: int|
                i < j < log.len() && (#[trigger] log[j]).event.occurred_at.secs <= at.secs
                    ==> !names_path(log[j].event, input.source@)
        }),
    ensures
        ({
            let c = contribution(children, id, input, None, at);
            let e = children[id].log@[i].event;
            &&& c is Given
            &&& c->Given_0 == e.payload->counters@[input.source@]
            &&& c->Given_2 == e.trust
            &&& member_str(c->Given_3, "value"@) == Some(
                decimal_text(e.payload->counters@[input.source@]),
            )
            &&& member_view(c->Given_3, "sourced_seq"@) == Some(JsonView::Num(e.seq))
        }),
{
    the_last_measurement_stands(children[id].log@, at, i, input.source@);
    children_contribute_what_their_logs_state(children, id, input, None, at);
}

/// How the lists of a roll-up grow with one more active child: what it gives
/// is added to the inputs and the values, or its gap to the gaps, and nothing
/// else changes.
pub proof fn each_active_child_adds_one_entry(
    children: Map<Seq<char>, Passport>,
    active: Seq<Seq<char>>,
    input: DataPointBinding,
    weight: Option<DataPointBinding>,
    at: Timestamp,
    n: int,
)
    requires
        0 < n <= active.len(),
    ensures
        ({
            let was = rolled(children, active, input, weight, at, n - 1);
            let now = rolled(children, active, input, weight, at, n);
            let c = contribution(children, active[n - 1], input, weight, at);
            &&& c is Given ==> now.gaps == was.gaps && now.inputs == was.inputs.push(c->Given_3)
                && now.values == was.values.push((c->Given_0, c->Given_1, c->Given_2))
            &&& c is Gap ==> now.inputs == was.inputs && now.values == was.values && now.gaps
                == was.gaps.push(c->Gap_0)
            &&& rolled(children, active, input, weight, at, 0).values.len() == 0
            &&& rolled(children, active, input, weight, at, 0).inputs.len() == 0
            &&& rolled(children, active, input, weight, at, 0).gaps.len() == 0
        }),
{
}

/// What every roll-up shows, whatever comes of it: the operation by its name,
/// the elements it reads, the method it follows, how many children are
/// active, and the root of the set.
pub proof fn rollups_show_their_method(
    id: Seq<char>,
    op: AggregationOperation,
    input: DataPointBinding,
    weight: Option<DataPointBinding>,
    citation: Seq<char>,
    active: Seq<Seq<char>>,
    children: Map<Seq<char>, Passport>,
    root: Seq<char>,
    at: Timestamp,
)
    requires
        active.len() <= u64::MAX,
    ensures
        ({
            let doc = rollup_doc(id, op, input, weight, citation, active, children, root, at);
            &&& member_str(doc, "id"@) == Some(id)
            &&& member_str(doc, "kind"@) == Some("aggregation"@)
            &&& member_str(doc, "operation"@) == Some(
                if op == AggregationOperation::Sum {
                    "sum"@
                } else if op == AggregationOperation::Count {
                    "count"@
                } else {
                    "weighted-average"@
                },
            )
            &&& member_str(doc, "input_element"@) == Some(input.element@)
            &&& weight is Some ==> member_str(doc, "weight_element"@) == Some(weight->0.element@)
            &&& weight is None ==> member_view(doc, "weight_element"@) is None
            &&& member_str(doc, "method_citation"@) == Some(citation)
            &&& member_str(doc, "input_set_root"@) == Some(root)
            &&& member_view(doc, "children_required"@) == Some(JsonView::Num(active.len() as u64))
            &&& active.len() == 0 ==> member_str(doc, "status"@) == Some("failed"@) && member_view(
                doc,
                "output"@,
            ) is None && member_str(doc, "error"@) == Some(
                "the subject carries no active child edges as-of "@ + instant_text(at)
                    + " — there is no traversal set to aggregate"@,
            )
        }),
{
    member_names_differ();
}

/// The entry shows the number `d` as its output, in the input's unit.
pub open spec fn shows_output(doc: JsonView, d: Decimal, input: DataPointBinding) -> bool {
    let out = member_view(doc, "output"@);
    &&& out is Some
    &&& member_str(out->0, "amount"@) == Some(decimal_text(d))
    &&& input.declared_unit is Some ==> member_str(out->0, "unit"@) == Some(input.declared_unit->0@)
    &&& input.declared_unit is None ==> member_view(out->0, "unit"@) is None
}

/// What a roll-up over active children shows of its result: a sum is the sum
/// of the given numbers, a count their number, a weighted average times the
/// weights is the weighed sum, all exactly; the inputs and gaps are shown as
/// they are, the trust is the weakest, and only a roll-up without gaps is
/// `computed`.
#[verifier::rlimit(60)]
#[verifier::spinoff_prover]
pub proof fn rollups_show_their_result(
    id: Seq<char>,
    op: AggregationOperation,
    input: DataPointBinding,
    weight: Option<DataPointBinding>,
    citation: Seq<char>,
    active: Seq<Seq<char>>,
    children: Map<Seq<char>, Passport>,
    root: Seq<char>,
    at: Timestamp,
)
    requires
        0 < active.len() <= u64::MAX,
        op == AggregationOperation::WeightedAverage ==> weight is Some,
        all_valid(rolled(children, active, input, weight, at, active.len() as int).values),
    ensures
        ({
            let doc = rollup_doc(id, op, input, weight, citation, active, children, root, at);
            let r = rolled(children, active, input, weight, at, active.len() as int);
            let n = r.values.len() as int;
            &&& member_view(doc, "inputs"@) == Some(JsonView::Arr(r.inputs))
            &&& n == 0 ==> {
                &&& member_str(doc, "status"@) == Some("missing-children"@)
                &&& member_view(doc, "missing_children"@) == Some(JsonView::Arr(r.gaps))
                &&& member_view(doc, "output"@) is None
                &&& member_view(doc, "trust"@) is None
            }
            &&& n > 0 ==> member_str(doc, "trust"@) == Some(trust_text(weakest(r.values, n)->0))
            &&& n > 0 && member_view(doc, "output"@) is None ==> {
                &&& member_str(doc, "status"@) == Some("failed"@)
                &&& op != AggregationOperation::Count
                &&& op == AggregationOperation::Sum ==> total(r.values, n) is None
                &&& op == AggregationOperation::WeightedAverage ==> average(r.values) is None
            }
            &&& n > 0 && member_view(doc, "output"@) is Some ==> {
                &&& member_view(doc, "children_provided"@) == Some(JsonView::Num(n as u64))
                &&& r.gaps.len() == 0 ==> member_str(doc, "status"@) == Some("computed"@)
                    && member_view(doc, "missing_children"@) is None
                &&& r.gaps.len() > 0 ==> member_str(doc, "status"@) == Some("missing-children"@)
                    && member_view(doc, "missing_children"@) == Some(JsonView::Arr(r.gaps))
                &&& exists|d: Decimal| #[trigger]
                    d.valid() && shows_output(doc, d, input) && (match op {
                        AggregationOperation::Sum => d.value() == sum_of_values(r.values, n),
                        AggregationOperation::Count => d.value() == n * pow10(EXP_LIMIT as int),
                        AggregationOperation::WeightedAverage => d.value() * sum_of_weights(
                            r.values,
                            n,
                        ) == sum_of_products(r.values, n),
                    })
            }
        }),
{
    member_names_differ();
    let doc = rollup_doc(id, op, input, weight, citation, active, children, root, at);
    let r = rolled(children, active, input, weight, at, active.len() as int);
    let n = r.values.len() as int;
    rolled_lengths(children, active, input, weight, at, active.len() as int);
    if n > 0 {
        rollup_trust_is_weakest(r.values, n);
        counts_are_numbers(n);
        match rollup_result(op, r.values) {
            Ok(d) => {
                match op {
                    AggregationOperation::Sum => rollup_sum_is_exact(r.values, n),
                    AggregationOperation::Count => made_facts(n, 0),
                    AggregationOperation::WeightedAverage => {
                        weighed_values(
                            children,
                            active,
                            input,
                            weight,
                            at,
                            active.len() as int,
                        );
                        rollup_average_is_exact(r.values);
                        weighed_total_is_exact(r.values, n);
                        weight_total_is_exact(r.values, n);
                        quotient_is_exact(
                            weighed_total(r.values, n)->0,
                            weight_total(r.values, n)->0,
                        );
                    },
                }
                assert(d.valid() && shows_output(doc, d, input));
            },
            Err(_) => {},
        }
    }
}

proof fn rolled_lengths(
    children: Map<Seq<char>, Passport>,
    active: Seq<Seq<char>>,
    input: DataPointBinding,
    weight: Option<DataPointBinding>,
    at: Timestamp,
    n: int,
)
    requires
        0 <= n <= active.len(),
    ensures
        rolled(children, active, input, weight, at, n).values.len() <= n,
    decreases n,
{
    if n > 0 {
        rolled_lengths(children, active, input, weight, at, n - 1);
    }
}

proof fn counts_are_numbers(n: int)
    requires
        0 < n <= u64::MAX,
    ensures
        Decimal::made(n, 0) is Some,
{
    reduced_facts(n, 0);
    let (m, t) = reduced(n, 0);
    if t > 64 {
        lemma_pow_increases(10, 64, t as nat);
        crate::primmel::ten_to_38();
        lemma_pow_increases(10, 38, 64);
        let p = pow10(t);
        assert(n > u64::MAX || n < 0) by (nonlinear_arith)
            requires
                n == m * p,
                m != 0,
                p > u64::MAX,
        ;
    }
}

/// Adding up refuses nothing that it could give: where every partial sum is a
/// number of the domain and has room beside the next, the sum is found.
pub proof fn sums_of_children_are_found(values: Seq<Counted>, partial: Seq<Decimal>, n: int)
    requires
        0 <= n <= values.len(),
        partial.len() == n + 1,
        all_valid(values),
        forall|k: int|
            0 <= k <= n ==> (#[trigger] partial[k]).valid() && partial[k].value() == sum_of_values(
                values,
                k,
            ),
        forall|k: int|
            0 <= k < n ==> within((#[trigger] partial[k]).value(), partial[k], values[k].0)
                && within(values[k].0.value(), partial[k], values[k].0) && within(
                partial[k + 1].value(),
                partial[k],
                values[k].0,
            ),
    ensures
        total(values, n) == Some(partial[n]),
    decreases n,
{
    assert(partial[n].valid());
    if n > 0 {
        let fewer = partial.drop_last();
        assert forall|k: int| 0 <= k <= n - 1 implies (#[trigger] fewer[k]).valid()
            && fewer[k].value() == sum_of_values(values, k) by {
            assert(fewer[k] == partial[k]);
        }
        assert forall|k: int| 0 <= k < n - 1 implies within(
            (#[trigger] fewer[k]).value(),
            fewer[k],
            values[k].0,
        ) && within(values[k].0.value(), fewer[k], values[k].0) && within(
            fewer[k + 1].value(),
            fewer[k],
            values[k].0,
        ) by {
            assert(fewer[k] == partial[k] && fewer[k + 1] == partial[k + 1]);
        }
        sums_of_children_are_found(values, fewer, n - 1);
        assert(partial[n - 1].valid());
        assert(within(partial[n - 1].value(), partial[n - 1], values[n - 1].0));
        assert(values[n - 1].0.valid());
        sums_in_the_domain_are_found(partial[n - 1], values[n - 1].0, partial[n]);
    } else {
        zero_facts();
        same_value_same_decimal(partial[0], Decimal::of_parts(0, 0));
    }
}

/// Documents are keyed by their own ids, and of two with one id the later
/// counts.
pub proof fn the_later_document_counts(documents: Seq<Passport>, k: int)
    requires
        0 <= k < documents.len(),
        forall|j: int|
            k < j < documents.len() ==> (#[trigger] documents[j]).passport_id@
                != documents[k].passport_id@,
    ensures
        keyed(documents, documents.len() as int).contains_key(documents[k].passport_id@),
        keyed(documents, documents.len() as int)[documents[k].passport_id@] == documents[k],
        forall|id: Seq<char>| #[trigger]
            keyed(documents, documents.len() as int).contains_key(id) ==> exists|j: int|
                0 <= j < documents.len() && (#[trigger] documents[j]).passport_id@ == id,
{
    keyed_holds(documents, k, documents.len() as int);
    assert forall|id: Seq<char>| #[trigger]
        keyed(documents, documents.len() as int).contains_key(id) implies exists|j: int|
        0 <= j < documents.len() && (#[trigger] documents[j]).passport_id@ == id by {
        keyed_by_own_id(documents, id, documents.len() as int);
    }
}

proof fn keyed_holds(documents: Seq<Passport>, k: int, n: int)
    requires
        0 <= k < n <= documents.len(),
        forall|j: int|
            k < j < documents.len() ==> (#[trigger] documents[j]).passport_id@
                != documents[k].passport_id@,
    ensures
        keyed(documents, n).contains_key(documents[k].passport_id@),
        keyed(documents, n)[documents[k].passport_id@] == documents[k],
    decreases n,
{
    if k < n - 1 {
        keyed_holds(documents, k, n - 1);
        assert(documents[n - 1].passport_id@ != documents[k].passport_id@);
    }
}

proof fn keyed_by_own_id(documents: Seq<Passport>, id: Seq<char>, n: int)
    requires
        0 <= n <= documents.len(),
        keyed(documents, n).contains_key(id),
    ensures
        exists|j: int| 0 <= j < n && (#[trigger] documents[j]).passport_id@ == id,
    decreases n,
{
    if documents[n - 1].passport_id@ != id {
        keyed_by_own_id(documents, id, n - 1);
    }
}

/// The division of `n` by `d` comes out at `k` places, with the result `q`.
pub open spec fn divides_at(n: Decimal, d: Decimal, q: Decimal, k: int) -> bool {
    0 <= k <= 18 && fits(n.mant() * pow10(k)) && n.exp() - k <= q.exp() + d.exp()
}

/// A division refuses nothing that it could give: where the product of a
/// number of the domain with the divisor is the dividend, and the division
/// comes out within the places that are tried, that number is the result.
pub proof fn quotients_in_the_domain_are_found(n: Decimal, d: Decimal, q: Decimal, k: int)
    requires
        n.valid(),
        d.valid(),
        q.valid(),
        d.mant() != 0,
        q.value() * d.value() == n.value() * pow10(EXP_LIMIT as int),
        divides_at(n, d, q, k),
    ensures
        quotient(n, d) == Some(q),
{
    quotient_found_by(n, d, q, 0, k);
}

#[verifier::rlimit(60)]
#[verifier::spinoff_prover]
proof fn quotient_found_by(n: Decimal, d: Decimal, q: Decimal, j: int, k: int)
    requires
        n.valid(),
        d.valid(),
        q.valid(),
        d.mant() != 0,
        q.value() * d.value() == n.value() * pow10(EXP_LIMIT as int),
        0 <= j <= k <= 18,
        fits(n.mant() * pow10(k)),
        n.exp() - k <= q.exp() + d.exp(),
    ensures
        quotient_from(n, d, j) == Some(q),
    decreases k - j,
{
    let l = EXP_LIMIT as int;
    let (a, c) = (pow10(j), pow10(k - j));
    lemma_pow_positive(10, j as nat);
    lemma_pow_positive(10, (k - j) as nat);
    lemma_pow_adds(10, j as nat, (k - j) as nat);
    let s = n.mant() * a;
    assert(-i128::MAX <= s <= i128::MAX) by (nonlinear_arith)
        requires
            s == n.mant() * a,
            -i128::MAX <= n.mant() * (a * c) <= i128::MAX,
            c > 0,
    ;
    // q.mant * d.mant * 10^(q.exp + d.exp + 2l) == n.mant * 10^(n.exp + 2l)
    let t = q.exp() + d.exp() + 2 * l;
    let u = n.exp() + 2 * l;
    let (qp, dp, np, lp) = (pow10(q.exp() + l), pow10(d.exp() + l), pow10(n.exp() + l), pow10(l));
    lemma_pow_adds(10, (q.exp() + l) as nat, (d.exp() + l) as nat);
    lemma_pow_adds(10, (n.exp() + l) as nat, l as nat);
    let g = q.mant() * d.mant();
    assert((q.mant() * qp) * (d.mant() * dp) == g * (qp * dp)) by (nonlinear_arith)
        requires
            g == q.mant() * d.mant(),
    ;
    assert((n.mant() * np) * lp == n.mant() * (np * lp)) by (nonlinear_arith);
    assert(g * pow10(t) == n.mant() * pow10(u));
    lemma_pow_adds(10, t as nat, k as nat);
    lemma_pow_adds(10, u as nat, j as nat);
    let e = n.exp() - d.exp() - j;
    if s % d.mant() == 0 {
        let m = s / d.mant();
        assert(s == d.mant() * m) by (nonlinear_arith)
            requires
                s % d.mant() == 0,
                m == s / d.mant(),
                d.mant() != 0,
        ;
        // q.mant * 10^(q.exp + d.exp + 2l + j) == m * 10^(n.exp + 2l)
        lemma_pow_adds(10, t as nat, j as nat);
        let (x, y) = (pow10(t) * a, pow10(u));
        assert(g * x == n.mant() * a * y) by (nonlinear_arith)
            requires
                g * pow10(t) == n.mant() * y,
                x == pow10(t) * a,
        ;
        assert(q.mant() * x == m * y) by (nonlinear_arith)
            requires
                (q.mant() * d.mant()) * x == (d.mant() * m) * y,
                d.mant() != 0,
        ;
        made_from_shifted(m, e, q, (d.exp() + 2 * l + j) as nat);
    } else {
        assert(j < k) by {
            if j == k {
                // s == g * 10^(q.exp + d.exp - n.exp + k)
                let w = q.exp() + d.exp() - n.exp() + k;
                lemma_pow_adds(10, w as nat, u as nat);
                lemma_pow_positive(10, u as nat);
                let z = pow10(w);
                assert(t + k == w + u);
                let (b, y) = (pow10(t), pow10(u));
                assert(b * a == z * y);
                assert(s == g * z) by (nonlinear_arith)
                    requires
                        g * b == n.mant() * y,
                        b * a == z * y,
                        s == n.mant() * a,
                        y > 0,
                {
                    assert(s * y == (g * b) * a);
                    assert((g * b) * a == g * (z * y));
                }
                let h = q.mant() * z;
                assert(s == h * d.mant()) by (nonlinear_arith)
                    requires
                        s == g * z,
                        g == q.mant() * d.mant(),
                        h == q.mant() * z,
                ;
                let dm = if d.mant() < 0 { -d.mant() } else { d.mant() };
                let sm = if s < 0 { -s } else { s };
                let hm = if h < 0 { -h } else { h };
                assert(sm == hm * dm) by (nonlinear_arith)
                    requires
                        s == h * d.mant(),
                        dm == (if d.mant() < 0 { -d.mant() } else { d.mant() }),
                        sm == (if s < 0 { -s } else { s }),
                        hm == (if h < 0 { -h } else { h }),
                ;
                vstd::arithmetic::div_mod::lemma_mod_multiples_basic(hm, dm);
                signed_division(s, d.mant(), sm, dm);
            }
        }
        quotient_found_by(n, d, q, j + 1, k);
    }
}

/// The partial sums of the terms: from zero on each is the one before it and
/// the next term, all numbers of the domain with room beside each other.
pub open spec fn adds_up(partial: Seq<Decimal>, terms: Seq<Decimal>) -> bool {
    &&& partial.len() == terms.len() + 1
    &&& partial[0].value() == 0
    &&& forall|k: int| 0 <= k < partial.len() ==> (#[trigger] partial[k]).valid()
    &&& forall|k: int|
        0 <= k < terms.len() ==> {
            &&& (#[trigger] terms[k]).valid()
            &&& partial[k + 1].value() == partial[k].value() + terms[k].value()
            &&& within(partial[k].value(), partial[k], terms[k])
            &&& within(terms[k].value(), partial[k], terms[k])
            &&& within(partial[k + 1].value(), partial[k], terms[k])
        }
}

/// A weighted average refuses nothing that it could give: where the weighed
/// values and the weights add up within the domain, and the division of the
/// one sum by the other comes out at `k` places, the average is found.
#[verifier::rlimit(60)]
#[verifier::spinoff_prover]
pub proof fn averages_of_children_are_found(
    values: Seq<Counted>,
    products: Seq<Decimal>,
    weighed: Seq<Decimal>,
    weights: Seq<Decimal>,
    average_found: Decimal,
    k: int,
)
    requires
        all_valid(values),
        forall|i: int| 0 <= i < values.len() ==> (#[trigger] values[i]).1 is Some,
        products.len() == values.len(),
        forall|i: int|
            0 <= i < values.len() ==> fits(
                (#[trigger] values[i]).0.mant() * values[i].1->0.mant(),
            ) && products[i].value() * pow10(EXP_LIMIT as int) == values[i].0.value()
                * values[i].1->0.value(),
        adds_up(weighed, products),
        adds_up(weights, values.map_values(|c: Counted| c.1->0)),
        weights[values.len() as int].mant() != 0,
        average_found.valid(),
        average_found.value() * weights[values.len() as int].value()
            == weighed[values.len() as int].value() * pow10(EXP_LIMIT as int),
        divides_at(
            weighed[values.len() as int],
            weights[values.len() as int],
            average_found,
            k,
        ),
    ensures
        average(values) == Some(average_found),
{
    let n = values.len() as int;
    totals_are_found(values, products, weighed, weights, n);
    assert(weighed[n].valid() && weights[n].valid());
    quotients_in_the_domain_are_found(weighed[n], weights[n], average_found, k);
}

#[verifier::rlimit(60)]
#[verifier::spinoff_prover]
proof fn totals_are_found(
    values: Seq<Counted>,
    products: Seq<Decimal>,
    weighed: Seq<Decimal>,
    weights: Seq<Decimal>,
    n: int,
)
    requires
        0 <= n <= values.len(),
        all_valid(values),
        forall|i: int| 0 <= i < values.len() ==> (#[trigger] values[i]).1 is Some,
        products.len() == values.len(),
        forall|i: int|
            0 <= i < values.len() ==> fits(
                (#[trigger] values[i]).0.mant() * values[i].1->0.mant(),
            ) && products[i].value() * pow10(EXP_LIMIT as int) == values[i].0.value()
                * values[i].1->0.value(),
        adds_up(weighed, products),
        adds_up(weights, values.map_values(|c: Counted| c.1->0)),
    ensures
        weighed_total(values, n) == Some(weighed[n]),
        weight_total(values, n) == Some(weights[n]),
    decreases n,
{
    assert(weighed[n].valid() && weights[n].valid());
    if n > 0 {
        totals_are_found(values, products, weighed, weights, n - 1);
        let terms = values.map_values(|c: Counted| c.1->0);
        let (v, w, p) = (values[n - 1].0, values[n - 1].1->0, products[n - 1]);
        assert(values[n - 1].1 is Some);
        assert(terms[n - 1] == w);
        assert(weighed[n - 1].valid() && weights[n - 1].valid());
        assert(p.valid());
        products_in_the_domain_are_found(v, w, p);
        sums_in_the_domain_are_found(weighed[n - 1], p, weighed[n]);
        sums_in_the_domain_are_found(weights[n - 1], w, weights[n]);
    } else {
        zero_facts();
        same_value_same_decimal(weighed[0], Decimal::of_parts(0, 0));
        same_value_same_decimal(weights[0], Decimal::of_parts(0, 0));
    }
}

/// What the root commits to: for each active child in order its id and its
/// log head as-of the instant, and the marker `∅` for a child without a
/// document or without a counted event.
pub proof fn the_root_names_ids_and_heads(
    children: Map<Seq<char>, Passport>,
    active: Seq<Seq<char>>,
    at: Timestamp,
    i: int,
)
    requires
        0 <= i < active.len(),
    ensures
        ({
            let parts = committed(children, active, at, active.len() as int);
            let child = children[active[i]];
            &&& parts.len() == 2 * active.len()
            &&& parts[2 * i] == active[i]
            &&& children.contains_key(active[i]) && head_at(child.log@, at) is Some ==> parts[2 * i
                + 1] == head_at(child.log@, at)->0
            &&& !children.contains_key(active[i]) || head_at(child.log@, at) is None ==> parts[2 * i
                + 1] == "∅"@
        }),
{
    committed_parts(children, active, at, active.len() as int);
    assert(active[i] == active[i]);
}

/// A gap says which child and why, in words: without a document, that there
/// is none; where the input is at fault, the condition that failed or the
/// kind of the fact; where the weight is, what is wrong with it.
#[verifier::rlimit(60)]
#[verifier::spinoff_prover]
pub proof fn gaps_say_why(
    children: Map<Seq<char>, Passport>,
    id: Seq<char>,
    input: DataPointBinding,
    weight: Option<DataPointBinding>,
    at: Timestamp,
)
    ensures
        ({
            let c = contribution(children, id, input, weight, at);
            let child = children[id];
            let facts = folded(child.log@, at).facts;
            let who = "child `"@ + child.passport_id@ + "`: "@;
            let chosen = selection_of(child.capability, folded(child.log@, at), input);
            &&& !children.contains_key(id) ==> member_str(c->Gap_0, "detail"@) == Some(
                "the child document is not resolvable from this projector's passport store"@,
            )
            &&& children.contains_key(id) && chosen is Err ==> member_str(c->Gap_0, "detail"@)
                == Some(who + reason_detail(chosen->Err_0))
            &&& children.contains_key(id) && chosen is Ok && !(facts[input.source@].value is Num)
                ==> member_str(c->Gap_0, "detail"@) == Some(
                "child `"@ + child.passport_id@ + "`: fact `"@ + input.source@ + "` is a "@
                    + value_type(facts[input.source@].value)
                    + " fact; the roll-up needs a numeric measurand"@,
            )
            &&& children.contains_key(id) && finds_number(child, input, at) && weight is Some
                && finds_number(child, weight->0, at) && number_found(child, weight->0, at).mant()
                <= 0 ==> member_str(c->Gap_0, "detail"@) == Some(
                "weight fact `"@ + weight->0.source@ + "` is not a positive quantity"@,
            )
        }),
{
    member_names_differ();
}

/// Why a roll-up over given values fails: a sum because it leaves the domain,
/// an average because it cannot be written exactly.
pub proof fn failed_rollups_say_why(op: AggregationOperation, values: Seq<Counted>)
    requires
        rollup_result(op, values) is Err,
    ensures
        op == AggregationOperation::Sum ==> total(values, values.len() as int) is None
            && rollup_result(op, values)->Err_0 == "the exact result leaves the decimal domain"@,
        op == AggregationOperation::WeightedAverage ==> average(values) is None && rollup_result(
            op,
            values,
        )->Err_0 == "the weighted average over "@ + nat_text(values.len())
            + " children is not exactly representable in the decimal domain (weight it or restate the inputs) — the projector never rounds silently"@,
{
}

} // verus!
