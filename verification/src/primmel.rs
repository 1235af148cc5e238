//! The Primmel rule package: a versioned set of deterministic decision rules,
//! each carrying the clause URN of the paragraph it implements.
//!
//! A package is a JSON document:
//!
//! ```json
//! { "id": "urn:primmel:pkg:battery-rules", "version": "1.0.0",
//!   "rules": [
//!     { "id": "soh-guard-band", "clause_urn": "urn:oiml:pub:r:91-2:2025#clause-6.1",
//!       "arms": [
//!         { "label": "conforming",
//!           "when": { "op": "ge",
//!                     "lhs": { "sub": [ { "input": "soh" }, { "input": "U" } ] },
//!                     "rhs": { "const": "85" } } },
//!         { "label": "not-demonstrably-conforming" } ] } ] }
//! ```
//!
//! 1. **Determinism** — evaluation is a function of the rule and the resolved
//!    inputs: exact decimals, ordered arms, no clock, no environment.
//! 2. **Explicit rounding** — values are rounded only by the `round`
//!    expression, with mode and digits stated in the package.
//! 3. **Guard bands** — the expanded uncertainty enters as a named input, and
//!    a rule decides on the measurand narrowed by it (`soh - U >= 85`).
use vstd::arithmetic::power::*;
use vstd::prelude::*;
use vstd::string::*;

use crate::decimal::{decimal_text, difference, fits, made_facts, parsed_decimal, pow10, product, products_in_the_domain_are_found, reduced, reduced_facts, scaled, sum, sums_in_the_domain_are_found, ten_to, text_reads_back, within, Decimal, DecimalError, EXP_LIMIT};
use crate::json::{json_text, json_view_cases, json_views, member_view, Json, JsonView};
use crate::record::{content_fault, content_fault_text, err_of, field_view, field_views, found, invalid_type, invalid_type_text, is_only, opt_str_fault, opt_str_in, optional, read_tag, record_fault, record_fault_text, required, sound_records_are_read, str_fault, str_in, tag_of, take_opt_str, take_str, unknown_variant, unknown_variant_text, Field, written, written_text};
use crate::strmap::StrMap;
use crate::text::{among, blank, copy_opt, has_first, is_blank, nat_text, noted, noted_are_first_occurrences, noted_joins, number_text, opt_text, phrase, reports, same, starts_with, texts, trim, trimmed};

verus! {

/// How an explicit rounding resolves the discarded digits.
#[derive(Clone, Copy, Debug, PartialEq, Eq, Structural)]
pub enum RoundingMode {
    /// Half away from zero.
    HalfUp,
    /// Half to even.
    HalfEven,
    /// Toward zero, midpoints included.
    Truncate,
}

/// A numeric sub-expression: deterministic, exact, over named inputs and
/// constants.
#[derive(Debug, PartialEq)]
pub enum Expr {
    /// A named input, resolved by the lens binding to a twin fact.
    Input { input: String },
    /// An exact decimal constant.
    Const { value: Decimal },
    /// `a + b`.
    Add { a: Box<Expr>, b: Box<Expr> },
    /// `a - b`.
    Sub { a: Box<Expr>, b: Box<Expr> },
    /// `a * b`.
    Mul { a: Box<Expr>, b: Box<Expr> },
    /// Explicit rounding — the only rounding that exists.
    Round { round: RoundSpec },
}

/// The declaration of an explicit rounding.
#[derive(Debug, PartialEq)]
pub struct RoundSpec {
    /// The expression to round.
    pub of: Box<Expr>,
    /// Digits kept after the decimal point (0..=18).
    pub decimals: u8,
    /// How midpoints resolve.
    pub mode: RoundingMode,
}

/// What an expression says.
pub enum ExprView {
    Input(Seq<char>),
    Const(Decimal),
    Add(Box<ExprView>, Box<ExprView>),
    Sub(Box<ExprView>, Box<ExprView>),
    Mul(Box<ExprView>, Box<ExprView>),
    Round(Box<ExprView>, u8, RoundingMode),
}

/// What the expression `e` says.
pub open spec fn expr_view(e: Expr) -> ExprView
    decreases e,
{
    match e {
        Expr::Input { input } => ExprView::Input(input@),
        Expr::Const { value } => ExprView::Const(value),
        Expr::Add { a, b } => ExprView::Add(Box::new(expr_view(*a)), Box::new(expr_view(*b))),
        Expr::Sub { a, b } => ExprView::Sub(Box::new(expr_view(*a)), Box::new(expr_view(*b))),
        Expr::Mul { a, b } => ExprView::Mul(Box::new(expr_view(*a)), Box::new(expr_view(*b))),
        Expr::Round { round } => ExprView::Round(
            Box::new(expr_view(*round.of)),
            round.decimals,
            round.mode,
        ),
    }
}

impl View for Expr {
    type V = ExprView;

    open spec fn view(&self) -> ExprView {
        expr_view(*self)
    }
}

/// The comparison operators a rule predicate supports.
#[derive(Clone, Copy, Debug, PartialEq, Eq, Structural)]
pub enum CmpOp {
    Lt,
    Le,
    Gt,
    Ge,
    Eq,
    Ne,
}

/// The comparison `op` holds between the numbers.
pub open spec fn op_holds(op: CmpOp, lhs: Decimal, rhs: Decimal) -> bool {
    match op {
        CmpOp::Lt => lhs.value() < rhs.value(),
        CmpOp::Le => lhs.value() <= rhs.value(),
        CmpOp::Gt => lhs.value() > rhs.value(),
        CmpOp::Ge => lhs.value() >= rhs.value(),
        CmpOp::Eq => lhs.value() == rhs.value(),
        CmpOp::Ne => lhs.value() != rhs.value(),
    }
}

impl CmpOp {
    /// Whether the comparison holds.
    pub fn holds(self, lhs: &Decimal, rhs: &Decimal) -> (r: bool)
        ensures
            r == op_holds(self, *lhs, *rhs),
    {
        match self {
            CmpOp::Lt => lhs.less(rhs),
            CmpOp::Le => !rhs.less(lhs),
            CmpOp::Gt => rhs.less(lhs),
            CmpOp::Ge => !lhs.less(rhs),
            CmpOp::Eq => lhs.equal(rhs),
            CmpOp::Ne => !lhs.equal(rhs),
        }
    }
}

/// A comparison between two numeric sub-expressions.
#[derive(Debug, PartialEq)]
pub struct Predicate {
    /// The comparison operator.
    pub op: CmpOp,
    /// Left side.
    pub lhs: Expr,
    /// Right side.
    pub rhs: Expr,
}

/// What a predicate says.
pub struct PredicateView {
    pub op: CmpOp,
    pub lhs: ExprView,
    pub rhs: ExprView,
}

impl View for Predicate {
    type V = PredicateView;

    open spec fn view(&self) -> PredicateView {
        PredicateView { op: self.op, lhs: self.lhs@, rhs: self.rhs@ }
    }
}

/// One arm of a decision table: `label` applies when `when` holds (an arm
/// without `when` is the unconditional else arm).
#[derive(Debug, PartialEq)]
pub struct Arm {
    /// The outcome label (e.g. `conforming`, `B`).
    pub label: String,
    /// The guard; `None` = the else arm (last position only).
    pub when: Option<Predicate>,
}

/// What an arm says.
pub struct ArmView {
    pub label: Seq<char>,
    pub when: Option<PredicateView>,
}

impl View for Arm {
    type V = ArmView;

    open spec fn view(&self) -> ArmView {
        ArmView {
            label: self.label@,
            when: match self.when {
                Some(p) => Some(p@),
                None => None,
            },
        }
    }
}

/// One deterministic decision rule with its clause-URN provenance.
#[derive(Debug, PartialEq)]
pub struct PrimmelRule {
    /// The rule id within its package (what a lens binding names).
    pub id: String,
    /// The legal paragraph this rule implements (`urn:…#clause-…`).
    pub clause_urn: String,
    /// Human-readable statement of the rule.
    pub title: Option<String>,
    /// The ordered decision table; first matching arm wins.
    pub arms: Vec<Arm>,
}

/// What a rule says.
pub struct RuleView {
    pub id: Seq<char>,
    pub clause_urn: Seq<char>,
    pub title: Option<Seq<char>>,
    pub arms: Seq<ArmView>,
}

impl View for PrimmelRule {
    type V = RuleView;

    open spec fn view(&self) -> RuleView {
        RuleView {
            id: self.id@,
            clause_urn: self.clause_urn@,
            title: opt_text(self.title),
            arms: self.arms@.map_values(|a: Arm| a@),
        }
    }
}

/// A versioned set of deterministic rules.
#[derive(Debug, PartialEq)]
pub struct PrimmelPackage {
    /// The package URN (the `package_ref` a lens binding names).
    pub id: String,
    /// The edition pin (recorded in every evaluated output).
    pub version: String,
    /// Human-readable package title.
    pub title: Option<String>,
    /// The rules, in package order.
    pub rules: Vec<PrimmelRule>,
}

/// What a package says.
pub struct PackageView {
    pub id: Seq<char>,
    pub version: Seq<char>,
    pub title: Option<Seq<char>>,
    pub rules: Seq<RuleView>,
}

impl View for PrimmelPackage {
    type V = PackageView;

    open spec fn view(&self) -> PackageView {
        PackageView {
            id: self.id@,
            version: self.version@,
            title: opt_text(self.title),
            rules: self.rules@.map_values(|r: PrimmelRule| r@),
        }
    }
}

/// The label when no arm matches (explicit, never silent).
pub const UNCLASSIFIED: &'static str = "unclassified";

/// Why a rule could not be evaluated.
#[derive(Debug, PartialEq, Eq)]
pub enum EvalError {
    /// A named input has no value (a coverage gap, reported as such).
    MissingInput { input: String },
    /// A named input resolved to a non-numeric fact.
    NotNumeric { input: String },
    /// Exact arithmetic failed (overflow beyond the decimal domain).
    Arithmetic(String),
}

/// What an evaluation error says.
pub enum EvalErrorView {
    MissingInput(Seq<char>),
    NotNumeric(Seq<char>),
    Arithmetic(Seq<char>),
}

impl View for EvalError {
    type V = EvalErrorView;

    open spec fn view(&self) -> EvalErrorView {
        match *self {
            EvalError::MissingInput { input } => EvalErrorView::MissingInput(input@),
            EvalError::NotNumeric { input } => EvalErrorView::NotNumeric(input@),
            EvalError::Arithmetic(why) => EvalErrorView::Arithmetic(why@),
        }
    }
}

/// The text of an evaluation error.
pub open spec fn eval_error_text(e: EvalErrorView) -> Seq<char> {
    match e {
        EvalErrorView::MissingInput(input) => "input `"@ + input + "` has no value"@,
        EvalErrorView::NotNumeric(input) => "input `"@ + input + "` is not a numeric fact"@,
        EvalErrorView::Arithmetic(why) => "arithmetic failed: "@ + why,
    }
}

impl EvalError {
    /// The text of the error.
    pub fn to_text(&self) -> (r: String)
        ensures
            r@ == eval_error_text(self@),
    {
        match self {
            EvalError::MissingInput { input } => {
                let mut out: String = "input `".to_string();
                out.append(input.as_str());
                out.append("` has no value");
                out
            },
            EvalError::NotNumeric { input } => {
                let mut out: String = "input `".to_string();
                out.append(input.as_str());
                out.append("` is not a numeric fact");
                out
            },
            EvalError::Arithmetic(why) => {
                let mut out: String = "arithmetic failed: ".to_string();
                out.append(why.as_str());
                out
            },
        }
    }
}

/// The outcome of a rule: the winning arm's label, or the explicit
/// [`UNCLASSIFIED`] fall-through.
#[derive(Debug, PartialEq, Eq)]
pub struct RuleOutcome {
    /// The winning label (`unclassified` when no arm matched).
    pub label: String,
    /// The index of the winning arm; `None` on fall-through.
    pub matched_arm: Option<usize>,
}

/// What an outcome says.
pub struct OutcomeView {
    pub label: Seq<char>,
    pub matched_arm: Option<int>,
}

impl View for RuleOutcome {
    type V = OutcomeView;

    open spec fn view(&self) -> OutcomeView {
        OutcomeView {
            label: self.label@,
            matched_arm: match self.matched_arm {
                Some(i) => Some(i as int),
                None => None,
            },
        }
    }
}

/// The message for a result outside the decimal domain.
pub open spec fn out_of_domain() -> Seq<char> {
    "the exact result leaves the decimal domain"@
}

/// A decimal result, or the failure to have one.
pub open spec fn or_out_of_domain(d: Option<Decimal>) -> Result<Decimal, EvalErrorView> {
    match d {
        Some(v) => Ok(v),
        None => Err(EvalErrorView::Arithmetic(out_of_domain())),
    }
}

/// The magnitude of `m` after `k` digits were dropped and the rest resolved
/// by `mode`.
pub open spec fn rounded_magnitude(m: int, k: int, mode: RoundingMode) -> int {
    let mag = if m < 0 { -m } else { m };
    let q = mag / pow10(k);
    let r = mag % pow10(k);
    let half = pow10(k) / 2;
    let up = match mode {
        RoundingMode::Truncate => false,
        RoundingMode::HalfUp => r >= half,
        RoundingMode::HalfEven => r > half || (r == half && q % 2 == 1),
    };
    if up {
        q + 1
    } else {
        q
    }
}

/// `v` with `decimals` digits behind the point, midpoints resolved by `mode`.
pub open spec fn rounded(v: Decimal, decimals: int, mode: RoundingMode) -> Result<
    Decimal,
    EvalErrorView,
> {
    if decimals > 18 {
        Err(
            EvalErrorView::Arithmetic(
                "rounding to "@ + nat_text(decimals as nat)
                    + " decimals exceeds the decimal domain"@,
            ),
        )
    } else if v.exp() >= -decimals {
        // Nothing is discarded.
        if fits(v.mant() * pow10(v.exp() + decimals)) {
            Ok(v)
        } else {
            Err(EvalErrorView::Arithmetic("rounding scale overflow"@))
        }
    } else if pow10(-decimals - v.exp()) > i128::MAX {
        Err(EvalErrorView::Arithmetic("rounding divisor overflow"@))
    } else {
        let mag = rounded_magnitude(v.mant(), -decimals - v.exp(), mode);
        or_out_of_domain(Decimal::made(if v.mant() < 0 { -mag } else { mag }, -decimals))
    }
}

/// The value of an expression over the inputs, or the first failure met from
/// left to right.
pub open spec fn evaluated(e: ExprView, env: Map<Seq<char>, Decimal>) -> Result<
    Decimal,
    EvalErrorView,
>
    decreases e,
{
    match e {
        ExprView::Input(name) => if env.contains_key(name) {
            Ok(env[name])
        } else {
            Err(EvalErrorView::MissingInput(name))
        },
        ExprView::Const(value) => Ok(value),
        ExprView::Add(a, b) => match (evaluated(*a, env), evaluated(*b, env)) {
            (Err(f), _) => Err(f),
            (_, Err(f)) => Err(f),
            (Ok(x), Ok(y)) => or_out_of_domain(sum(x, y)),
        },
        ExprView::Sub(a, b) => match (evaluated(*a, env), evaluated(*b, env)) {
            (Err(f), _) => Err(f),
            (_, Err(f)) => Err(f),
            (Ok(x), Ok(y)) => or_out_of_domain(difference(x, y)),
        },
        ExprView::Mul(a, b) => match (evaluated(*a, env), evaluated(*b, env)) {
            (Err(f), _) => Err(f),
            (_, Err(f)) => Err(f),
            (Ok(x), Ok(y)) => or_out_of_domain(product(x, y)),
        },
        ExprView::Round(of, decimals, mode) => match evaluated(*of, env) {
            Err(f) => Err(f),
            Ok(x) => rounded(x, decimals as int, mode),
        },
    }
}

/// Whether a guard holds over the inputs, or the first failure met.
pub open spec fn guard_holds(p: PredicateView, env: Map<Seq<char>, Decimal>) -> Result<
    bool,
    EvalErrorView,
> {
    match (evaluated(p.lhs, env), evaluated(p.rhs, env)) {
        (Err(f), _) => Err(f),
        (_, Err(f)) => Err(f),
        (Ok(x), Ok(y)) => Ok(op_holds(p.op, x, y)),
    }
}

/// The decision of a table from arm `i` on: the first arm whose guard holds,
/// an arm without guard unconditionally, else the fall-through.
pub open spec fn decided(arms: Seq<ArmView>, i: int, env: Map<Seq<char>, Decimal>) -> Result<
    OutcomeView,
    EvalErrorView,
>
    decreases arms.len() - i,
{
    if i < 0 || i >= arms.len() {
        Ok(OutcomeView { label: UNCLASSIFIED@, matched_arm: None })
    } else {
        match arms[i].when {
            None => Ok(OutcomeView { label: arms[i].label, matched_arm: Some(i) }),
            Some(p) => match guard_holds(p, env) {
                Err(f) => Err(f),
                Ok(true) => Ok(OutcomeView { label: arms[i].label, matched_arm: Some(i) }),
                Ok(false) => decided(arms, i + 1, env),
            },
        }
    }
}

/// Explicit rounding of the exact decimal: keep `decimals` fractional digits,
/// resolve midpoints by `mode`.
pub fn round_decimal(v: Decimal, decimals: u8, mode: RoundingMode) -> (r: Result<Decimal, EvalError>)
    ensures
        match r {
            Ok(d) => rounded(v, decimals as int, mode) == Ok::<Decimal, EvalErrorView>(d),
            Err(e) => rounded(v, decimals as int, mode) == Err::<Decimal, EvalErrorView>(e@),
        },
{
    if decimals > 18 {
        let mut why: String = "rounding to ".to_string();
        why.append(number_text(decimals as u128).as_str());
        why.append(" decimals exceeds the decimal domain");
        return Err(EvalError::Arithmetic(why));
    }
    let mant: i128 = v.mantissa();
    let exp: i32 = v.exponent();
    let target: i32 = -(decimals as i32);
    if exp >= target {
        return match scaled(mant, (exp - target) as u32) {
            Some(_) => Ok(v),
            None => Err(EvalError::Arithmetic("rounding scale overflow".to_string())),
        };
    }
    let drop: u32 = (target - exp) as u32;
    let div: u128 = match ten_to(drop) {
        Some(p) => p as u128,
        None => return Err(EvalError::Arithmetic("rounding divisor overflow".to_string())),
    };
    let mag: u128 = if mant < 0 {
        (-mant) as u128
    } else {
        mant as u128
    };
    let q: u128 = mag / div;
    let rest: u128 = mag % div;
    let half: u128 = div / 2;
    let up: bool = match mode {
        RoundingMode::Truncate => false,
        RoundingMode::HalfUp => rest >= half,
        RoundingMode::HalfEven => rest > half || (rest == half && q % 2 == 1),
    };
    proof {
        lemma_pow_increases(10, 1, drop as nat);
        lemma_pow1(10);
        let (m, d) = (mag as int, div as int);
        assert(m / d <= m / 10 && m / 10 < i128::MAX) by {
            vstd::arithmetic::div_mod::lemma_div_is_ordered_by_denominator(m, 10, d);
        }
    }
    let rounded_mag: i128 = if up {
        q as i128 + 1
    } else {
        q as i128
    };
    let kept: i128 = if mant < 0 {
        -rounded_mag
    } else {
        rounded_mag
    };
    match Decimal::new(kept, target) {
        Ok(d) => Ok(d),
        Err(_) => Err(
            EvalError::Arithmetic("the exact result leaves the decimal domain".to_string()),
        ),
    }
}

fn domain_result(r: Result<Decimal, DecimalError>) -> (out: Result<Decimal, EvalError>)
    ensures
        match (r, out) {
            (Ok(d), Ok(o)) => d == o,
            (Err(_), Err(e)) => e@ == EvalErrorView::Arithmetic(out_of_domain()),
            _ => false,
        },
{
    match r {
        Ok(d) => Ok(d),
        Err(_) => Err(
            EvalError::Arithmetic("the exact result leaves the decimal domain".to_string()),
        ),
    }
}

/// The value of an expression over resolved inputs.
pub fn eval_expr(expr: &Expr, inputs: &StrMap<Decimal>) -> (r: Result<Decimal, EvalError>)
    ensures
        match r {
            Ok(d) => evaluated(expr@, inputs@) == Ok::<Decimal, EvalErrorView>(d),
            Err(e) => evaluated(expr@, inputs@) == Err::<Decimal, EvalErrorView>(e@),
        },
    decreases expr,
{
    match expr {
        Expr::Input { input } => match inputs.get(input.as_str()) {
            Some(v) => Ok(*v),
            None => Err(EvalError::MissingInput { input: input.clone() }),
        },
        Expr::Const { value } => Ok(*value),
        Expr::Add { a, b } => {
            let x: Decimal = match eval_expr(a, inputs) {
                Ok(x) => x,
                Err(e) => return Err(e),
            };
            let y: Decimal = match eval_expr(b, inputs) {
                Ok(y) => y,
                Err(e) => return Err(e),
            };
            domain_result(x.add(&y))
        },
        Expr::Sub { a, b } => {
            let x: Decimal = match eval_expr(a, inputs) {
                Ok(x) => x,
                Err(e) => return Err(e),
            };
            let y: Decimal = match eval_expr(b, inputs) {
                Ok(y) => y,
                Err(e) => return Err(e),
            };
            domain_result(x.sub(&y))
        },
        Expr::Mul { a, b } => {
            let x: Decimal = match eval_expr(a, inputs) {
                Ok(x) => x,
                Err(e) => return Err(e),
            };
            let y: Decimal = match eval_expr(b, inputs) {
                Ok(y) => y,
                Err(e) => return Err(e),
            };
            domain_result(x.mul(&y))
        },
        Expr::Round { round } => match eval_expr(&round.of, inputs) {
            Ok(x) => round_decimal(x, round.decimals, round.mode),
            Err(e) => Err(e),
        },
    }
}

impl PrimmelRule {
    /// Evaluate the decision table over resolved inputs: the first arm whose
    /// guard holds wins; the else arm wins unconditionally; no match yields
    /// [`UNCLASSIFIED`].
    pub fn evaluate(&self, inputs: &StrMap<Decimal>) -> (r: Result<RuleOutcome, EvalError>)
        ensures
            match r {
                Ok(o) => decided(self@.arms, 0, inputs@) == Ok::<OutcomeView, EvalErrorView>(o@),
                Err(e) => decided(self@.arms, 0, inputs@) == Err::<OutcomeView, EvalErrorView>(e@),
            },
    {
        let mut i: usize = 0;
        while i < self.arms.len()
            invariant
                i <= self.arms.len(),
                decided(self@.arms, 0, inputs@) == decided(self@.arms, i as int, inputs@),
            decreases self.arms.len() - i,
        {
            let arm: &Arm = &self.arms[i];
            assert(self@.arms[i as int] == arm@);
            match &arm.when {
                None => {
                    return Ok(RuleOutcome { label: arm.label.clone(), matched_arm: Some(i) });
                },
                Some(when) => {
                    let lhs: Decimal = match eval_expr(&when.lhs, inputs) {
                        Ok(x) => x,
                        Err(e) => return Err(e),
                    };
                    let rhs: Decimal = match eval_expr(&when.rhs, inputs) {
                        Ok(x) => x,
                        Err(e) => return Err(e),
                    };
                    if when.op.holds(&lhs, &rhs) {
                        return Ok(RuleOutcome { label: arm.label.clone(), matched_arm: Some(i) });
                    }
                },
            }
            i = i + 1;
        }
        Ok(RuleOutcome { label: UNCLASSIFIED.to_string(), matched_arm: None })
    }
}

/// The input names of an expression, appended to `seen` in reading order,
/// each once.
pub open spec fn collected(e: ExprView, seen: Seq<Seq<char>>) -> Seq<Seq<char>>
    decreases e,
{
    match e {
        ExprView::Input(name) => if seen.contains(name) {
            seen
        } else {
            seen.push(name)
        },
        ExprView::Const(_) => seen,
        ExprView::Add(a, b) => collected(*b, collected(*a, seen)),
        ExprView::Sub(a, b) => collected(*b, collected(*a, seen)),
        ExprView::Mul(a, b) => collected(*b, collected(*a, seen)),
        ExprView::Round(of, _, _) => collected(*of, seen),
    }
}

/// The input names of the first `n` arms, in declaration order, each once.
pub open spec fn arm_inputs(arms: Seq<ArmView>, n: int) -> Seq<Seq<char>>
    decreases n,
{
    if n <= 0 {
        Seq::empty()
    } else {
        let seen = arm_inputs(arms, n - 1);
        match arms[n - 1].when {
            Some(p) => collected(p.rhs, collected(p.lhs, seen)),
            None => seen,
        }
    }
}

fn collect_inputs(expr: &Expr, seen: &mut Vec<String>)
    ensures
        texts(final(seen)@) == collected(expr@, texts(old(seen)@)),
    decreases expr,
{
    match expr {
        Expr::Input { input } => {
            if !among(seen, input.as_str()) {
                let ghost before = seen@;
                seen.push(input.clone());
                assert(texts(seen@) =~= texts(before).push(input@));
            }
        },
        Expr::Const { .. } => {},
        Expr::Add { a, b } => {
            collect_inputs(a, seen);
            collect_inputs(b, seen);
        },
        Expr::Sub { a, b } => {
            collect_inputs(a, seen);
            collect_inputs(b, seen);
        },
        Expr::Mul { a, b } => {
            collect_inputs(a, seen);
            collect_inputs(b, seen);
        },
        Expr::Round { round } => collect_inputs(&round.of, seen),
    }
}

impl PrimmelRule {
    /// The named inputs this rule consumes, in declaration order.
    pub fn inputs(&self) -> (r: Vec<String>)
        ensures
            texts(r@) == arm_inputs(self@.arms, self@.arms.len() as int),
    {
        let mut seen: Vec<String> = Vec::new();
        let mut i: usize = 0;
        assert(texts(seen@) =~= Seq::<Seq<char>>::empty());
        while i < self.arms.len()
            invariant
                i <= self.arms.len(),
                texts(seen@) == arm_inputs(self@.arms, i as int),
            decreases self.arms.len() - i,
        {
            assert(self@.arms[i as int] == self.arms@[i as int]@);
            match &self.arms[i].when {
                Some(p) => {
                    collect_inputs(&p.lhs, &mut seen);
                    collect_inputs(&p.rhs, &mut seen);
                },
                None => {},
            }
            i = i + 1;
        }
        seen
    }
}

/// The input names of an expression in reading order, as often as they occur.
pub open spec fn names_read(e: ExprView) -> Seq<Seq<char>>
    decreases e,
{
    match e {
        ExprView::Input(name) => seq![name],
        ExprView::Const(_) => Seq::empty(),
        ExprView::Add(a, b) => names_read(*a) + names_read(*b),
        ExprView::Sub(a, b) => names_read(*a) + names_read(*b),
        ExprView::Mul(a, b) => names_read(*a) + names_read(*b),
        ExprView::Round(of, _, _) => names_read(*of),
    }
}

/// The input names of the first `n` arms in reading order, as often as they
/// occur.
pub open spec fn arm_names_read(arms: Seq<ArmView>, n: int) -> Seq<Seq<char>>
    decreases n,
{
    if n <= 0 {
        Seq::empty()
    } else {
        match arms[n - 1].when {
            Some(p) => arm_names_read(arms, n - 1) + (names_read(p.lhs) + names_read(p.rhs)),
            None => arm_names_read(arms, n - 1),
        }
    }
}

proof fn collected_is_noted(e: ExprView, seen: Seq<Seq<char>>)
    ensures
        collected(e, seen) == noted(seen, names_read(e)),
    decreases e,
{
    match e {
        ExprView::Input(name) => {
            let one = seq![name];
            assert(one.drop_last() =~= Seq::<Seq<char>>::empty());
            assert(noted(seen, one.drop_last()) == seen);
        },
        ExprView::Const(_) => {},
        ExprView::Add(a, b) => {
            collected_is_noted(*a, seen);
            collected_is_noted(*b, collected(*a, seen));
            noted_joins(seen, names_read(*a), names_read(*b));
        },
        ExprView::Sub(a, b) => {
            collected_is_noted(*a, seen);
            collected_is_noted(*b, collected(*a, seen));
            noted_joins(seen, names_read(*a), names_read(*b));
        },
        ExprView::Mul(a, b) => {
            collected_is_noted(*a, seen);
            collected_is_noted(*b, collected(*a, seen));
            noted_joins(seen, names_read(*a), names_read(*b));
        },
        ExprView::Round(of, _, _) => collected_is_noted(*of, seen),
    }
}

proof fn arm_inputs_are_noted(arms: Seq<ArmView>, n: int)
    ensures
        arm_inputs(arms, n) == noted(Seq::empty(), arm_names_read(arms, n)),
    decreases n,
{
    if n > 0 {
        arm_inputs_are_noted(arms, n - 1);
        match arms[n - 1].when {
            Some(p) => {
                let seen = arm_inputs(arms, n - 1);
                collected_is_noted(p.lhs, seen);
                collected_is_noted(p.rhs, collected(p.lhs, seen));
                noted_joins(seen, names_read(p.lhs), names_read(p.rhs));
                noted_joins(
                    Seq::empty(),
                    arm_names_read(arms, n - 1),
                    names_read(p.lhs) + names_read(p.rhs),
                );
            },
            None => {},
        }
    }
}

/// The inputs of a rule are the names that its arms read, each once, in the
/// order of their first occurrence.
pub proof fn inputs_are_first_occurrences(arms: Seq<ArmView>)
    ensures
        ({
            let all = arm_names_read(arms, arms.len() as int);
            let r = arm_inputs(arms, arms.len() as int);
            &&& forall|i: int, j: int| 0 <= i < j < r.len() ==> r[i] != r[j]
            &&& forall|x: Seq<char>| #[trigger] r.contains(x) <==> all.contains(x)
            &&& forall|i: int| 0 <= i < r.len() ==> #[trigger] has_first(all, r, i)
        }),
{
    arm_inputs_are_noted(arms, arms.len() as int);
    noted_are_first_occurrences(arm_names_read(arms, arms.len() as int));
}

/// What is wrong with an expression of rule `rule`, if anything.
pub open spec fn expr_fault(e: ExprView, rule: Seq<char>) -> Option<Seq<char>>
    decreases e,
{
    match e {
        ExprView::Input(name) => if is_blank(name) {
            Some("primmel rule `"@ + rule + "` references an empty input name"@)
        } else {
            None
        },
        ExprView::Const(_) => None,
        ExprView::Add(a, b) => match expr_fault(*a, rule) {
            Some(f) => Some(f),
            None => expr_fault(*b, rule),
        },
        ExprView::Sub(a, b) => match expr_fault(*a, rule) {
            Some(f) => Some(f),
            None => expr_fault(*b, rule),
        },
        ExprView::Mul(a, b) => match expr_fault(*a, rule) {
            Some(f) => Some(f),
            None => expr_fault(*b, rule),
        },
        ExprView::Round(of, decimals, _) => if decimals > 18 {
            Some(
                "primmel rule `"@ + rule + "` rounds to "@ + nat_text(decimals as nat)
                    + " decimals (max 18)"@,
            )
        } else {
            expr_fault(*of, rule)
        },
    }
}

/// What is wrong with arm `i` of a rule, if anything.
pub open spec fn arm_fault(rule: RuleView, i: int) -> Option<Seq<char>> {
    let arm = rule.arms[i];
    if is_blank(arm.label) {
        Some("primmel rule `"@ + rule.id + "` has an arm without a label"@)
    } else {
        match arm.when {
            None => if i + 1 != rule.arms.len() {
                Some(
                    "primmel rule `"@ + rule.id
                        + "` has an unconditional arm that is not last (first match wins — the else arm must close the table)"@,
                )
            } else {
                None
            },
            Some(p) => match expr_fault(p.lhs, rule.id) {
                Some(f) => Some(f),
                None => expr_fault(p.rhs, rule.id),
            },
        }
    }
}

/// The first fault among the arms from `i` on.
pub open spec fn arms_fault(rule: RuleView, i: int) -> Option<Seq<char>>
    decreases rule.arms.len() - i,
{
    if i < 0 || i >= rule.arms.len() {
        None
    } else {
        match arm_fault(rule, i) {
            Some(f) => Some(f),
            None => arms_fault(rule, i + 1),
        }
    }
}

/// Some rule before `i` has the id `id`.
pub open spec fn id_taken(rules: Seq<RuleView>, i: int, id: Seq<char>) -> bool {
    exists|j: int| 0 <= j < i && (#[trigger] rules[j]).id == id
}

/// What is wrong with rule `i` of a package, if anything.
pub open spec fn rule_fault(p: PackageView, i: int) -> Option<Seq<char>> {
    let rule = p.rules[i];
    if is_blank(rule.id) {
        Some("primmel package `"@ + p.id + "` has a rule without an id"@)
    } else if id_taken(p.rules, i, rule.id) {
        Some("primmel package `"@ + p.id + "` has duplicate rule id `"@ + rule.id + "`"@)
    } else if !"urn:"@.is_prefix_of(trimmed(rule.clause_urn)) {
        Some(
            "rule `"@ + rule.id + "` of package `"@ + p.id
                + "` lacks a clause URN (expected `urn:<document>#clause-…`)"@,
        )
    } else if rule.arms.len() == 0 {
        Some(
            "primmel rule `"@ + rule.id
                + "` has no arms — a decision table needs at least one"@,
        )
    } else {
        arms_fault(rule, 0)
    }
}

/// The first fault among the rules from `i` on.
pub open spec fn rules_fault(p: PackageView, i: int) -> Option<Seq<char>>
    decreases p.rules.len() - i,
{
    if i < 0 || i >= p.rules.len() {
        None
    } else {
        match rule_fault(p, i) {
            Some(f) => Some(f),
            None => rules_fault(p, i + 1),
        }
    }
}

/// The first fault of a package: ids present and unique, clause URNs
/// well-formed, arms non-empty with the else arm (if any) last, labels
/// non-empty, rounding digits in range.
pub open spec fn package_fault(p: PackageView) -> Option<Seq<char>> {
    if is_blank(p.id) {
        Some("primmel package lacks an id"@)
    } else if is_blank(p.version) {
        Some("primmel package `"@ + p.id + "` lacks a version pin"@)
    } else {
        rules_fault(p, 0)
    }
}

fn validate_expr(expr: &Expr, rule: &str) -> (r: Result<(), String>)
    ensures
        reports(r, expr_fault(expr@, rule@)),
    decreases expr,
{
    match expr {
        Expr::Input { input } => if blank(input.as_str()) {
            Err(phrase("primmel rule `", rule, "` references an empty input name"))
        } else {
            Ok(())
        },
        Expr::Const { .. } => Ok(()),
        Expr::Add { a, b } => match validate_expr(a, rule) {
            Ok(()) => validate_expr(b, rule),
            Err(e) => Err(e),
        },
        Expr::Sub { a, b } => match validate_expr(a, rule) {
            Ok(()) => validate_expr(b, rule),
            Err(e) => Err(e),
        },
        Expr::Mul { a, b } => match validate_expr(a, rule) {
            Ok(()) => validate_expr(b, rule),
            Err(e) => Err(e),
        },
        Expr::Round { round } => {
            if round.decimals > 18 {
                let mut out: String = phrase("primmel rule `", rule, "` rounds to ");
                out.append(number_text(round.decimals as u128).as_str());
                out.append(" decimals (max 18)");
                return Err(out);
            }
            validate_expr(&round.of, rule)
        },
    }
}

impl PrimmelRule {
    fn validate_arms(&self) -> (r: Result<(), String>)
        ensures
            reports(r, arms_fault(self@, 0)),
    {
        let mut i: usize = 0;
        while i < self.arms.len()
            invariant
                i <= self.arms.len(),
                arms_fault(self@, 0) == arms_fault(self@, i as int),
            decreases self.arms.len() - i,
        {
            let arm: &Arm = &self.arms[i];
            assert(self@.arms[i as int] == arm@);
            if blank(arm.label.as_str()) {
                return Err(
                    phrase("primmel rule `", self.id.as_str(), "` has an arm without a label"),
                );
            }
            match &arm.when {
                None => {
                    if i + 1 != self.arms.len() {
                        return Err(
                            phrase(
                                "primmel rule `",
                                self.id.as_str(),
                                "` has an unconditional arm that is not last (first match wins — the else arm must close the table)",
                            ),
                        );
                    }
                },
                Some(p) => {
                    match validate_expr(&p.lhs, self.id.as_str()) {
                        Ok(()) => {},
                        Err(e) => return Err(e),
                    }
                    match validate_expr(&p.rhs, self.id.as_str()) {
                        Ok(()) => {},
                        Err(e) => return Err(e),
                    }
                },
            }
            i = i + 1;
        }
        Ok(())
    }
}

impl PrimmelPackage {
    /// Look up a rule by id.
    pub fn rule(&self, id: &str) -> (r: Option<&PrimmelRule>)
        ensures
            match r {
                Some(found) => rule_named(self@.rules, id@, 0) == Some(found@),
                None => rule_named(self@.rules, id@, 0) is None,
            },
    {
        let mut i: usize = 0;
        while i < self.rules.len()
            invariant
                i <= self.rules.len(),
                rule_named(self@.rules, id@, 0) == rule_named(self@.rules, id@, i as int),
            decreases self.rules.len() - i,
        {
            assert(self@.rules[i as int] == self.rules@[i as int]@);
            if same(self.rules[i].id.as_str(), id) {
                return Some(&self.rules[i]);
            }
            i = i + 1;
        }
        None
    }

    fn id_before(&self, n: usize, id: &str) -> (r: bool)
        requires
            n <= self.rules.len(),
        ensures
            r == id_taken(self@.rules, n as int, id@),
    {
        let mut i: usize = 0;
        while i < n
            invariant
                i <= n <= self.rules.len(),
                forall|j: int| 0 <= j < i ==> (#[trigger] self@.rules[j]).id != id@,
            decreases n - i,
        {
            assert(self@.rules[i as int] == self.rules@[i as int]@);
            if same(self.rules[i].id.as_str(), id) {
                return true;
            }
            i = i + 1;
        }
        false
    }

    /// Structural validation.
    pub fn validate(&self) -> (r: Result<(), String>)
        ensures
            reports(r, package_fault(self@)),
    {
        if blank(self.id.as_str()) {
            return Err("primmel package lacks an id".to_string());
        }
        if blank(self.version.as_str()) {
            return Err(phrase("primmel package `", self.id.as_str(), "` lacks a version pin"));
        }
        let mut i: usize = 0;
        while i < self.rules.len()
            invariant
                i <= self.rules.len(),
                rules_fault(self@, 0) == rules_fault(self@, i as int),
                !is_blank(self.id@),
                !is_blank(self.version@),
            decreases self.rules.len() - i,
        {
            let rule: &PrimmelRule = &self.rules[i];
            assert(self@.rules[i as int] == rule@);
            if blank(rule.id.as_str()) {
                return Err(
                    phrase("primmel package `", self.id.as_str(), "` has a rule without an id"),
                );
            }
            if self.id_before(i, rule.id.as_str()) {
                let mut out: String = phrase(
                    "primmel package `",
                    self.id.as_str(),
                    "` has duplicate rule id `",
                );
                out.append(rule.id.as_str());
                out.append("`");
                return Err(out);
            }
            if !starts_with(trim(rule.clause_urn.as_str()).as_str(), "urn:") {
                let mut out: String = phrase("rule `", rule.id.as_str(), "` of package `");
                out.append(self.id.as_str());
                out.append("` lacks a clause URN (expected `urn:<document>#clause-…`)");
                return Err(out);
            }
            if rule.arms.len() == 0 {
                return Err(
                    phrase(
                        "primmel rule `",
                        rule.id.as_str(),
                        "` has no arms — a decision table needs at least one",
                    ),
                );
            }
            match rule.validate_arms() {
                Ok(()) => {},
                Err(e) => return Err(e),
            }
            i = i + 1;
        }
        Ok(())
    }
}

/// The first rule from `i` on with the id `id`.
pub open spec fn rule_named(rules: Seq<RuleView>, id: Seq<char>, i: int) -> Option<RuleView>
    decreases rules.len() - i,
{
    if i < 0 || i >= rules.len() {
        None
    } else if rules[i].id == id {
        Some(rules[i])
    } else {
        rule_named(rules, id, i + 1)
    }
}

impl Expr {
    /// A copy of the expression.
    pub fn copy(&self) -> (r: Expr)
        ensures
            r@ == self@,
        decreases self,
    {
        match self {
            Expr::Input { input } => Expr::Input { input: input.clone() },
            Expr::Const { value } => Expr::Const { value: *value },
            Expr::Add { a, b } => Expr::Add { a: Box::new(a.copy()), b: Box::new(b.copy()) },
            Expr::Sub { a, b } => Expr::Sub { a: Box::new(a.copy()), b: Box::new(b.copy()) },
            Expr::Mul { a, b } => Expr::Mul { a: Box::new(a.copy()), b: Box::new(b.copy()) },
            Expr::Round { round } => Expr::Round {
                round: RoundSpec {
                    of: Box::new(round.of.copy()),
                    decimals: round.decimals,
                    mode: round.mode,
                },
            },
        }
    }
}

impl Arm {
    /// A copy of the arm.
    pub fn copy(&self) -> (r: Arm)
        ensures
            r@ == self@,
    {
        Arm {
            label: self.label.clone(),
            when: match &self.when {
                Some(p) => Some(Predicate { op: p.op, lhs: p.lhs.copy(), rhs: p.rhs.copy() }),
                None => None,
            },
        }
    }
}

impl PrimmelRule {
    /// A copy of the rule.
    pub fn copy(&self) -> (r: PrimmelRule)
        ensures
            r@ == self@,
    {
        let mut arms: Vec<Arm> = Vec::new();
        let mut i: usize = 0;
        while i < self.arms.len()
            invariant
                i <= self.arms.len(),
                arms@.map_values(|a: Arm| a@) == self@.arms.take(i as int),
            decreases self.arms.len() - i,
        {
            let ghost done = arms@;
            arms.push(self.arms[i].copy());
            assert(arms@.map_values(|a: Arm| a@) =~= done.map_values(|a: Arm| a@).push(
                self@.arms[i as int],
            ));
            assert(self@.arms.take(i as int + 1) =~= self@.arms.take(i as int).push(
                self@.arms[i as int],
            ));
            i = i + 1;
        }
        assert(self@.arms.take(self@.arms.len() as int) =~= self@.arms);
        PrimmelRule {
            id: self.id.clone(),
            clause_urn: self.clause_urn.clone(),
            title: copy_opt(&self.title),
            arms,
        }
    }
}

impl PrimmelPackage {
    /// A copy of the package.
    pub fn copy(&self) -> (r: PrimmelPackage)
        ensures
            r@ == self@,
    {
        let mut rules: Vec<PrimmelRule> = Vec::new();
        let mut i: usize = 0;
        while i < self.rules.len()
            invariant
                i <= self.rules.len(),
                rules@.map_values(|x: PrimmelRule| x@) == self@.rules.take(i as int),
            decreases self.rules.len() - i,
        {
            let ghost done = rules@;
            rules.push(self.rules[i].copy());
            assert(rules@.map_values(|x: PrimmelRule| x@) =~= done.map_values(
                |x: PrimmelRule| x@,
            ).push(self@.rules[i as int]));
            assert(self@.rules.take(i as int + 1) =~= self@.rules.take(i as int).push(
                self@.rules[i as int],
            ));
            i = i + 1;
        }
        assert(self@.rules.take(self@.rules.len() as int) =~= self@.rules);
        PrimmelPackage {
            id: self.id.clone(),
            version: self.version.clone(),
            title: copy_opt(&self.title),
            rules,
        }
    }
}

/// The packages a projection may consult, with per-package sourcing (`dir` —
/// operator-pinned local file, `registry` — a transform subregister item,
/// `fixtures` — the built-in demo corpus).
#[derive(Debug, PartialEq)]
pub struct PackageSet {
    /// Packages and their sourcing mode, keyed by package URN.
    pub packages: StrMap<(PrimmelPackage, &'static str)>,
}

impl View for PackageSet {
    type V = Map<Seq<char>, (PackageView, Seq<char>)>;

    open spec fn view(&self) -> Map<Seq<char>, (PackageView, Seq<char>)> {
        self.packages@.map_values(|e: (PrimmelPackage, &'static str)| (e.0@, e.1@))
    }
}

impl PackageSet {
    /// An empty set (no primmel bindings consult it).
    pub fn empty() -> (r: PackageSet)
        ensures
            r@ == Map::<Seq<char>, (PackageView, Seq<char>)>::empty(),
    {
        let r: PackageSet = PackageSet { packages: StrMap::new() };
        assert(r@ =~= Map::<Seq<char>, (PackageView, Seq<char>)>::empty());
        r
    }

    /// A one-package set with its source mode.
    pub fn of(package: PrimmelPackage, source: &'static str) -> (r: PackageSet)
        ensures
            r@ == map![package@.id => (package@, source@)],
    {
        let mut set: PackageSet = PackageSet::empty();
        set.insert(package, source);
        set
    }

    /// Add a package with its source mode.
    pub fn insert(&mut self, package: PrimmelPackage, source: &'static str)
        ensures
            final(self)@ == old(self)@.insert(package@.id, (package@, source@)),
    {
        let ghost before = self.packages@;
        let ghost p = package;
        self.packages.insert(package.id.clone(), (package, source));
        assert(self@ =~= old(self)@.insert(p@.id, (p@, source@)));
    }

    /// Look up a package by URN together with its sourcing mode.
    pub fn get(&self, id: &str) -> (r: Option<(&PrimmelPackage, &'static str)>)
        ensures
            match r {
                Some(found) => self@.contains_key(id@) && self@[id@] == (found.0@, found.1@),
                None => !self@.contains_key(id@),
            },
    {
        match self.packages.get(id) {
            Some(entry) => Some((&entry.0, entry.1)),
            None => None,
        }
    }
}

/// The message for a document that is no expression.
pub open spec fn no_expression() -> Seq<char> {
    "data did not match any variant of untagged enum Expr"@
}

/// The rounding mode of a wire name.
pub open spec fn mode_named(s: Seq<char>) -> Option<RoundingMode> {
    if s == "half-up"@ {
        Some(RoundingMode::HalfUp)
    } else if s == "half-even"@ {
        Some(RoundingMode::HalfEven)
    } else if s == "truncate"@ {
        Some(RoundingMode::Truncate)
    } else {
        None
    }
}

/// The comparison operator of a wire name.
pub open spec fn op_named(s: Seq<char>) -> Option<CmpOp> {
    if s == "lt"@ {
        Some(CmpOp::Lt)
    } else if s == "le"@ {
        Some(CmpOp::Le)
    } else if s == "gt"@ {
        Some(CmpOp::Gt)
    } else if s == "ge"@ {
        Some(CmpOp::Ge)
    } else if s == "eq"@ {
        Some(CmpOp::Eq)
    } else if s == "ne"@ {
        Some(CmpOp::Ne)
    } else {
        None
    }
}

/// The comparison operators, as a message lists them.
pub open spec fn op_names() -> Seq<char> {
    "one of `lt`, `le`, `gt`, `ge`, `eq`, `ne`"@
}

/// The comparison operator that a document writes, or why there is none.
pub open spec fn op_of(j: JsonView) -> Result<CmpOp, Seq<char>> {
    match tag_of(j) {
        Err(e) => Err(e),
        Ok((name, content)) => match (op_named(name), content_fault(content)) {
            (None, _) => Err(unknown_variant(name, op_names())),
            (Some(_), Some(e)) => Err(e),
            (Some(op), None) => Ok(op),
        },
    }
}

/// The rounding mode that a document writes.
pub open spec fn mode_of(j: JsonView) -> Option<RoundingMode> {
    match tag_of(j) {
        Ok((name, content)) => if content_fault(content) is None {
            mode_named(name)
        } else {
            None
        },
        Err(_) => None,
    }
}

/// An operator or a mode may be written as its name, or as an object with
/// `null` under the name: both are read alike.
pub proof fn a_name_and_its_object_read_alike(name: Seq<char>)
    ensures
        op_of(JsonView::Obj(map![name => JsonView::Null])) == op_of(JsonView::Str(name)),
        mode_of(JsonView::Obj(map![name => JsonView::Null])) == mode_of(JsonView::Str(name)),
{
    let m: Map<Seq<char>, JsonView> = map![name => JsonView::Null];
    assert(m.dom() =~= set![name]);
    assert(is_only(m, name));
    let k = choose|k: Seq<char>| is_only(m, k);
    assert(set![k].contains(name));
}

/// The decimal constant that a document writes.
pub open spec fn const_of(j: JsonView) -> Option<Decimal> {
    match member_view(j, "const"@) {
        Some(JsonView::Str(s)) => parsed_decimal(s),
        _ => None,
    }
}

/// The expression that a document writes; the first shape that fits counts.
pub open spec fn expr_of(j: JsonView) -> Option<ExprView>
    decreases j, 1nat,
{
    match j {
        JsonView::Obj(m) => if m.contains_key("input"@) && m["input"@] is Str {
            Some(ExprView::Input(m["input"@]->Str_0))
        } else if const_of(j) is Some {
            Some(ExprView::Const(const_of(j)->0))
        } else if m.contains_key("add"@) && pair_of(m["add"@]) is Some {
            Some(ExprView::Add(Box::new((pair_of(m["add"@])->0).0), Box::new((pair_of(m["add"@])->0).1)))
        } else if m.contains_key("sub"@) && pair_of(m["sub"@]) is Some {
            Some(ExprView::Sub(Box::new((pair_of(m["sub"@])->0).0), Box::new((pair_of(m["sub"@])->0).1)))
        } else if m.contains_key("mul"@) && pair_of(m["mul"@]) is Some {
            Some(ExprView::Mul(Box::new((pair_of(m["mul"@])->0).0), Box::new((pair_of(m["mul"@])->0).1)))
        } else if m.contains_key("round"@) {
            round_of(m["round"@])
        } else {
            None
        },
        _ => None,
    }
}

/// The two expressions that a list of two documents writes.
pub open spec fn pair_of(j: JsonView) -> Option<(ExprView, ExprView)>
    decreases j, 0nat,
{
    match j {
        JsonView::Arr(items) => if items.len() == 2 {
            match (expr_of(items[0]), expr_of(items[1])) {
                (Some(a), Some(b)) => Some((a, b)),
                _ => None,
            }
        } else {
            None
        },
        _ => None,
    }
}

/// The rounding with these parts, where they fit.
pub open spec fn round_with(of: Option<ExprView>, decimals: JsonView, mode: JsonView) -> Option<
    ExprView,
> {
    match (of, decimals, mode_of(mode)) {
        (Some(of), JsonView::Num(d), Some(mode)) => if d <= 255 {
            Some(ExprView::Round(Box::new(of), d as u8, mode))
        } else {
            None
        },
        _ => None,
    }
}

/// The rounding that a document writes.
pub open spec fn round_of(j: JsonView) -> Option<ExprView>
    decreases j, 0nat,
{
    match j {
        JsonView::Obj(m) => if m.contains_key("of"@) && m.contains_key("decimals"@)
            && m.contains_key("mode"@) {
            round_with(expr_of(m["of"@]), m["decimals"@], m["mode"@])
        } else {
            None
        },
        JsonView::Arr(items) => if items.len() == 3 {
            round_with(expr_of(items[0]), items[1], items[2])
        } else {
            None
        },
        _ => None,
    }
}

/// Why a field is no expression.
pub open spec fn unreadable_expr(field: Option<JsonView>) -> Option<Seq<char>> {
    match field {
        Some(j) => if expr_of(j) is None {
            Some(no_expression())
        } else {
            None
        },
        None => None,
    }
}

/// Why a field is no comparison operator.
pub open spec fn unreadable_op(field: Option<JsonView>) -> Option<Seq<char>> {
    match field {
        Some(j) => err_of(op_of(j)),
        None => None,
    }
}

/// The predicate that a document writes, or why it cannot be read.
pub open spec fn predicate_of(j: JsonView) -> Result<PredicateView, Seq<char>> {
    let op = field_view(j, 0, "op"@);
    let lhs = field_view(j, 1, "lhs"@);
    let rhs = field_view(j, 2, "rhs"@);
    match record_fault(
        j,
        "struct Predicate"@,
        seq![
            required("op"@, op, unreadable_op(op)),
            required("lhs"@, lhs, unreadable_expr(lhs)),
            required("rhs"@, rhs, unreadable_expr(rhs)),
        ],
    ) {
        Some(e) => Err(e),
        None => Ok(
            PredicateView {
                op: op_of(op->0)->Ok_0,
                lhs: expr_of(lhs->0)->0,
                rhs: expr_of(rhs->0)->0,
            },
        ),
    }
}

/// The guard that a field writes, or why it cannot be read.
pub open spec fn guard_of(field: Option<JsonView>) -> Result<Option<PredicateView>, Seq<char>> {
    match field {
        None => Ok(None),
        Some(JsonView::Null) => Ok(None),
        Some(j) => match predicate_of(j) {
            Ok(p) => Ok(Some(p)),
            Err(e) => Err(e),
        },
    }
}

/// The arm that a document writes, or why it cannot be read.
pub open spec fn arm_of(j: JsonView) -> Result<ArmView, Seq<char>> {
    let label = field_view(j, 0, "label"@);
    let when = field_view(j, 1, "when"@);
    match record_fault(
        j,
        "struct Arm"@,
        seq![
            required("label"@, label, str_fault(label)),
            optional("when"@, when, err_of(guard_of(when))),
        ],
    ) {
        Some(e) => Err(e),
        None => Ok(ArmView { label: str_in(label), when: guard_of(when)->Ok_0 }),
    }
}

/// The arms that the first `n` documents write, or why the first unreadable
/// one cannot be read.
pub open spec fn arms_of(items: Seq<JsonView>, n: int) -> Result<Seq<ArmView>, Seq<char>>
    decreases n,
{
    if n <= 0 {
        Ok(Seq::empty())
    } else {
        match (arms_of(items, n - 1), arm_of(items[n - 1])) {
            (Err(e), _) => Err(e),
            (_, Err(e)) => Err(e),
            (Ok(done), Ok(arm)) => Ok(done.push(arm)),
        }
    }
}

/// The arms that a field writes, or why they cannot be read.
pub open spec fn arms_in(field: Option<JsonView>) -> Result<Seq<ArmView>, Seq<char>> {
    match field {
        None => Ok(Seq::empty()),
        Some(JsonView::Arr(items)) => arms_of(items, items.len() as int),
        Some(j) => Err(invalid_type(j, "a sequence"@)),
    }
}

/// The rule that a document writes, or why it cannot be read.
pub open spec fn rule_of(j: JsonView) -> Result<RuleView, Seq<char>> {
    let id = field_view(j, 0, "id"@);
    let clause_urn = field_view(j, 1, "clause_urn"@);
    let title = field_view(j, 2, "title"@);
    let arms = field_view(j, 3, "arms"@);
    match record_fault(
        j,
        "struct PrimmelRule"@,
        seq![
            required("id"@, id, str_fault(id)),
            required("clause_urn"@, clause_urn, str_fault(clause_urn)),
            optional("title"@, title, opt_str_fault(title)),
            required("arms"@, arms, err_of(arms_in(arms))),
        ],
    ) {
        Some(e) => Err(e),
        None => Ok(
            RuleView {
                id: str_in(id),
                clause_urn: str_in(clause_urn),
                title: opt_str_in(title),
                arms: arms_in(arms)->Ok_0,
            },
        ),
    }
}

/// The rules that the first `n` documents write, or why the first unreadable
/// one cannot be read.
pub open spec fn rules_of(items: Seq<JsonView>, n: int) -> Result<Seq<RuleView>, Seq<char>>
    decreases n,
{
    if n <= 0 {
        Ok(Seq::empty())
    } else {
        match (rules_of(items, n - 1), rule_of(items[n - 1])) {
            (Err(e), _) => Err(e),
            (_, Err(e)) => Err(e),
            (Ok(done), Ok(rule)) => Ok(done.push(rule)),
        }
    }
}

/// The rules that a field writes, or why they cannot be read.
pub open spec fn rules_in(field: Option<JsonView>) -> Result<Seq<RuleView>, Seq<char>> {
    match field {
        None => Ok(Seq::empty()),
        Some(JsonView::Arr(items)) => rules_of(items, items.len() as int),
        Some(j) => Err(invalid_type(j, "a sequence"@)),
    }
}

/// The package that a document writes, or why it cannot be read.
pub open spec fn package_of(j: JsonView) -> Result<PackageView, Seq<char>> {
    let id = field_view(j, 0, "id"@);
    let version = field_view(j, 1, "version"@);
    let title = field_view(j, 2, "title"@);
    let rules = field_view(j, 3, "rules"@);
    match record_fault(
        j,
        "struct PrimmelPackage"@,
        seq![
            required("id"@, id, str_fault(id)),
            required("version"@, version, str_fault(version)),
            optional("title"@, title, opt_str_fault(title)),
            required("rules"@, rules, err_of(rules_in(rules))),
        ],
    ) {
        Some(e) => Err(e),
        None => Ok(
            PackageView {
                id: str_in(id),
                version: str_in(version),
                title: opt_str_in(title),
                rules: rules_in(rules)->Ok_0,
            },
        ),
    }
}

/// The valid package that a document writes, or why there is none.
pub open spec fn accepted_package(j: JsonView) -> Result<PackageView, Seq<char>> {
    match package_of(j) {
        Err(e) => Err("primmel package does not parse: "@ + e),
        Ok(p) => match package_fault(p) {
            Some(f) => Err(f),
            None => Ok(p),
        },
    }
}

fn read_mode(s: &str) -> (r: Option<RoundingMode>)
    ensures
        r == mode_named(s@),
{
    if same(s, "half-up") {
        Some(RoundingMode::HalfUp)
    } else if same(s, "half-even") {
        Some(RoundingMode::HalfEven)
    } else if same(s, "truncate") {
        Some(RoundingMode::Truncate)
    } else {
        None
    }
}

fn read_op(s: &str) -> (r: Option<CmpOp>)
    ensures
        r == op_named(s@),
{
    if same(s, "lt") {
        Some(CmpOp::Lt)
    } else if same(s, "le") {
        Some(CmpOp::Le)
    } else if same(s, "gt") {
        Some(CmpOp::Gt)
    } else if same(s, "ge") {
        Some(CmpOp::Ge)
    } else if same(s, "eq") {
        Some(CmpOp::Eq)
    } else if same(s, "ne") {
        Some(CmpOp::Ne)
    } else {
        None
    }
}

fn read_op_tag(doc: &Json) -> (r: Result<CmpOp, String>)
    ensures
        match r {
            Ok(op) => op_of(doc@) == Ok::<CmpOp, Seq<char>>(op),
            Err(e) => op_of(doc@) == Err::<CmpOp, Seq<char>>(e@),
        },
{
    match read_tag(doc) {
        Err(e) => Err(e),
        Ok((name, content)) => match read_op(name) {
            None => Err(unknown_variant_text(name, "one of `lt`, `le`, `gt`, `ge`, `eq`, `ne`")),
            Some(op) => match content_fault_text(content) {
                Some(e) => Err(e),
                None => Ok(op),
            },
        },
    }
}

fn read_mode_tag(doc: &Json) -> (r: Option<RoundingMode>)
    ensures
        r == mode_of(doc@),
{
    match read_tag(doc) {
        Err(_) => None,
        Ok((name, content)) => match content_fault_text(content) {
            Some(_) => None,
            None => read_mode(name),
        },
    }
}

fn read_const(doc: &Json) -> (r: Option<Decimal>)
    ensures
        r == const_of(doc@),
{
    match doc.get("const") {
        Some(c) => match c.as_str() {
            Some(s) => match Decimal::parse(s) {
                Ok(d) => Some(d),
                Err(_) => None,
            },
            None => None,
        },
        None => None,
    }
}

fn read_pair(doc: &Json) -> (r: Option<(Box<Expr>, Box<Expr>)>)
    ensures
        match r {
            Some(p) => pair_of(doc@) == Some((p.0@, p.1@)),
            None => pair_of(doc@) is None,
        },
    decreases doc@, 0nat,
{
    match doc.as_array() {
        Some(items) => {
            if items.len() != 2 {
                return None;
            }
            let ghost views = json_views(items@);
            assert(views[0] == items@[0]@ && views[1] == items@[1]@);
            assert(decreases_to!(doc@ => views));
            match read_expr(&items[0]) {
                Some(a) => match read_expr(&items[1]) {
                    Some(b) => Some((Box::new(a), Box::new(b))),
                    None => None,
                },
                None => None,
            }
        },
        None => None,
    }
}

fn read_round(doc: &Json) -> (r: Option<Expr>)
    ensures
        match r {
            Some(e) => round_of(doc@) == Some(e@),
            None => round_of(doc@) is None,
        },
    decreases doc@, 0nat,
{
    match doc.as_array() {
        Some(items) => if items.len() > 3 {
            return None;
        },
        None => {},
    }
    match (doc.field(0, "of"), doc.field(1, "decimals"), doc.field(2, "mode")) {
        (Some(of), Some(decimals), Some(mode)) => {
            proof {
                if doc@ is Arr {
                    assert(decreases_to!(doc@ => doc@->Arr_0));
                    assert(decreases_to!(doc@->Arr_0 => doc@->Arr_0[0]));
                }
            }
            let d: u64 = match decimals.as_u64() {
                Some(d) => d,
                None => return None,
            };
            let m: RoundingMode = match read_mode_tag(mode) {
                Some(m) => m,
                None => return None,
            };
            if d > 255 {
                return None;
            }
            match read_expr(of) {
                Some(e) => Some(
                    Expr::Round { round: RoundSpec { of: Box::new(e), decimals: d as u8, mode: m } },
                ),
                None => None,
            }
        },
        _ => None,
    }
}

/// Read an expression.
fn read_expr(doc: &Json) -> (r: Option<Expr>)
    ensures
        match r {
            Some(e) => expr_of(doc@) == Some(e@),
            None => expr_of(doc@) is None,
        },
    decreases doc@, 1nat,
{
    match doc.get("input") {
        Some(j) => match j.as_str() {
            Some(s) => return Some(Expr::Input { input: s.to_string() }),
            None => {},
        },
        None => {},
    }
    match read_const(doc) {
        Some(value) => return Some(Expr::Const { value }),
        None => {},
    }
    match doc.get("add") {
        Some(j) => match read_pair(j) {
            Some(p) => return Some(Expr::Add { a: p.0, b: p.1 }),
            None => {},
        },
        None => {},
    }
    match doc.get("sub") {
        Some(j) => match read_pair(j) {
            Some(p) => return Some(Expr::Sub { a: p.0, b: p.1 }),
            None => {},
        },
        None => {},
    }
    match doc.get("mul") {
        Some(j) => match read_pair(j) {
            Some(p) => return Some(Expr::Mul { a: p.0, b: p.1 }),
            None => {},
        },
        None => {},
    }
    match doc.get("round") {
        Some(j) => read_round(j),
        None => None,
    }
}

fn read_expr_field(field: Option<&Json>) -> (r: (Option<Expr>, Option<String>))
    ensures
        opt_text(r.1) == unreadable_expr(found(field)),
        field is Some && r.1 is None ==> r.0 is Some && expr_of(found(field)->0) == Some((r.0->0)@),
        field is None ==> r.0 is None,
{
    match field {
        None => (None, None),
        Some(j) => match read_expr(j) {
            Some(e) => (Some(e), None),
            None => (
                None,
                Some("data did not match any variant of untagged enum Expr".to_string()),
            ),
        },
    }
}

fn read_op_field(field: Option<&Json>) -> (r: (Option<CmpOp>, Option<String>))
    ensures
        opt_text(r.1) == unreadable_op(found(field)),
        field is Some && r.1 is None ==> r.0 is Some && op_of(found(field)->0) == Ok::<
            CmpOp,
            Seq<char>,
        >(r.0->0),
        field is None ==> r.0 is None,
{
    match field {
        None => (None, None),
        Some(j) => match read_op_tag(j) {
            Ok(op) => (Some(op), None),
            Err(e) => (None, Some(e)),
        },
    }
}

fn read_predicate(doc: &Json) -> (r: Result<Predicate, String>)
    ensures
        match r {
            Ok(p) => predicate_of(doc@) == Ok::<PredicateView, Seq<char>>(p@),
            Err(e) => predicate_of(doc@) == Err::<PredicateView, Seq<char>>(e@),
        },
{
    let op: Option<&Json> = doc.field(0, "op");
    let lhs: Option<&Json> = doc.field(1, "lhs");
    let rhs: Option<&Json> = doc.field(2, "rhs");
    let (op_read, op_why) = read_op_field(op);
    let (lhs_read, lhs_why) = read_expr_field(lhs);
    let (rhs_read, rhs_why) = read_expr_field(rhs);
    let fields: Vec<Field> = vec![
        Field::required("op", op, op_why),
        Field::required("lhs", lhs, lhs_why),
        Field::required("rhs", rhs, rhs_why),
    ];
    assert(field_views(fields@) =~= seq![fields@[0]@, fields@[1]@, fields@[2]@]);
    match record_fault_text(doc, "struct Predicate", &fields) {
        Some(e) => Err(e),
        None => {
            assert(fields@[0].present && fields@[1].present && fields@[2].present);
            Ok(Predicate { op: op_read.unwrap(), lhs: lhs_read.unwrap(), rhs: rhs_read.unwrap() })
        },
    }
}

fn read_guard(field: Option<&Json>) -> (r: Result<Option<Predicate>, String>)
    ensures
        match r {
            Ok(w) => guard_of(found(field)) == Ok::<Option<PredicateView>, Seq<char>>(
                (match w {
                    Some(p) => Some(p@),
                    None => None,
                }),
            ),
            Err(e) => guard_of(found(field)) == Err::<Option<PredicateView>, Seq<char>>(e@),
        },
{
    broadcast use json_view_cases;

    match field {
        None => Ok(None),
        Some(Json::Null) => Ok(None),
        Some(j) => match read_predicate(j) {
            Ok(p) => Ok(Some(p)),
            Err(e) => Err(e),
        },
    }
}

fn read_arm(doc: &Json) -> (r: Result<Arm, String>)
    ensures
        match r {
            Ok(a) => arm_of(doc@) == Ok::<ArmView, Seq<char>>(a@),
            Err(e) => arm_of(doc@) == Err::<ArmView, Seq<char>>(e@),
        },
{
    let label: Option<&Json> = doc.field(0, "label");
    let guard: Option<&Json> = doc.field(1, "when");
    let (when, why): (Option<Predicate>, Option<String>) = match read_guard(guard) {
        Ok(w) => (w, None),
        Err(e) => (None, Some(e)),
    };
    let fields: Vec<Field> = vec![
        Field::text("label", label),
        Field::optional("when", guard, why),
    ];
    assert(field_views(fields@) =~= seq![fields@[0]@, fields@[1]@]);
    match record_fault_text(doc, "struct Arm", &fields) {
        Some(e) => Err(e),
        None => {
            assert(fields@[0].present && fields@[1].fault is None);
            Ok(Arm { label: take_str(label), when })
        },
    }
}

fn read_arms(field: Option<&Json>) -> (r: Result<Vec<Arm>, String>)
    ensures
        match r {
            Ok(arms) => arms_in(found(field)) == Ok::<Seq<ArmView>, Seq<char>>(
                arms@.map_values(|a: Arm| a@),
            ),
            Err(e) => arms_in(found(field)) == Err::<Seq<ArmView>, Seq<char>>(e@),
        },
{
    let mut arms: Vec<Arm> = Vec::new();
    assert(arms@.map_values(|a: Arm| a@) =~= Seq::<ArmView>::empty());
    let items: &Vec<Json> = match field {
        None => return Ok(arms),
        Some(j) => match j.as_array() {
            Some(items) => items,
            None => return Err(invalid_type_text(j, "a sequence")),
        },
    };
    let ghost views = json_views(items@);
    let mut i: usize = 0;
    while i < items.len()
        invariant
            i <= items.len(),
            views == json_views(items@),
            found(field) == Some(JsonView::Arr(views)),
            arms_of(views, i as int) == Ok::<Seq<ArmView>, Seq<char>>(
                arms@.map_values(|a: Arm| a@),
            ),
        decreases items.len() - i,
    {
        assert(views[i as int] == items@[i as int]@);
        match read_arm(&items[i]) {
            Ok(arm) => {
                let ghost done = arms@;
                arms.push(arm);
                assert(arms@.map_values(|a: Arm| a@) =~= done.map_values(|a: Arm| a@).push(arm@));
            },
            Err(e) => {
                proof {
                    arms_of_stops(views, i as int + 1, items.len() as int);
                }
                return Err(e);
            },
        }
        i = i + 1;
    }
    Ok(arms)
}

fn read_rule(doc: &Json) -> (r: Result<PrimmelRule, String>)
    ensures
        match r {
            Ok(x) => rule_of(doc@) == Ok::<RuleView, Seq<char>>(x@),
            Err(e) => rule_of(doc@) == Err::<RuleView, Seq<char>>(e@),
        },
{
    let id: Option<&Json> = doc.field(0, "id");
    let clause_urn: Option<&Json> = doc.field(1, "clause_urn");
    let title: Option<&Json> = doc.field(2, "title");
    let list: Option<&Json> = doc.field(3, "arms");
    let (arms, why): (Vec<Arm>, Option<String>) = match read_arms(list) {
        Ok(arms) => (arms, None),
        Err(e) => (Vec::new(), Some(e)),
    };
    let fields: Vec<Field> = vec![
        Field::text("id", id),
        Field::text("clause_urn", clause_urn),
        Field::maybe_text("title", title),
        Field::required("arms", list, why),
    ];
    assert(field_views(fields@) =~= seq![fields@[0]@, fields@[1]@, fields@[2]@, fields@[3]@]);
    match record_fault_text(doc, "struct PrimmelRule", &fields) {
        Some(e) => Err(e),
        None => {
            assert(fields@[0].present && fields@[1].present && fields@[3].present);
            Ok(
                PrimmelRule {
                    id: take_str(id),
                    clause_urn: take_str(clause_urn),
                    title: take_opt_str(title),
                    arms,
                },
            )
        },
    }
}

/// A failure among the first documents is the failure of all.
proof fn arms_of_stops(items: Seq<JsonView>, i: int, n: int)
    requires
        0 <= i <= n,
        arms_of(items, i) is Err,
    ensures
        arms_of(items, n) == arms_of(items, i),
    decreases n - i,
{
    if i < n {
        arms_of_stops(items, i, n - 1);
    }
}

/// A failure among the first documents is the failure of all.
proof fn rules_of_stops(items: Seq<JsonView>, i: int, n: int)
    requires
        0 <= i <= n,
        rules_of(items, i) is Err,
    ensures
        rules_of(items, n) == rules_of(items, i),
    decreases n - i,
{
    if i < n {
        rules_of_stops(items, i, n - 1);
    }
}

fn read_rules(field: Option<&Json>) -> (r: Result<Vec<PrimmelRule>, String>)
    ensures
        match r {
            Ok(rules) => rules_in(found(field)) == Ok::<Seq<RuleView>, Seq<char>>(
                rules@.map_values(|x: PrimmelRule| x@),
            ),
            Err(e) => rules_in(found(field)) == Err::<Seq<RuleView>, Seq<char>>(e@),
        },
{
    let mut rules: Vec<PrimmelRule> = Vec::new();
    assert(rules@.map_values(|x: PrimmelRule| x@) =~= Seq::<RuleView>::empty());
    let items: &Vec<Json> = match field {
        None => return Ok(rules),
        Some(j) => match j.as_array() {
            Some(items) => items,
            None => return Err(invalid_type_text(j, "a sequence")),
        },
    };
    let ghost views = json_views(items@);
    let mut i: usize = 0;
    while i < items.len()
        invariant
            i <= items.len(),
            views == json_views(items@),
            found(field) == Some(JsonView::Arr(views)),
            rules_of(views, i as int) == Ok::<Seq<RuleView>, Seq<char>>(
                rules@.map_values(|x: PrimmelRule| x@),
            ),
        decreases items.len() - i,
    {
        assert(views[i as int] == items@[i as int]@);
        match read_rule(&items[i]) {
            Ok(rule) => {
                let ghost done = rules@;
                rules.push(rule);
                assert(rules@.map_values(|x: PrimmelRule| x@) =~= done.map_values(
                    |x: PrimmelRule| x@,
                ).push(rule@));
            },
            Err(e) => {
                proof {
                    rules_of_stops(views, i as int + 1, items.len() as int);
                }
                return Err(e);
            },
        }
        i = i + 1;
    }
    Ok(rules)
}

fn read_package(doc: &Json) -> (r: Result<PrimmelPackage, String>)
    ensures
        match r {
            Ok(p) => package_of(doc@) == Ok::<PackageView, Seq<char>>(p@),
            Err(e) => package_of(doc@) == Err::<PackageView, Seq<char>>(e@),
        },
{
    let id: Option<&Json> = doc.field(0, "id");
    let version: Option<&Json> = doc.field(1, "version");
    let title: Option<&Json> = doc.field(2, "title");
    let list: Option<&Json> = doc.field(3, "rules");
    let (rules, why): (Vec<PrimmelRule>, Option<String>) = match read_rules(list) {
        Ok(rules) => (rules, None),
        Err(e) => (Vec::new(), Some(e)),
    };
    let fields: Vec<Field> = vec![
        Field::text("id", id),
        Field::text("version", version),
        Field::maybe_text("title", title),
        Field::required("rules", list, why),
    ];
    assert(field_views(fields@) =~= seq![fields@[0]@, fields@[1]@, fields@[2]@, fields@[3]@]);
    match record_fault_text(doc, "struct PrimmelPackage", &fields) {
        Some(e) => Err(e),
        None => {
            assert(fields@[0].present && fields@[1].present && fields@[3].present);
            Ok(
                PrimmelPackage {
                    id: take_str(id),
                    version: take_str(version),
                    title: take_opt_str(title),
                    rules,
                },
            )
        },
    }
}

impl PrimmelPackage {
    /// Read and validate a package from its JSON document.
    pub fn from_json(doc: &Json) -> (r: Result<PrimmelPackage, String>)
        ensures
            match r {
                Ok(p) => accepted_package(doc@) == Ok::<PackageView, Seq<char>>(p@),
                Err(e) => accepted_package(doc@) == Err::<PackageView, Seq<char>>(e@),
            },
    {
        match read_package(doc) {
            Err(e) => {
                let mut out: String = "primmel package does not parse: ".to_string();
                out.append(e.as_str());
                Err(out)
            },
            Ok(p) => match p.validate() {
                Ok(()) => Ok(p),
                Err(e) => Err(e),
            },
        }
    }
}

/// Arm `i` does not apply: it has a guard, and the guard does not hold.
pub open spec fn passed_over(arms: Seq<ArmView>, i: int, env: Map<Seq<char>, Decimal>) -> bool {
    arms[i].when is Some && guard_holds(arms[i].when->0, env) == Ok::<bool, EvalErrorView>(false)
}

/// First match wins: the arm that applies decides, where no earlier one does.
pub proof fn first_match_wins(arms: Seq<ArmView>, k: int, i: int, env: Map<Seq<char>, Decimal>)
    requires
        0 <= i <= k < arms.len(),
        forall|j: int| i <= j < k ==> #[trigger] passed_over(arms, j, env),
        arms[k].when is None || guard_holds(arms[k].when->0, env) == Ok::<bool, EvalErrorView>(
            true,
        ),
    ensures
        decided(arms, i, env) == Ok::<OutcomeView, EvalErrorView>(
            OutcomeView { label: arms[k].label, matched_arm: Some(k) },
        ),
    decreases k - i,
{
    if i < k {
        assert(passed_over(arms, i, env));
        first_match_wins(arms, k, i + 1, env);
    }
}

/// Where no arm applies, the outcome is the explicit fall-through.
pub proof fn no_match_is_unclassified(arms: Seq<ArmView>, i: int, env: Map<Seq<char>, Decimal>)
    requires
        0 <= i <= arms.len(),
        forall|j: int| i <= j < arms.len() ==> #[trigger] passed_over(arms, j, env),
    ensures
        decided(arms, i, env) == Ok::<OutcomeView, EvalErrorView>(
            OutcomeView { label: UNCLASSIFIED@, matched_arm: None },
        ),
    decreases arms.len() - i,
{
    if i < arms.len() {
        assert(passed_over(arms, i, env));
        no_match_is_unclassified(arms, i + 1, env);
    }
}

/// Collecting keeps what was seen.
proof fn collected_keeps(e: ExprView, seen: Seq<Seq<char>>, name: Seq<char>)
    requires
        seen.contains(name),
    ensures
        collected(e, seen).contains(name),
    decreases e,
{
    match e {
        ExprView::Input(n) => {
            if !seen.contains(n) {
                let i = seen.index_of(name);
                assert(seen.push(n)[i] == name);
            }
        },
        ExprView::Const(_) => {},
        ExprView::Add(a, b) => {
            collected_keeps(*a, seen, name);
            collected_keeps(*b, collected(*a, seen), name);
        },
        ExprView::Sub(a, b) => {
            collected_keeps(*a, seen, name);
            collected_keeps(*b, collected(*a, seen), name);
        },
        ExprView::Mul(a, b) => {
            collected_keeps(*a, seen, name);
            collected_keeps(*b, collected(*a, seen), name);
        },
        ExprView::Round(of, _, _) => {
            collected_keeps(*of, seen, name);
        },
    }
}

/// `name` occurs in the expression.
pub open spec fn names(e: ExprView, name: Seq<char>) -> bool
    decreases e,
{
    match e {
        ExprView::Input(n) => n == name,
        ExprView::Const(_) => false,
        ExprView::Add(a, b) => names(*a, name) || names(*b, name),
        ExprView::Sub(a, b) => names(*a, name) || names(*b, name),
        ExprView::Mul(a, b) => names(*a, name) || names(*b, name),
        ExprView::Round(of, _, _) => names(*of, name),
    }
}

/// Every name that occurs is collected.
proof fn collected_has_names(e: ExprView, seen: Seq<Seq<char>>, name: Seq<char>)
    requires
        names(e, name),
    ensures
        collected(e, seen).contains(name),
    decreases e,
{
    match e {
        ExprView::Input(n) => {
            if !seen.contains(n) {
                assert(seen.push(n)[seen.len() as int] == n);
            }
        },
        ExprView::Const(_) => {},
        ExprView::Add(a, b) => {
            if names(*a, name) {
                collected_has_names(*a, seen, name);
                collected_keeps(*b, collected(*a, seen), name);
            } else {
                collected_has_names(*b, collected(*a, seen), name);
            }
        },
        ExprView::Sub(a, b) => {
            if names(*a, name) {
                collected_has_names(*a, seen, name);
                collected_keeps(*b, collected(*a, seen), name);
            } else {
                collected_has_names(*b, collected(*a, seen), name);
            }
        },
        ExprView::Mul(a, b) => {
            if names(*a, name) {
                collected_has_names(*a, seen, name);
                collected_keeps(*b, collected(*a, seen), name);
            } else {
                collected_has_names(*b, collected(*a, seen), name);
            }
        },
        ExprView::Round(of, _, _) => {
            collected_has_names(*of, seen, name);
        },
    }
}

/// Every name in the guard of one of the first arms is among the inputs.
proof fn arm_inputs_has_names(arms: Seq<ArmView>, i: int, n: int, name: Seq<char>)
    requires
        0 <= i < n <= arms.len(),
        arms[i].when is Some,
        names(arms[i].when->0.lhs, name) || names(arms[i].when->0.rhs, name),
    ensures
        arm_inputs(arms, n).contains(name),
    decreases n,
{
    let seen = arm_inputs(arms, n - 1);
    if i == n - 1 {
        let p = arms[i].when->0;
        if names(p.lhs, name) {
            collected_has_names(p.lhs, seen, name);
            collected_keeps(p.rhs, collected(p.lhs, seen), name);
        } else {
            collected_has_names(p.rhs, collected(p.lhs, seen), name);
        }
    } else {
        arm_inputs_has_names(arms, i, n - 1, name);
        match arms[n - 1].when {
            Some(p) => {
                collected_keeps(p.lhs, seen, name);
                collected_keeps(p.rhs, collected(p.lhs, seen), name);
            },
            None => {},
        }
    }
}

/// The inputs agree on every name of the expression.
pub open spec fn agree(
    e: ExprView,
    env: Map<Seq<char>, Decimal>,
    other: Map<Seq<char>, Decimal>,
) -> bool {
    forall|n: Seq<char>|
        #[trigger] names(e, n) ==> (env.contains_key(n) <==> other.contains_key(n)) && env[n]
            == other[n]
}

/// An expression reads its named inputs only.
pub proof fn evaluation_reads_named_inputs(
    e: ExprView,
    env: Map<Seq<char>, Decimal>,
    other: Map<Seq<char>, Decimal>,
)
    requires
        agree(e, env, other),
    ensures
        evaluated(e, env) == evaluated(e, other),
    decreases e,
{
    match e {
        ExprView::Input(n) => {
            assert(names(e, n));
        },
        ExprView::Const(_) => {},
        ExprView::Add(a, b) => {
            assert(agree(*a, env, other) && agree(*b, env, other)) by {
                assert forall|n: Seq<char>| #[trigger] names(*a, n) implies names(e, n) by {}
                assert forall|n: Seq<char>| #[trigger] names(*b, n) implies names(e, n) by {}
            }
            evaluation_reads_named_inputs(*a, env, other);
            evaluation_reads_named_inputs(*b, env, other);
        },
        ExprView::Sub(a, b) => {
            assert(agree(*a, env, other) && agree(*b, env, other)) by {
                assert forall|n: Seq<char>| #[trigger] names(*a, n) implies names(e, n) by {}
                assert forall|n: Seq<char>| #[trigger] names(*b, n) implies names(e, n) by {}
            }
            evaluation_reads_named_inputs(*a, env, other);
            evaluation_reads_named_inputs(*b, env, other);
        },
        ExprView::Mul(a, b) => {
            assert(agree(*a, env, other) && agree(*b, env, other)) by {
                assert forall|n: Seq<char>| #[trigger] names(*a, n) implies names(e, n) by {}
                assert forall|n: Seq<char>| #[trigger] names(*b, n) implies names(e, n) by {}
            }
            evaluation_reads_named_inputs(*a, env, other);
            evaluation_reads_named_inputs(*b, env, other);
        },
        ExprView::Round(of, _, _) => {
            assert(agree(*of, env, other)) by {
                assert forall|n: Seq<char>| #[trigger] names(*of, n) implies names(e, n) by {}
            }
            evaluation_reads_named_inputs(*of, env, other);
        },
    }
}

/// A rule's decision is a function of its declared inputs: where two
/// environments agree on every name that [`PrimmelRule::inputs`] lists, the
/// decision is the same.
pub proof fn decision_reads_declared_inputs(
    arms: Seq<ArmView>,
    i: int,
    env: Map<Seq<char>, Decimal>,
    other: Map<Seq<char>, Decimal>,
)
    requires
        0 <= i <= arms.len(),
        forall|n: Seq<char>|
            #[trigger] arm_inputs(arms, arms.len() as int).contains(n) ==> (env.contains_key(n)
                <==> other.contains_key(n)) && env[n] == other[n],
    ensures
        decided(arms, i, env) == decided(arms, i, other),
    decreases arms.len() - i,
{
    if i < arms.len() {
        match arms[i].when {
            None => {},
            Some(p) => {
                assert(agree(p.lhs, env, other)) by {
                    assert forall|n: Seq<char>| #[trigger] names(p.lhs, n) implies (
                    env.contains_key(n) <==> other.contains_key(n)) && env[n] == other[n] by {
                        arm_inputs_has_names(arms, i, arms.len() as int, n);
                    }
                }
                assert(agree(p.rhs, env, other)) by {
                    assert forall|n: Seq<char>| #[trigger] names(p.rhs, n) implies (
                    env.contains_key(n) <==> other.contains_key(n)) && env[n] == other[n] by {
                        arm_inputs_has_names(arms, i, arms.len() as int, n);
                    }
                }
                evaluation_reads_named_inputs(p.lhs, env, other);
                evaluation_reads_named_inputs(p.rhs, env, other);
            },
        }
        decision_reads_declared_inputs(arms, i + 1, env, other);
    }
}

/// An expression whose inputs all have values misses none.
proof fn evaluated_misses_nothing(e: ExprView, env: Map<Seq<char>, Decimal>)
    requires
        forall|n: Seq<char>| #[trigger] names(e, n) ==> env.contains_key(n),
    ensures
        !(evaluated(e, env) is Err && evaluated(e, env)->Err_0 is MissingInput),
    decreases e,
{
    match e {
        ExprView::Input(n) => {
            assert(names(e, n));
        },
        ExprView::Const(_) => {},
        ExprView::Add(a, b) => {
            assert forall|n: Seq<char>| #[trigger] names(*a, n) implies names(e, n) by {}
            assert forall|n: Seq<char>| #[trigger] names(*b, n) implies names(e, n) by {}
            evaluated_misses_nothing(*a, env);
            evaluated_misses_nothing(*b, env);
        },
        ExprView::Sub(a, b) => {
            assert forall|n: Seq<char>| #[trigger] names(*a, n) implies names(e, n) by {}
            assert forall|n: Seq<char>| #[trigger] names(*b, n) implies names(e, n) by {}
            evaluated_misses_nothing(*a, env);
            evaluated_misses_nothing(*b, env);
        },
        ExprView::Mul(a, b) => {
            assert forall|n: Seq<char>| #[trigger] names(*a, n) implies names(e, n) by {}
            assert forall|n: Seq<char>| #[trigger] names(*b, n) implies names(e, n) by {}
            evaluated_misses_nothing(*a, env);
            evaluated_misses_nothing(*b, env);
        },
        ExprView::Round(of, _, _) => {
            assert forall|n: Seq<char>| #[trigger] names(*of, n) implies names(e, n) by {}
            evaluated_misses_nothing(*of, env);
        },
    }
}

/// A rule whose declared inputs all have values reports no missing input.
pub proof fn bound_inputs_suffice(arms: Seq<ArmView>, i: int, env: Map<Seq<char>, Decimal>)
    requires
        0 <= i <= arms.len(),
        forall|n: Seq<char>|
            #[trigger] arm_inputs(arms, arms.len() as int).contains(n) ==> env.contains_key(n),
    ensures
        !(decided(arms, i, env) is Err && decided(arms, i, env)->Err_0 is MissingInput),
    decreases arms.len() - i,
{
    if i < arms.len() {
        match arms[i].when {
            None => {},
            Some(p) => {
                assert forall|n: Seq<char>| #[trigger] names(p.lhs, n) implies env.contains_key(
                    n,
                ) by {
                    arm_inputs_has_names(arms, i, arms.len() as int, n);
                }
                assert forall|n: Seq<char>| #[trigger] names(p.rhs, n) implies env.contains_key(
                    n,
                ) by {
                    arm_inputs_has_names(arms, i, arms.len() as int, n);
                }
                evaluated_misses_nothing(p.lhs, env);
                evaluated_misses_nothing(p.rhs, env);
            },
        }
        bound_inputs_suffice(arms, i + 1, env);
    }
}

proof fn rules_fault_free(p: PackageView, i: int, k: int)
    requires
        0 <= i <= k < p.rules.len(),
        rules_fault(p, i) is None,
    ensures
        rule_fault(p, k) is None,
    decreases k - i,
{
    if i < k {
        rules_fault_free(p, i + 1, k);
    }
}

proof fn arms_fault_free(r: RuleView, i: int, k: int)
    requires
        0 <= i <= k < r.arms.len(),
        arms_fault(r, i) is None,
    ensures
        arm_fault(r, k) is None,
    decreases k - i,
{
    if i < k {
        arms_fault_free(r, i + 1, k);
    }
}

/// What validation guarantees of a rule and its arms: a rule id of its own,
/// a clause URN, a table with at least one arm, a label on every arm, and an
/// unconditional arm only in last position.
pub proof fn validated_rules_are_sound(p: PackageView, k: int, a: int)
    requires
        package_fault(p) is None,
        0 <= k < p.rules.len(),
        0 <= a < p.rules[k].arms.len() || a == 0,
    ensures
        forall|j: int| 0 <= j < k ==> (#[trigger] p.rules[j]).id != p.rules[k].id,
        !is_blank(p.rules[k].id),
        "urn:"@.is_prefix_of(trimmed(p.rules[k].clause_urn)),
        p.rules[k].arms.len() > 0,
        !is_blank(p.rules[k].arms[a].label),
        p.rules[k].arms[a].when is None ==> a == p.rules[k].arms.len() - 1,
{
    rules_fault_free(p, 0, k);
    arms_fault_free(p.rules[k], 0, a);
}

/// Rounding to a digit count in range keeps no digit beyond it, and an
/// already short number stays as it is.
pub proof fn rounding_keeps_short_numbers(v: Decimal, decimals: int, mode: RoundingMode)
    requires
        v.valid(),
        0 <= decimals <= 18,
        v.exp() >= -decimals,
        rounded(v, decimals, mode) is Ok,
    ensures
        rounded(v, decimals, mode) == Ok::<Decimal, EvalErrorView>(v),
{
}

/// What rounding does to the number: the result has at most `decimals`
/// digits behind the point; half-up and half-even move it by at most half a
/// unit of the last kept digit; truncation moves it toward zero by less than
/// one such unit.
pub proof fn rounding_is_close(v: Decimal, decimals: int, mode: RoundingMode)
    requires
        v.valid(),
        0 <= decimals <= 18,
        rounded(v, decimals, mode) is Ok,
    ensures
        ({
            let r = rounded(v, decimals, mode)->Ok_0;
            let unit = pow10(EXP_LIMIT - decimals);
            &&& r.valid()
            &&& r.exp() >= -decimals
            &&& mode != RoundingMode::Truncate ==> -unit <= 2 * (r.value() - v.value()) <= unit
            &&& mode == RoundingMode::Truncate && v.value() >= 0 ==> v.value() - unit < r.value()
                <= v.value()
            &&& mode == RoundingMode::Truncate && v.value() < 0 ==> v.value() <= r.value()
                < v.value() + unit
        }),
{
    let unit = pow10(EXP_LIMIT - decimals);
    lemma_pow_positive(10, (EXP_LIMIT - decimals) as nat);
    let r = rounded(v, decimals, mode)->Ok_0;
    if v.exp() < -decimals {
        let k = -decimals - v.exp();
        let div = pow10(k);
        let low = pow10(v.exp() + EXP_LIMIT);
        lemma_pow_positive(10, k as nat);
        lemma_pow_positive(10, (v.exp() + EXP_LIMIT) as nat);
        lemma_pow_adds(10, k as nat, (v.exp() + EXP_LIMIT) as nat);
        assert(unit == div * low);
        lemma_pow_adds(10, 1, (k - 1) as nat);
        lemma_pow1(10);
        assert(div == 10 * pow10(k - 1));
        let mag = if v.mant() < 0 { -v.mant() } else { v.mant() };
        let q = mag / div;
        let rest = mag % div;
        vstd::arithmetic::div_mod::lemma_fundamental_div_mod(mag, div);
        vstd::arithmetic::div_mod::lemma_mod_bound(mag, div);
        let out = rounded_magnitude(v.mant(), k, mode);
        let kept = if v.mant() < 0 { -out } else { out };
        made_facts(kept, -decimals);
        reduced_facts(kept, -decimals);
        assert(r.value() == kept * unit);
        // In units of the dropped digits: the result is `out * div`, the
        // magnitude before is `mag`.
        let diff = out * div - mag;
        assert(diff == (out - q) * div - rest) by (nonlinear_arith)
            requires
                diff == out * div - mag,
                mag == div * q + rest,
        ;
        if out == q {
            assert((out - q) * div == 0) by (nonlinear_arith)
                requires
                    out == q,
            ;
        } else {
            assert((out - q) * div == div) by (nonlinear_arith)
                requires
                    out == q + 1,
            ;
        }
        assert(mode == RoundingMode::Truncate ==> -div < diff <= 0);
        assert(mode != RoundingMode::Truncate ==> -div <= 2 * diff <= div);
        assert(v.value() == v.mant() * low);
        if v.mant() < 0 {
            assert(kept * unit - v.mant() * low == -diff * low) by (nonlinear_arith)
                requires
                    kept == -out,
                    unit == div * low,
                    diff == out * div - mag,
                    mag == -v.mant(),
            ;
        } else {
            assert(kept * unit - v.mant() * low == diff * low) by (nonlinear_arith)
                requires
                    kept == out,
                    unit == div * low,
                    diff == out * div - mag,
                    mag == v.mant(),
            ;
        }
        crate::decimal::value_sign(v);
        if mode == RoundingMode::Truncate {
            assert(-unit < diff * low <= 0) by (nonlinear_arith)
                requires
                    -div < diff <= 0,
                    low > 0,
                    unit == div * low,
            ;
            assert(-diff * low == -(diff * low)) by (nonlinear_arith);
        } else {
            assert(-unit <= 2 * (diff * low) <= unit) by (nonlinear_arith)
                requires
                    -div <= 2 * diff <= div,
                    low > 0,
                    unit == div * low,
            ;
            assert(-diff * low == -(diff * low)) by (nonlinear_arith);
        }
    }
}

/// What the text of a package file comes to: the package, or why the file is
/// refused.
pub open spec fn file_package(name: Seq<char>, text: Seq<char>) -> Result<PackageView, Seq<char>> {
    match json_text(text) {
        Err(e) => Err(name + " is not valid JSON: "@ + e),
        Ok(doc) => match accepted_package(doc) {
            Err(e) => Err(name + ": "@ + e),
            Ok(p) => Ok(p),
        },
    }
}

impl PackageSet {
    /// Add the package of an operator-pinned file, given its name and text. A
    /// corrupt file is an error the operator must fix — packages are never
    /// silently skipped.
    pub fn add_file(&mut self, name: &str, text: &str) -> (r: Result<(), String>)
        ensures
            match file_package(name@, text@) {
                Ok(p) => r is Ok && final(self)@ == old(self)@.insert(p.id, (p, "dir"@)),
                Err(e) => r is Err && r->Err_0@ == e && final(self)@ == old(self)@,
            },
    {
        match Json::parse(text) {
            Err(e) => {
                let mut out: String = name.to_string();
                out.append(" is not valid JSON: ");
                out.append(e.as_str());
                Err(out)
            },
            Ok(doc) => match PrimmelPackage::from_json(&doc) {
                Err(e) => {
                    let mut out: String = name.to_string();
                    out.append(": ");
                    out.append(e.as_str());
                    Err(out)
                },
                Ok(p) => {
                    self.insert(p, "dir");
                    Ok(())
                },
            },
        }
    }
}

/// The comparisons are the order of the numbers, and agree with one another:
/// of `lt`, `eq` and `gt` exactly one holds; `le` is `lt` or `eq`, `ge` is
/// `gt` or `eq`, `ne` is what `eq` is not; and turned round, `lt` is `gt` and
/// `le` is `ge`.
pub proof fn comparisons_are_the_order_of_the_numbers(a: Decimal, b: Decimal)
    ensures
        op_holds(CmpOp::Lt, a, b) <==> a.value() < b.value(),
        op_holds(CmpOp::Eq, a, b) <==> a.value() == b.value(),
        op_holds(CmpOp::Gt, a, b) <==> b.value() < a.value(),
        op_holds(CmpOp::Le, a, b) <==> !op_holds(CmpOp::Gt, a, b),
        op_holds(CmpOp::Le, a, b) <==> op_holds(CmpOp::Lt, a, b) || op_holds(CmpOp::Eq, a, b),
        op_holds(CmpOp::Le, a, b) <==> op_holds(CmpOp::Ge, b, a),
        op_holds(CmpOp::Ge, a, b) <==> !op_holds(CmpOp::Lt, a, b),
        op_holds(CmpOp::Ge, a, b) <==> op_holds(CmpOp::Gt, a, b) || op_holds(CmpOp::Eq, a, b),
        op_holds(CmpOp::Lt, a, b) <==> op_holds(CmpOp::Gt, b, a),
        op_holds(CmpOp::Ne, a, b) <==> !op_holds(CmpOp::Eq, a, b),
        !(op_holds(CmpOp::Lt, a, b) && op_holds(CmpOp::Eq, a, b)),
        !(op_holds(CmpOp::Lt, a, b) && op_holds(CmpOp::Gt, a, b)),
        !(op_holds(CmpOp::Eq, a, b) && op_holds(CmpOp::Gt, a, b)),
{
}

/// `x op y`, of two numbers.
pub open spec fn relates(op: CmpOp, x: int, y: int) -> bool {
    match op {
        CmpOp::Lt => x < y,
        CmpOp::Le => x <= y,
        CmpOp::Gt => y < x,
        CmpOp::Ge => y <= x,
        CmpOp::Eq => x == y,
        CmpOp::Ne => x != y,
    }
}

/// Both sides of the guard have values, and its comparison is `b` of them.
pub open spec fn guard_says(p: PredicateView, env: Map<Seq<char>, Decimal>, b: bool) -> bool {
    match (evaluated(p.lhs, env), evaluated(p.rhs, env)) {
        (Ok(x), Ok(y)) => relates(p.op, x.value(), y.value()) == b,
        _ => false,
    }
}

/// The first arm that applies decides, with its label and its place: every
/// arm before it has a guard whose comparison is false of the two sides, and
/// it has none itself or one whose comparison is true.
pub proof fn the_first_arm_that_applies_decides(
    arms: Seq<ArmView>,
    k: int,
    env: Map<Seq<char>, Decimal>,
)
    requires
        0 <= k < arms.len(),
        forall|j: int|
            0 <= j < k ==> (#[trigger] arms[j]).when is Some && guard_says(
                arms[j].when->0,
                env,
                false,
            ),
        arms[k].when is None || guard_says(arms[k].when->0, env, true),
    ensures
        decided(arms, 0, env) is Ok,
        decided(arms, 0, env)->Ok_0.label == arms[k].label,
        decided(arms, 0, env)->Ok_0.matched_arm == Some(k),
{
    assert forall|j: int| 0 <= j < k implies #[trigger] passed_over(arms, j, env) by {
        assert(arms[j].when is Some && guard_says(arms[j].when->0, env, false));
    }
    first_match_wins(arms, k, 0, env);
}

/// Where every arm has a guard and no comparison is true, the outcome is the
/// explicit `unclassified`, and names no arm.
pub proof fn without_an_arm_that_applies_nothing_is_classified(
    arms: Seq<ArmView>,
    env: Map<Seq<char>, Decimal>,
)
    requires
        forall|j: int|
            0 <= j < arms.len() ==> (#[trigger] arms[j]).when is Some && guard_says(
                arms[j].when->0,
                env,
                false,
            ),
    ensures
        decided(arms, 0, env) is Ok,
        decided(arms, 0, env)->Ok_0.label == "unclassified"@,
        decided(arms, 0, env)->Ok_0.matched_arm is None,
{
    assert forall|j: int| 0 <= j < arms.len() implies #[trigger] passed_over(arms, j, env) by {
        assert(arms[j].when is Some && guard_says(arms[j].when->0, env, false));
    }
    no_match_is_unclassified(arms, 0, env);
}

/// A guard that cannot be evaluated stops the decision with its failure, the
/// left side's before the right side's; no later arm is looked at.
pub proof fn the_first_failure_stops_the_decision(
    arms: Seq<ArmView>,
    k: int,
    i: int,
    env: Map<Seq<char>, Decimal>,
)
    requires
        0 <= i <= k < arms.len(),
        forall|j: int|
            i <= j < k ==> (#[trigger] arms[j]).when is Some && guard_says(
                arms[j].when->0,
                env,
                false,
            ),
        arms[k].when is Some,
    ensures
        evaluated(arms[k].when->0.lhs, env) is Err ==> decided(arms, i, env) == Err::<
            OutcomeView,
            EvalErrorView,
        >(evaluated(arms[k].when->0.lhs, env)->Err_0),
        evaluated(arms[k].when->0.lhs, env) is Ok && evaluated(arms[k].when->0.rhs, env) is Err
            ==> decided(arms, i, env) == Err::<OutcomeView, EvalErrorView>(
            evaluated(arms[k].when->0.rhs, env)->Err_0,
        ),
    decreases k - i,
{
    if i < k {
        assert(arms[i].when is Some && guard_says(arms[i].when->0, env, false));
        the_first_failure_stops_the_decision(arms, k, i + 1, env);
    }
}

/// The constants of an expression and the inputs are numbers of the domain.
pub open spec fn in_domain(e: ExprView, env: Map<Seq<char>, Decimal>) -> bool
    decreases e,
{
    match e {
        ExprView::Input(name) => env.contains_key(name) ==> env[name].valid(),
        ExprView::Const(value) => value.valid(),
        ExprView::Add(a, b) => in_domain(*a, env) && in_domain(*b, env),
        ExprView::Sub(a, b) => in_domain(*a, env) && in_domain(*b, env),
        ExprView::Mul(a, b) => in_domain(*a, env) && in_domain(*b, env),
        ExprView::Round(of, _, _) => in_domain(*of, env),
    }
}

/// Evaluation is exact arithmetic on the inputs: an input has its value, a
/// constant its own; a sum, a difference and a product are those of the
/// numbers of both sides, and a rounding is within one unit of the last kept
/// digit. A failure of a side is the failure of the whole, the left side's
/// first; an absent input is named.
pub proof fn evaluation_is_exact(e: ExprView, env: Map<Seq<char>, Decimal>)
    requires
        in_domain(e, env),
    ensures
        evaluated(e, env) is Ok ==> evaluated(e, env)->Ok_0.valid(),
        match e {
            ExprView::Input(name) => if env.contains_key(name) {
                evaluated(e, env) == Ok::<Decimal, EvalErrorView>(env[name])
            } else {
                evaluated(e, env) == Err::<Decimal, EvalErrorView>(
                    EvalErrorView::MissingInput(name),
                )
            },
            ExprView::Const(value) => evaluated(e, env) == Ok::<Decimal, EvalErrorView>(value),
            ExprView::Add(a, b) => {
                &&& sides_fail_first(e, *a, *b, env)
                &&& evaluated(e, env) is Ok ==> evaluated(e, env)->Ok_0.value() == evaluated(
                    *a,
                    env,
                )->Ok_0.value() + evaluated(*b, env)->Ok_0.value()
            },
            ExprView::Sub(a, b) => {
                &&& sides_fail_first(e, *a, *b, env)
                &&& evaluated(e, env) is Ok ==> evaluated(e, env)->Ok_0.value() == evaluated(
                    *a,
                    env,
                )->Ok_0.value() - evaluated(*b, env)->Ok_0.value()
            },
            ExprView::Mul(a, b) => {
                &&& sides_fail_first(e, *a, *b, env)
                &&& evaluated(e, env) is Ok ==> evaluated(e, env)->Ok_0.value() * pow10(
                    EXP_LIMIT as int,
                ) == evaluated(*a, env)->Ok_0.value() * evaluated(*b, env)->Ok_0.value()
            },
            ExprView::Round(of, decimals, mode) => {
                &&& evaluated(*of, env) is Err ==> evaluated(e, env) == evaluated(*of, env)
                &&& evaluated(*of, env) is Ok ==> evaluated(e, env) == rounded(
                    evaluated(*of, env)->Ok_0,
                    decimals as int,
                    mode,
                )
            },
        },
    decreases e,
{
    match e {
        ExprView::Input(_) => {},
        ExprView::Const(_) => {},
        ExprView::Add(a, b) => {
            evaluation_is_exact(*a, env);
            evaluation_is_exact(*b, env);
            if evaluated(e, env) is Ok {
                crate::decimal::sum_is_exact(evaluated(*a, env)->Ok_0, evaluated(*b, env)->Ok_0);
            }
        },
        ExprView::Sub(a, b) => {
            evaluation_is_exact(*a, env);
            evaluation_is_exact(*b, env);
            if evaluated(e, env) is Ok {
                crate::decimal::difference_is_exact(
                    evaluated(*a, env)->Ok_0,
                    evaluated(*b, env)->Ok_0,
                );
            }
        },
        ExprView::Mul(a, b) => {
            evaluation_is_exact(*a, env);
            evaluation_is_exact(*b, env);
            if evaluated(e, env) is Ok {
                crate::decimal::product_is_exact(
                    evaluated(*a, env)->Ok_0,
                    evaluated(*b, env)->Ok_0,
                );
            }
        },
        ExprView::Round(of, decimals, mode) => {
            evaluation_is_exact(*of, env);
            if evaluated(e, env) is Ok {
                rounding_is_close(evaluated(*of, env)->Ok_0, decimals as int, mode);
            }
        },
    }
}

/// A failing side fails the whole, the left one first; where both have
/// values, only the domain can fail it.
pub open spec fn sides_fail_first(
    e: ExprView,
    a: ExprView,
    b: ExprView,
    env: Map<Seq<char>, Decimal>,
) -> bool {
    &&& evaluated(a, env) is Err ==> evaluated(e, env) == evaluated(a, env)
    &&& evaluated(a, env) is Ok && evaluated(b, env) is Err ==> evaluated(e, env) == evaluated(
        b,
        env,
    )
    &&& evaluated(a, env) is Ok && evaluated(b, env) is Ok && evaluated(e, env) is Err ==> evaluated(
        e,
        env,
    )->Err_0 == EvalErrorView::Arithmetic("the exact result leaves the decimal domain"@)
}

/// Arithmetic refuses only what leaves the domain: where both sides have
/// values whose exact sum, difference or product is a number `d` of the
/// domain, and the mantissas have room, the expression has the value `d`.
#[verifier::rlimit(80)]
#[verifier::spinoff_prover]
pub proof fn results_in_the_domain_are_given(
    a: ExprView,
    b: ExprView,
    env: Map<Seq<char>, Decimal>,
    d: Decimal,
)
    requires
        in_domain(a, env),
        in_domain(b, env),
        evaluated(a, env) is Ok,
        evaluated(b, env) is Ok,
        d.valid(),
    ensures
        ({
            let x = evaluated(a, env)->Ok_0;
            let y = evaluated(b, env)->Ok_0;
            let room = within(x.value(), x, y) && within(y.value(), x, y) && within(d.value(), x, y);
            let given = Ok::<Decimal, EvalErrorView>(d);
            &&& room && d.value() == x.value() + y.value() ==> evaluated(
                ExprView::Add(Box::new(a), Box::new(b)),
                env,
            ) == given
            &&& room && d.value() == x.value() - y.value() ==> evaluated(
                ExprView::Sub(Box::new(a), Box::new(b)),
                env,
            ) == given
            &&& fits(x.mant() * y.mant()) && d.value() * pow10(EXP_LIMIT as int) == x.value()
                * y.value() ==> evaluated(ExprView::Mul(Box::new(a), Box::new(b)), env) == given
        }),
{
    evaluation_is_exact(a, env);
    evaluation_is_exact(b, env);
    let x = evaluated(a, env)->Ok_0;
    let y = evaluated(b, env)->Ok_0;
    if within(x.value(), x, y) && within(y.value(), x, y) && within(d.value(), x, y) {
        sums_in_the_domain_are_found(x, y, d);
    }
    if fits(x.mant() * y.mant()) && d.value() * pow10(EXP_LIMIT as int) == x.value() * y.value() {
        products_in_the_domain_are_found(x, y, d);
    }
}

proof fn powers_join(m: nat, n: nat, a: int, b: int)
    requires
        pow(10, m) == a,
        pow(10, n) == b,
    ensures
        pow(10, m + n) == a * b,
{
    lemma_pow_adds(10, m, n);
}

/// How large the mantissas' scale is: ten to the power of 38, and of 39.
pub proof fn ten_to_38()
    ensures
        pow10(38) == 100_000_000_000_000_000_000_000_000_000_000_000_000,
        pow10(39) == 1_000_000_000_000_000_000_000_000_000_000_000_000_000,
{
    lemma_pow1(10);
    powers_join(1, 1, 10, 10);
    powers_join(2, 2, 100, 100);
    powers_join(4, 4, 10_000, 10_000);
    powers_join(8, 8, 100_000_000, 100_000_000);
    powers_join(16, 16, 10_000_000_000_000_000, 10_000_000_000_000_000);
    powers_join(32, 4, 100_000_000_000_000_000_000_000_000_000_000, 10_000);
    powers_join(36, 2, 1_000_000_000_000_000_000_000_000_000_000_000_000, 100);
    powers_join(38, 1, 100_000_000_000_000_000_000_000_000_000_000_000_000, 10);
}

/// Rounding to 18 digits or fewer gives a result wherever the number fits a
/// mantissa at the target and at most 38 digits are dropped.
#[verifier::rlimit(60)]
#[verifier::spinoff_prover]
pub proof fn rounding_gives_a_result(v: Decimal, decimals: int, mode: RoundingMode)
    requires
        v.valid(),
        0 <= decimals <= 18,
        v.exp() >= -decimals - 38,
        v.exp() >= -decimals ==> fits(v.mant() * pow10(v.exp() + decimals)),
    ensures
        rounded(v, decimals, mode) is Ok,
{
    if v.exp() < -decimals {
        let k = -decimals - v.exp();
        ten_to_38();
        if k < 38 {
            lemma_pow_increases(10, k as nat, 38);
        }
        lemma_pow_positive(10, k as nat);
        lemma_pow_increases(10, 1, k as nat);
        lemma_pow1(10);
        let mag = if v.mant() < 0 { -v.mant() } else { v.mant() };
        let q = mag / pow10(k);
        vstd::arithmetic::div_mod::lemma_div_is_ordered_by_denominator(mag, 10, pow10(k));
        vstd::arithmetic::div_mod::lemma_div_pos_is_pos(mag, pow10(k));
        let out = rounded_magnitude(v.mant(), k, mode);
        let kept = if v.mant() < 0 { -out } else { out };
        assert(0 <= out <= mag / 10 + 1);
        assert(fits(kept));
        reduced_facts(kept, -decimals);
        let r = reduced(kept, -decimals);
        if kept != 0 {
            let t = r.1 + decimals;
            if t > 39 {
                lemma_pow_increases(10, 39, t as nat);
                let p = pow10(t);
                assert(kept > i128::MAX || kept < -i128::MAX) by (nonlinear_arith)
                    requires
                        kept == r.0 * p,
                        r.0 != 0,
                        p > i128::MAX,
                ;
            }
        }
    }
}

/// How rounding resolves a midpoint, a number exactly half a unit of the last
/// kept digit away from its rounding: half-up goes away from zero, half-even
/// to the even neighbour.
#[verifier::rlimit(60)]
#[verifier::spinoff_prover]
pub proof fn midpoints_resolve_by_mode(v: Decimal, decimals: int, mode: RoundingMode)
    requires
        v.valid(),
        0 <= decimals <= 18,
        rounded(v, decimals, mode) is Ok,
        mode != RoundingMode::Truncate,
        ({
            let d = 2 * (rounded(v, decimals, mode)->Ok_0.value() - v.value());
            let unit = pow10(EXP_LIMIT - decimals);
            d == unit || d == -unit
        }),
    ensures
        mode == RoundingMode::HalfUp && v.value() > 0 ==> rounded(v, decimals, mode)->Ok_0.value()
            > v.value(),
        mode == RoundingMode::HalfUp && v.value() < 0 ==> rounded(v, decimals, mode)->Ok_0.value()
            < v.value(),
        mode == RoundingMode::HalfEven ==> rounded(v, decimals, mode)->Ok_0.value() % (2 * pow10(
            EXP_LIMIT - decimals,
        )) == 0,
{
    let unit = pow10(EXP_LIMIT - decimals);
    lemma_pow_positive(10, (EXP_LIMIT - decimals) as nat);
    let r = rounded(v, decimals, mode)->Ok_0;
    crate::decimal::value_sign(v);
    if v.exp() < -decimals {
        let k = -decimals - v.exp();
        let div = pow10(k);
        let low = pow10(v.exp() + EXP_LIMIT);
        lemma_pow_positive(10, k as nat);
        lemma_pow_positive(10, (v.exp() + EXP_LIMIT) as nat);
        lemma_pow_adds(10, k as nat, (v.exp() + EXP_LIMIT) as nat);
        lemma_pow_adds(10, 1, (k - 1) as nat);
        lemma_pow1(10);
        assert(div == 10 * pow10(k - 1));
        let mag = if v.mant() < 0 { -v.mant() } else { v.mant() };
        let q = mag / div;
        let rest = mag % div;
        vstd::arithmetic::div_mod::lemma_fundamental_div_mod(mag, div);
        vstd::arithmetic::div_mod::lemma_mod_bound(mag, div);
        let out = rounded_magnitude(v.mant(), k, mode);
        let kept = if v.mant() < 0 { -out } else { out };
        made_facts(kept, -decimals);
        assert(r.value() == kept * unit);
        let diff = out * div - mag;
        assert(diff == (out - q) * div - rest) by (nonlinear_arith)
            requires
                diff == out * div - mag,
                mag == div * q + rest,
        ;
        if out == q {
            assert((out - q) * div == 0) by (nonlinear_arith)
                requires
                    out == q,
            ;
        } else {
            assert((out - q) * div == div) by (nonlinear_arith)
                requires
                    out == q + 1,
            ;
        }
        let moved = r.value() - v.value();
        if v.mant() < 0 {
            assert(kept * unit - v.mant() * low == -(diff * low)) by (nonlinear_arith)
                requires
                    kept == -out,
                    unit == div * low,
                    diff == out * div - mag,
                    mag == -v.mant(),
            ;
        } else {
            assert(kept * unit - v.mant() * low == diff * low) by (nonlinear_arith)
                requires
                    kept == out,
                    unit == div * low,
                    diff == out * div - mag,
                    mag == v.mant(),
            ;
        }
        assert(2 * diff == div || 2 * diff == -div) by (nonlinear_arith)
            requires
                2 * moved == div * low || 2 * moved == -(div * low),
                moved == diff * low || moved == -(diff * low),
                low > 0,
        ;
        assert(2 * rest == div);
        if mode == RoundingMode::HalfUp {
            assert(2 * diff == div);
            assert(diff * low > 0) by (nonlinear_arith)
                requires
                    2 * diff == div,
                    div > 0,
                    low > 0,
            ;
        } else {
            assert(out % 2 == 0);
            let j = kept / 2;
            assert(kept == 2 * j);
            assert((2 * j) * unit == j * (2 * unit)) by (nonlinear_arith);
            vstd::arithmetic::div_mod::lemma_mod_multiples_basic(j, 2 * unit);
        }
    }
}

/// A rule is found by its id: the first of the package's rules that has it,
/// and none exactly where no rule has it.
pub proof fn rules_are_found_by_id(rules: Seq<RuleView>, id: Seq<char>, i: int)
    requires
        0 <= i <= rules.len(),
    ensures
        match rule_named(rules, id, i) {
            Some(r) => exists|k: int|
                i <= k < rules.len() && #[trigger] rules[k] == r && r.id == id && forall|j: int|
                    i <= j < k ==> (#[trigger] rules[j]).id != id,
            None => forall|j: int| i <= j < rules.len() ==> (#[trigger] rules[j]).id != id,
        },
    decreases rules.len() - i,
{
    if i < rules.len() {
        if rules[i].id == id {
            assert(rules[i] == rule_named(rules, id, i)->0);
        } else {
            rules_are_found_by_id(rules, id, i + 1);
            if rule_named(rules, id, i + 1) is Some {
                let r = rule_named(rules, id, i + 1)->0;
                let k = choose|k: int|
                    i + 1 <= k < rules.len() && #[trigger] rules[k] == r && r.id == id && forall|
                        j: int,
                    |
                        i + 1 <= j < k ==> (#[trigger] rules[j]).id != id;
                assert(rules[k] == r);
            }
        }
    }
}

/// The expression can stand in a rule: it names its inputs, and rounds to at
/// most 18 digits.
pub open spec fn sound_expr(e: ExprView) -> bool
    decreases e,
{
    match e {
        ExprView::Input(name) => !is_blank(name),
        ExprView::Const(_) => true,
        ExprView::Add(a, b) => sound_expr(*a) && sound_expr(*b),
        ExprView::Sub(a, b) => sound_expr(*a) && sound_expr(*b),
        ExprView::Mul(a, b) => sound_expr(*a) && sound_expr(*b),
        ExprView::Round(of, decimals, _) => decimals <= 18 && sound_expr(*of),
    }
}

proof fn sound_exprs_validate(e: ExprView, rule: Seq<char>)
    ensures
        expr_fault(e, rule) is None <==> sound_expr(e),
    decreases e,
{
    match e {
        ExprView::Input(_) => {},
        ExprView::Const(_) => {},
        ExprView::Add(a, b) => {
            sound_exprs_validate(*a, rule);
            sound_exprs_validate(*b, rule);
        },
        ExprView::Sub(a, b) => {
            sound_exprs_validate(*a, rule);
            sound_exprs_validate(*b, rule);
        },
        ExprView::Mul(a, b) => {
            sound_exprs_validate(*a, rule);
            sound_exprs_validate(*b, rule);
        },
        ExprView::Round(of, _, _) => sound_exprs_validate(*of, rule),
    }
}

/// The `i`-th arm of a table can stand there: it has a label, and a guard
/// that can stand in a rule, or none and then no arm behind it.
pub open spec fn sound_arm(arms: Seq<ArmView>, i: int) -> bool {
    &&& !is_blank(arms[i].label)
    &&& match arms[i].when {
        Some(p) => sound_expr(p.lhs) && sound_expr(p.rhs),
        None => i == arms.len() - 1,
    }
}

/// The `i`-th rule of a package can stand there: it has an id that no rule
/// before it has, names its clause by a URN, and has arms that can all stand
/// in its table.
pub open spec fn sound_rule(rules: Seq<RuleView>, i: int) -> bool {
    &&& !is_blank(rules[i].id)
    &&& forall|j: int| 0 <= j < i ==> (#[trigger] rules[j]).id != rules[i].id
    &&& "urn:"@.is_prefix_of(trimmed(rules[i].clause_urn))
    &&& rules[i].arms.len() > 0
    &&& forall|a: int| 0 <= a < rules[i].arms.len() ==> #[trigger] sound_arm(rules[i].arms, a)
}

/// A package validates exactly where it has an id and a version, and each of
/// its rules can stand in it.
pub proof fn sound_packages_validate(p: PackageView)
    ensures
        package_fault(p) is None <==> !is_blank(p.id) && !is_blank(p.version) && forall|i: int|
            0 <= i < p.rules.len() ==> #[trigger] sound_rule(p.rules, i),
{
    if package_fault(p) is None {
        assert forall|i: int| 0 <= i < p.rules.len() implies #[trigger] sound_rule(p.rules, i) by {
            rules_fault_free(p, 0, i);
            sound_rules_validate(p, i);
        }
    } else if !is_blank(p.id) && !is_blank(p.version) {
        rules_fault_means(p, 0);
    }
}

proof fn sound_rules_validate(p: PackageView, i: int)
    requires
        0 <= i < p.rules.len(),
    ensures
        rule_fault(p, i) is None <==> sound_rule(p.rules, i),
{
    let r = p.rules[i];
    if rule_fault(p, i) is None {
        assert forall|a: int| 0 <= a < r.arms.len() implies #[trigger] sound_arm(r.arms, a) by {
            arms_fault_free(r, 0, a);
            sound_arms_validate(r, a);
        }
    } else if arms_fault(r, 0) is Some {
        arms_fault_means(r, 0);
    }
}

proof fn sound_arms_validate(r: RuleView, a: int)
    requires
        0 <= a < r.arms.len(),
    ensures
        arm_fault(r, a) is None <==> sound_arm(r.arms, a),
{
    match r.arms[a].when {
        Some(p) => {
            sound_exprs_validate(p.lhs, r.id);
            sound_exprs_validate(p.rhs, r.id);
        },
        None => {},
    }
}

proof fn arms_fault_means(r: RuleView, i: int)
    requires
        0 <= i,
        arms_fault(r, i) is Some,
    ensures
        exists|a: int| i <= a < r.arms.len() && !#[trigger] sound_arm(r.arms, a),
    decreases r.arms.len() - i,
{
    sound_arms_validate(r, i);
    if arm_fault(r, i) is None {
        arms_fault_means(r, i + 1);
    } else {
        assert(!sound_arm(r.arms, i));
    }
}

proof fn rules_fault_means(p: PackageView, i: int)
    requires
        0 <= i,
        rules_fault(p, i) is Some,
    ensures
        exists|k: int| i <= k < p.rules.len() && !#[trigger] sound_rule(p.rules, k),
    decreases p.rules.len() - i,
{
    sound_rules_validate(p, i);
    if rule_fault(p, i) is None {
        rules_fault_means(p, i + 1);
    } else {
        assert(!sound_rule(p.rules, i));
    }
}

/// The wire name of a rounding mode.
pub open spec fn mode_name(mode: RoundingMode) -> Seq<char> {
    match mode {
        RoundingMode::HalfUp => "half-up"@,
        RoundingMode::HalfEven => "half-even"@,
        RoundingMode::Truncate => "truncate"@,
    }
}

/// The wire name of a comparison operator.
pub open spec fn op_name(op: CmpOp) -> Seq<char> {
    match op {
        CmpOp::Lt => "lt"@,
        CmpOp::Le => "le"@,
        CmpOp::Gt => "gt"@,
        CmpOp::Ge => "ge"@,
        CmpOp::Eq => "eq"@,
        CmpOp::Ne => "ne"@,
    }
}

/// Each mode and each operator is read from its own name, and from no other.
#[verifier::rlimit(80)]
#[verifier::spinoff_prover]
pub proof fn names_are_read(mode: RoundingMode, op: CmpOp, s: Seq<char>)
    ensures
        mode_of(JsonView::Str(s)) == Some(mode) <==> s == mode_name(mode),
        op_of(JsonView::Str(s)) == Ok::<CmpOp, Seq<char>>(op) <==> s == op_name(op),
{
    reveal_strlit("half-up");
    reveal_strlit("half-even");
    reveal_strlit("truncate");
    assert("half-up"@.len() == 7 && "half-even"@.len() == 9 && "truncate"@.len() == 8);
    reveal_strlit("lt");
    reveal_strlit("le");
    reveal_strlit("gt");
    reveal_strlit("ge");
    reveal_strlit("eq");
    reveal_strlit("ne");
    assert("lt"@[0] == 'l' && "lt"@[1] == 't');
    assert("le"@[0] == 'l' && "le"@[1] == 'e');
    assert("gt"@[0] == 'g' && "gt"@[1] == 't');
    assert("ge"@[0] == 'g' && "ge"@[1] == 'e');
    assert("eq"@[0] == 'e' && "eq"@[1] == 'q');
    assert("ne"@[0] == 'n' && "ne"@[1] == 'e');
}

/// An expression as a document.
pub open spec fn written_expr(e: ExprView, list: bool) -> JsonView
    decreases e,
{
    match e {
        ExprView::Input(name) => JsonView::Obj(map!["input"@ => JsonView::Str(name)]),
        ExprView::Const(d) => JsonView::Obj(map!["const"@ => JsonView::Str(decimal_text(d))]),
        ExprView::Add(a, b) => JsonView::Obj(
            map!["add"@ => JsonView::Arr(seq![written_expr(*a, list), written_expr(*b, list)])],
        ),
        ExprView::Sub(a, b) => JsonView::Obj(
            map!["sub"@ => JsonView::Arr(seq![written_expr(*a, list), written_expr(*b, list)])],
        ),
        ExprView::Mul(a, b) => JsonView::Obj(
            map!["mul"@ => JsonView::Arr(seq![written_expr(*a, list), written_expr(*b, list)])],
        ),
        ExprView::Round(of, decimals, mode) => JsonView::Obj(
            map!["round"@ => written(
                list,
                map![
                    "of"@ => written_expr(*of, list),
                    "decimals"@ => JsonView::Num(decimals as u64),
                    "mode"@ => JsonView::Str(mode_name(mode)),
                ],
                seq![
                    written_expr(*of, list),
                    JsonView::Num(decimals as u64),
                    JsonView::Str(mode_name(mode)),
                ],
            )],
        ),
    }
}

/// Every constant of the expression is a number of the domain.
pub open spec fn constants_valid(e: ExprView) -> bool
    decreases e,
{
    match e {
        ExprView::Input(_) => true,
        ExprView::Const(d) => d.valid(),
        ExprView::Add(a, b) => constants_valid(*a) && constants_valid(*b),
        ExprView::Sub(a, b) => constants_valid(*a) && constants_valid(*b),
        ExprView::Mul(a, b) => constants_valid(*a) && constants_valid(*b),
        ExprView::Round(of, _, _) => constants_valid(*of),
    }
}

/// The names that tell the shapes of an expression and the fields of the
/// records apart.
#[verifier::rlimit(80)]
#[verifier::spinoff_prover]
proof fn keys_differ()
    ensures
        "input"@ != "const"@,
        "add"@ != "input"@ && "add"@ != "const"@,
        "sub"@ != "input"@ && "sub"@ != "const"@ && "sub"@ != "add"@,
        "mul"@ != "input"@ && "mul"@ != "const"@ && "mul"@ != "add"@ && "mul"@ != "sub"@,
        "round"@ != "input"@ && "round"@ != "const"@ && "round"@ != "add"@ && "round"@ != "sub"@
            && "round"@ != "mul"@,
        "of"@ != "decimals"@ && "of"@ != "mode"@ && "decimals"@ != "mode"@,
        "op"@ != "lhs"@ && "op"@ != "rhs"@ && "lhs"@ != "rhs"@,
        "label"@ != "when"@,
        "id"@ != "clause_urn"@ && "id"@ != "title"@ && "id"@ != "arms"@ && "clause_urn"@ != "title"@
            && "clause_urn"@ != "arms"@ && "title"@ != "arms"@,
        "id"@ != "version"@ && "id"@ != "rules"@ && "version"@ != "title"@ && "version"@ != "rules"@
            && "title"@ != "rules"@,
{
    reveal_strlit("input");
    reveal_strlit("const");
    reveal_strlit("add");
    reveal_strlit("sub");
    reveal_strlit("mul");
    reveal_strlit("round");
    reveal_strlit("of");
    reveal_strlit("decimals");
    reveal_strlit("mode");
    reveal_strlit("op");
    reveal_strlit("lhs");
    reveal_strlit("rhs");
    reveal_strlit("label");
    reveal_strlit("when");
    reveal_strlit("id");
    reveal_strlit("clause_urn");
    reveal_strlit("title");
    reveal_strlit("arms");
    reveal_strlit("version");
    reveal_strlit("rules");
    assert("input"@[0] == 'i' && "const"@[0] == 'c' && "round"@[0] == 'r');
    assert("add"@[0] == 'a' && "sub"@[0] == 's' && "mul"@[0] == 'm');
    assert("lhs"@[0] == 'l' && "rhs"@[0] == 'r');
    assert("title"@[0] == 't' && "rules"@[0] == 'r');
    assert("input"@.len() == 5 && "add"@.len() == 3 && "of"@.len() == 2 && "decimals"@.len() == 8
        && "mode"@.len() == 4 && "op"@.len() == 2 && "lhs"@.len() == 3 && "label"@.len() == 5
        && "when"@.len() == 4 && "id"@.len() == 2 && "clause_urn"@.len() == 10 && "title"@.len() == 5
        && "arms"@.len() == 4 && "version"@.len() == 7 && "rules"@.len() == 5);
}

/// A written expression reads back as the expression.
#[verifier::rlimit(80)]
#[verifier::spinoff_prover]
pub proof fn expressions_read_back(e: ExprView, list: bool)
    requires
        constants_valid(e),
    ensures
        expr_of(written_expr(e, list)) == Some(e),
    decreases e,
{
    keys_differ();
    match e {
        ExprView::Input(_) => {},
        ExprView::Const(d) => text_reads_back(d),
        ExprView::Add(a, b) => {
            expressions_read_back(*a, list);
            expressions_read_back(*b, list);
            let pair = JsonView::Arr(seq![written_expr(*a, list), written_expr(*b, list)]);
            assert(pair_of(pair) == Some((*a, *b)));
        },
        ExprView::Sub(a, b) => {
            expressions_read_back(*a, list);
            expressions_read_back(*b, list);
            let pair = JsonView::Arr(seq![written_expr(*a, list), written_expr(*b, list)]);
            assert(pair_of(pair) == Some((*a, *b)));
        },
        ExprView::Mul(a, b) => {
            expressions_read_back(*a, list);
            expressions_read_back(*b, list);
            let pair = JsonView::Arr(seq![written_expr(*a, list), written_expr(*b, list)]);
            assert(pair_of(pair) == Some((*a, *b)));
        },
        ExprView::Round(of, decimals, mode) => {
            expressions_read_back(*of, list);
            names_are_read(mode, CmpOp::Eq, mode_name(mode));
            let j = written_expr(e, list);
            let r = j->Obj_0["round"@];
            assert(round_with(
                Some(*of),
                JsonView::Num(decimals as u64),
                JsonView::Str(mode_name(mode)),
            ) == Some(e));
            assert(round_of(r) == Some(e));
        },
    }
}

/// A guard as a document.
pub open spec fn written_guard(p: PredicateView, list: bool) -> JsonView {
    written(
        list,
        map![
            "op"@ => JsonView::Str(op_name(p.op)),
            "lhs"@ => written_expr(p.lhs, list),
            "rhs"@ => written_expr(p.rhs, list),
        ],
        seq![
            JsonView::Str(op_name(p.op)),
            written_expr(p.lhs, list),
            written_expr(p.rhs, list),
        ],
    )
}

/// An arm as a document.
pub open spec fn written_arm(a: ArmView, list: bool) -> JsonView {
    let when = match a.when {
        Some(p) => written_guard(p, list),
        None => JsonView::Null,
    };
    written(
        list,
        map!["label"@ => JsonView::Str(a.label), "when"@ => when],
        seq![JsonView::Str(a.label), when],
    )
}

/// A rule as a document.
pub open spec fn written_rule(r: RuleView, list: bool) -> JsonView {
    let arms = JsonView::Arr(r.arms.map_values(|a: ArmView| written_arm(a, list)));
    written(
        list,
        map![
            "id"@ => JsonView::Str(r.id),
            "clause_urn"@ => JsonView::Str(r.clause_urn),
            "title"@ => written_text(r.title),
            "arms"@ => arms,
        ],
        seq![JsonView::Str(r.id), JsonView::Str(r.clause_urn), written_text(r.title), arms],
    )
}

/// A package as a document.
pub open spec fn written_package(p: PackageView, list: bool) -> JsonView {
    let rules = JsonView::Arr(p.rules.map_values(|r: RuleView| written_rule(r, list)));
    written(
        list,
        map![
            "id"@ => JsonView::Str(p.id),
            "version"@ => JsonView::Str(p.version),
            "title"@ => written_text(p.title),
            "rules"@ => rules,
        ],
        seq![JsonView::Str(p.id), JsonView::Str(p.version), written_text(p.title), rules],
    )
}

/// Every constant of the arm's guard is a number of the domain.
pub open spec fn arm_constants_valid(a: ArmView) -> bool {
    match a.when {
        Some(p) => constants_valid(p.lhs) && constants_valid(p.rhs),
        None => true,
    }
}

/// A written guard reads back as the guard.
#[verifier::rlimit(80)]
#[verifier::spinoff_prover]
pub proof fn guards_read_back(p: PredicateView, list: bool)
    requires
        constants_valid(p.lhs),
        constants_valid(p.rhs),
    ensures
        predicate_of(written_guard(p, list)) == Ok::<PredicateView, Seq<char>>(p),
{
    keys_differ();
    names_are_read(RoundingMode::Truncate, p.op, op_name(p.op));
    expressions_read_back(p.lhs, list);
    expressions_read_back(p.rhs, list);
    let j = written_guard(p, list);
    let op = field_view(j, 0, "op"@);
    let lhs = field_view(j, 1, "lhs"@);
    let rhs = field_view(j, 2, "rhs"@);
    assert(op == Some(JsonView::Str(op_name(p.op))));
    assert(lhs == Some(written_expr(p.lhs, list)));
    assert(rhs == Some(written_expr(p.rhs, list)));
    sound_records_are_read(
        j,
        "struct Predicate"@,
        seq![
            required("op"@, op, unreadable_op(op)),
            required("lhs"@, lhs, unreadable_expr(lhs)),
            required("rhs"@, rhs, unreadable_expr(rhs)),
        ],
    );
}

/// A written arm reads back as the arm.
#[verifier::rlimit(80)]
#[verifier::spinoff_prover]
pub proof fn arms_read_back(a: ArmView, list: bool)
    requires
        arm_constants_valid(a),
    ensures
        arm_of(written_arm(a, list)) == Ok::<ArmView, Seq<char>>(a),
{
    keys_differ();
    let j = written_arm(a, list);
    let label = field_view(j, 0, "label"@);
    let when = field_view(j, 1, "when"@);
    assert(label == Some(JsonView::Str(a.label)));
    match a.when {
        Some(p) => {
            guards_read_back(p, list);
            assert(when == Some(written_guard(p, list)));
        },
        None => {
            assert(when == Some(JsonView::Null));
        },
    }
    assert(guard_of(when) == Ok::<Option<PredicateView>, Seq<char>>(a.when));
    sound_records_are_read(
        j,
        "struct Arm"@,
        seq![
            required("label"@, label, str_fault(label)),
            optional("when"@, when, err_of(guard_of(when))),
        ],
    );
}

proof fn tables_read_back(arms: Seq<ArmView>, list: bool, n: int)
    requires
        0 <= n <= arms.len(),
        forall|i: int| 0 <= i < arms.len() ==> arm_constants_valid(#[trigger] arms[i]),
    ensures
        arms_of(arms.map_values(|a: ArmView| written_arm(a, list)), n) == Ok::<
            Seq<ArmView>,
            Seq<char>,
        >(arms.take(n)),
    decreases n,
{
    if n > 0 {
        tables_read_back(arms, list, n - 1);
        arms_read_back(arms[n - 1], list);
        assert(arms.take(n) =~= arms.take(n - 1).push(arms[n - 1]));
    } else {
        assert(arms.take(0) =~= Seq::<ArmView>::empty());
    }
}

/// A written rule reads back as the rule.
#[verifier::rlimit(80)]
#[verifier::spinoff_prover]
pub proof fn rules_read_back(r: RuleView, list: bool)
    requires
        forall|i: int| 0 <= i < r.arms.len() ==> arm_constants_valid(#[trigger] r.arms[i]),
    ensures
        rule_of(written_rule(r, list)) == Ok::<RuleView, Seq<char>>(r),
{
    keys_differ();
    let j = written_rule(r, list);
    let docs = r.arms.map_values(|a: ArmView| written_arm(a, list));
    tables_read_back(r.arms, list, r.arms.len() as int);
    assert(r.arms.take(r.arms.len() as int) =~= r.arms);
    let id = field_view(j, 0, "id"@);
    let clause_urn = field_view(j, 1, "clause_urn"@);
    let title = field_view(j, 2, "title"@);
    let arms = field_view(j, 3, "arms"@);
    assert(id == Some(JsonView::Str(r.id)));
    assert(clause_urn == Some(JsonView::Str(r.clause_urn)));
    assert(title == Some(written_text(r.title)));
    assert(arms == Some(JsonView::Arr(docs)));
    assert(docs.len() == r.arms.len());
    sound_records_are_read(
        j,
        "struct PrimmelRule"@,
        seq![
            required("id"@, id, str_fault(id)),
            required("clause_urn"@, clause_urn, str_fault(clause_urn)),
            optional("title"@, title, opt_str_fault(title)),
            required("arms"@, arms, err_of(arms_in(arms))),
        ],
    );
}

proof fn rule_lists_read_back(rules: Seq<RuleView>, list: bool, n: int)
    requires
        0 <= n <= rules.len(),
        forall|k: int, i: int|
            0 <= k < rules.len() && 0 <= i < rules[k].arms.len() ==> arm_constants_valid(
                #[trigger] rules[k].arms[i],
            ),
    ensures
        rules_of(rules.map_values(|r: RuleView| written_rule(r, list)), n) == Ok::<
            Seq<RuleView>,
            Seq<char>,
        >(rules.take(n)),
    decreases n,
{
    if n > 0 {
        rule_lists_read_back(rules, list, n - 1);
        rules_read_back(rules[n - 1], list);
        assert(rules.take(n) =~= rules.take(n - 1).push(rules[n - 1]));
    } else {
        assert(rules.take(0) =~= Seq::<RuleView>::empty());
    }
}

/// A written package reads back as the package, whether it was written with
/// objects or with lists; and a valid one is accepted.
#[verifier::rlimit(80)]
#[verifier::spinoff_prover]
pub proof fn packages_read_back(p: PackageView, list: bool)
    requires
        forall|k: int, i: int|
            0 <= k < p.rules.len() && 0 <= i < p.rules[k].arms.len() ==> arm_constants_valid(
                #[trigger] p.rules[k].arms[i],
            ),
    ensures
        package_of(written_package(p, list)) == Ok::<PackageView, Seq<char>>(p),
        accepted_package(written_package(p, list)) is Ok <==> package_fault(p) is None,
        package_fault(p) is None ==> accepted_package(written_package(p, list)) == Ok::<
            PackageView,
            Seq<char>,
        >(p),
{
    keys_differ();
    let j = written_package(p, list);
    let docs = p.rules.map_values(|r: RuleView| written_rule(r, list));
    rule_lists_read_back(p.rules, list, p.rules.len() as int);
    assert(p.rules.take(p.rules.len() as int) =~= p.rules);
    let id = field_view(j, 0, "id"@);
    let version = field_view(j, 1, "version"@);
    let title = field_view(j, 2, "title"@);
    let rules = field_view(j, 3, "rules"@);
    assert(id == Some(JsonView::Str(p.id)));
    assert(version == Some(JsonView::Str(p.version)));
    assert(title == Some(written_text(p.title)));
    assert(rules == Some(JsonView::Arr(docs)));
    assert(docs.len() == p.rules.len());
    sound_records_are_read(
        j,
        "struct PrimmelPackage"@,
        seq![
            required("id"@, id, str_fault(id)),
            required("version"@, version, str_fault(version)),
            optional("title"@, title, opt_str_fault(title)),
            required("rules"@, rules, err_of(rules_in(rules))),
        ],
    );
}

} // verus!
