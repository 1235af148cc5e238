//! Exact decimal numbers.
//!
//! A [`Decimal`] is `mantissa * 10^exponent`, kept reduced: no trailing zero
//! in the mantissa, zero with exponent zero. Arithmetic is exact; what leaves
//! the domain is refused, never rounded.
use vstd::arithmetic::power::*;
use vstd::prelude::*;
use vstd::string::*;

use crate::text::{chars_of, nat_text, number_text, padded_number, text_of, zero_padded, zeros, zeros_text};

verus! {

/// The largest exponent, and the negated smallest one.
pub const EXP_LIMIT: i32 = 64;

/// Ten to the power of `n`.
pub open spec fn pow10(n: int) -> int {
    pow(10, n as nat)
}

/// `m` fits a mantissa.
pub open spec fn fits(m: int) -> bool {
    -i128::MAX <= m <= i128::MAX
}

/// `m * 10^e` with the trailing zeros of the mantissa moved to the exponent.
pub open spec fn reduced(m: int, e: int) -> (int, int)
    decreases (if m < 0 { -m } else { m }),
{
    if m == 0 {
        (0, 0)
    } else if m % 10 == 0 {
        reduced(m / 10, e + 1)
    } else {
        (m, e)
    }
}

/// `m * 10^e` lies in the domain.
pub open spec fn representable(m: int, e: int) -> bool {
    fits(reduced(m, e).0) && -EXP_LIMIT <= reduced(m, e).1 <= EXP_LIMIT
}

/// Why an exact result does not exist.
#[derive(Clone, Copy, Debug, PartialEq, Eq, Structural)]
pub enum DecimalError {
    /// The result is not `mantissa * 10^exponent` within the limits.
    OutOfDomain,
    /// The text is not a decimal number.
    Malformed,
}

/// An exact decimal number.
#[derive(Clone, Copy, Debug, PartialEq, Eq, Structural)]
pub struct Decimal {
    mant: i128,
    exp: i32,
}

impl Decimal {
    /// The mantissa.
    pub closed spec fn mant(self) -> int {
        self.mant as int
    }

    /// The exponent.
    pub closed spec fn exp(self) -> int {
        self.exp as int
    }

    /// Reduced, and within the limits.
    pub open spec fn valid(self) -> bool {
        &&& fits(self.mant())
        &&& -EXP_LIMIT <= self.exp() <= EXP_LIMIT
        &&& self.mant() == 0 ==> self.exp() == 0
        &&& self.mant() != 0 ==> self.mant() % 10 != 0
    }

    #[verifier::type_invariant]
    closed spec fn type_valid(self) -> bool {
        self.valid()
    }

    /// The number as a multiple of the smallest power of ten in the domain.
    pub open spec fn value(self) -> int {
        self.mant() * pow10(self.exp() + EXP_LIMIT)
    }

    /// The mantissa for the lower exponent `e`.
    pub open spec fn aligned(self, e: int) -> int {
        self.mant() * pow10(self.exp() - e)
    }

    /// The decimal with this mantissa and exponent.
    pub closed spec fn of_parts(m: int, e: int) -> Decimal {
        Decimal { mant: m as i128, exp: e as i32 }
    }

    /// The decimal `m * 10^e`, where it is in the domain.
    pub open spec fn made(m: int, e: int) -> Option<Decimal> {
        if representable(m, e) {
            Some(Decimal::of_parts(reduced(m, e).0, reduced(m, e).1))
        } else {
            None
        }
    }
}

/// The lower of the two exponents.
pub open spec fn common_exp(a: Decimal, b: Decimal) -> int {
    if a.exp() <= b.exp() {
        a.exp()
    } else {
        b.exp()
    }
}

/// The exact sum, where both terms and the sum fit a mantissa at the common
/// exponent.
pub open spec fn sum(a: Decimal, b: Decimal) -> Option<Decimal> {
    let e = common_exp(a, b);
    if fits(a.aligned(e)) && fits(b.aligned(e)) && fits(a.aligned(e) + b.aligned(e)) {
        Decimal::made(a.aligned(e) + b.aligned(e), e)
    } else {
        None
    }
}

/// The exact difference, under the same limits as [`sum`].
pub open spec fn difference(a: Decimal, b: Decimal) -> Option<Decimal> {
    let e = common_exp(a, b);
    if fits(a.aligned(e)) && fits(b.aligned(e)) && fits(a.aligned(e) - b.aligned(e)) {
        Decimal::made(a.aligned(e) - b.aligned(e), e)
    } else {
        None
    }
}

/// The exact product, where the product of the mantissas fits one.
pub open spec fn product(a: Decimal, b: Decimal) -> Option<Decimal> {
    if fits(a.mant() * b.mant()) {
        Decimal::made(a.mant() * b.mant(), a.exp() + b.exp())
    } else {
        None
    }
}

/// What a reduced number is: the same number, with no smaller exponent.
pub proof fn reduced_facts(m: int, e: int)
    ensures
        m != 0 ==> reduced(m, e).1 >= e && m == reduced(m, e).0 * pow10(reduced(m, e).1 - e),
        m != 0 ==> reduced(m, e).0 != 0 && reduced(m, e).0 % 10 != 0,
        m == 0 ==> reduced(m, e) == (0int, 0int),
        fits(m) ==> fits(reduced(m, e).0),
    decreases (if m < 0 { -m } else { m }),
{
    if m != 0 {
        if m % 10 == 0 {
            reduced_facts(m / 10, e + 1);
            let r = reduced(m / 10, e + 1);
            lemma_pow_adds(10, 1, (r.1 - e - 1) as nat);
            lemma_pow1(10);
            assert(m == 10 * (m / 10));
            assert(10 * (r.0 * pow10(r.1 - e - 1)) == r.0 * (10 * pow10(r.1 - e - 1)))
                by (nonlinear_arith);
        } else {
            lemma_pow0(10);
        }
    }
}

/// A valid decimal is its own reduced form.
pub proof fn made_of_valid(d: Decimal)
    requires
        d.valid(),
    ensures
        Decimal::made(d.mant(), d.exp()) == Some(d),
{
}

/// The exponent can be lowered: the number stays the same.
pub proof fn value_aligned(d: Decimal, e: int)
    requires
        -EXP_LIMIT <= e <= d.exp(),
    ensures
        d.value() == d.aligned(e) * pow10(e + EXP_LIMIT),
{
    lemma_pow_adds(10, (d.exp() - e) as nat, (e + EXP_LIMIT) as nat);
    assert(d.mant() * (pow10(d.exp() - e) * pow10(e + EXP_LIMIT)) == (d.mant() * pow10(d.exp() - e)) * pow10(e + EXP_LIMIT))
        by (nonlinear_arith);
}

/// A made decimal is valid and stands for `m * 10^e`.
pub proof fn made_facts(m: int, e: int)
    requires
        Decimal::made(m, e) is Some,
    ensures
        Decimal::made(m, e)->0.valid(),
        Decimal::made(m, e)->0.mant() == reduced(m, e).0,
        Decimal::made(m, e)->0.exp() == reduced(m, e).1,
        e >= -EXP_LIMIT ==> Decimal::made(m, e)->0.value() == m * pow10(e + EXP_LIMIT),
{
    reduced_facts(m, e);
    let d = Decimal::made(m, e)->0;
    if e >= -EXP_LIMIT {
        if m != 0 {
            let r = reduced(m, e);
            value_aligned(d, e);
        } else {
            assert(0 * pow10(e + EXP_LIMIT) == 0) by (nonlinear_arith);
            assert(0 * pow10(d.exp() + EXP_LIMIT) == 0) by (nonlinear_arith);
        }
    }
}

/// Two valid decimals that stand for the same number are the same decimal.
pub proof fn same_value_same_decimal(a: Decimal, b: Decimal)
    requires
        a.valid(),
        b.valid(),
        a.value() == b.value(),
    ensures
        a == b,
{
    let e = common_exp(a, b);
    value_aligned(a, e);
    value_aligned(b, e);
    lemma_pow_positive(10, (e + EXP_LIMIT) as nat);
    let p = pow10(e + EXP_LIMIT);
    assert(a.aligned(e) == b.aligned(e)) by (nonlinear_arith)
        requires
            a.aligned(e) * p == b.aligned(e) * p,
            p > 0,
    ;
    lemma_pow0(10);
    let (lo, hi) = if a.exp() <= b.exp() { (a, b) } else { (b, a) };
    assert(lo.aligned(e) == lo.mant()) by (nonlinear_arith)
        requires
            lo.aligned(e) == lo.mant() * pow10(0),
            pow10(0) == 1,
    ;
    if lo.exp() < hi.exp() {
        let k = hi.exp() - e;
        lemma_pow_adds(10, 1, (k - 1) as nat);
        lemma_pow1(10);
        let q = hi.mant() * pow10(k - 1);
        assert(hi.mant() * (10 * pow10(k - 1)) == 10 * q) by (nonlinear_arith)
            requires
                q == hi.mant() * pow10(k - 1),
        ;
        assert(lo.mant() == 10 * q);
        if lo.mant() != 0 {
            assert((10 * q) % 10 == 0);
        } else {
            lemma_pow_positive(10, k as nat);
            assert(hi.mant() == 0) by (nonlinear_arith)
                requires
                    hi.mant() * pow10(k) == 0,
                    pow10(k) > 0,
            ;
        }
    } else {
        assert(hi.aligned(e) == hi.mant()) by (nonlinear_arith)
            requires
                hi.aligned(e) == hi.mant() * pow10(0),
                pow10(0) == 1,
        ;
    }
}

/// Addition is exact: the sum stands for the sum of the numbers.
pub proof fn sum_is_exact(a: Decimal, b: Decimal)
    requires
        a.valid(),
        b.valid(),
        sum(a, b) is Some,
    ensures
        sum(a, b)->0.value() == a.value() + b.value(),
        sum(a, b)->0.valid(),
{
    let e = common_exp(a, b);
    value_aligned(a, e);
    value_aligned(b, e);
    made_facts(a.aligned(e) + b.aligned(e), e);
    let p = pow10(e + EXP_LIMIT);
    assert((a.aligned(e) + b.aligned(e)) * p == a.aligned(e) * p + b.aligned(e) * p)
        by (nonlinear_arith);
}

/// Subtraction is exact: the difference stands for the difference of the
/// numbers.
pub proof fn difference_is_exact(a: Decimal, b: Decimal)
    requires
        a.valid(),
        b.valid(),
        difference(a, b) is Some,
    ensures
        difference(a, b)->0.value() == a.value() - b.value(),
        difference(a, b)->0.valid(),
{
    let e = common_exp(a, b);
    value_aligned(a, e);
    value_aligned(b, e);
    made_facts(a.aligned(e) - b.aligned(e), e);
    let p = pow10(e + EXP_LIMIT);
    assert((a.aligned(e) - b.aligned(e)) * p == a.aligned(e) * p - b.aligned(e) * p)
        by (nonlinear_arith);
}

/// Multiplication is exact: the product stands for the product of the
/// numbers.
pub proof fn product_is_exact(a: Decimal, b: Decimal)
    requires
        a.valid(),
        b.valid(),
        product(a, b) is Some,
    ensures
        product(a, b)->0.value() * pow10(EXP_LIMIT as int) == a.value() * b.value(),
        product(a, b)->0.valid(),
{
    let m = a.mant() * b.mant();
    let e = a.exp() + b.exp();
    let r = product(a, b)->0;
    reduced_facts(m, e);
    let l = EXP_LIMIT as int;
    let pa = pow10(a.exp() + l);
    let pb = pow10(b.exp() + l);
    lemma_pow_adds(10, (a.exp() + l) as nat, (b.exp() + l) as nat);
    assert((a.mant() * pa) * (b.mant() * pb) == m * (pa * pb)) by (nonlinear_arith)
        requires
            m == a.mant() * b.mant(),
    ;
    assert(a.value() * b.value() == m * pow10(e + 2 * l));
    if m != 0 {
        lemma_pow_adds(10, (r.exp() - e) as nat, (e + 2 * l) as nat);
        lemma_pow_adds(10, (r.exp() + l) as nat, l as nat);
        let x = pow10(r.exp() - e);
        let y = pow10(e + 2 * l);
        assert(r.exp() - e + e + 2 * l == r.exp() + l + l);
        assert((r.mant() * x) * y == r.mant() * (x * y)) by (nonlinear_arith);
        assert((r.mant() * pow10(r.exp() + l)) * pow10(l) == r.mant() * (pow10(r.exp() + l) * pow10(l)))
            by (nonlinear_arith);
    } else {
        assert(0 * pow10(e + 2 * l) == 0) by (nonlinear_arith);
        assert(0 * pow10(r.exp() + l) == 0) by (nonlinear_arith);
        assert(0 * pow10(l) == 0) by (nonlinear_arith);
    }
}

/// The sign of the number is that of its mantissa.
pub proof fn value_sign(d: Decimal)
    requires
        d.valid(),
    ensures
        (d.value() < 0) == (d.mant() < 0),
        (d.value() == 0) == (d.mant() == 0),
{
    let p = pow10(d.exp() + EXP_LIMIT);
    lemma_pow_positive(10, (d.exp() + EXP_LIMIT) as nat);
    assert((d.mant() * p < 0) == (d.mant() < 0)) by (nonlinear_arith)
        requires
            p > 0,
    ;
    assert((d.mant() * p == 0) == (d.mant() == 0)) by (nonlinear_arith)
        requires
            p > 0,
    ;
}

/// Alignment keeps the sign.
proof fn aligned_sign(d: Decimal, e: int)
    requires
        e <= d.exp(),
    ensures
        (d.aligned(e) < 0) == (d.mant() < 0),
        (d.aligned(e) == 0) == (d.mant() == 0),
{
    let p = pow10(d.exp() - e);
    lemma_pow_positive(10, (d.exp() - e) as nat);
    assert((d.mant() * p < 0) == (d.mant() < 0)) by (nonlinear_arith)
        requires
            p > 0,
    ;
    assert((d.mant() * p == 0) == (d.mant() == 0)) by (nonlinear_arith)
        requires
            p > 0,
    ;
}

/// `c` is an ASCII digit.
pub open spec fn is_digit(c: char) -> bool {
    '0' <= c <= '9'
}

/// Every character is a digit.
pub open spec fn all_digits(s: Seq<char>) -> bool {
    forall|i: int| 0 <= i < s.len() ==> is_digit(#[trigger] s[i])
}

/// The number that a run of digits writes.
pub open spec fn digits_value(s: Seq<char>) -> int
    decreases s.len(),
{
    if s.len() == 0 {
        0
    } else {
        10 * digits_value(s.drop_last()) + (s.last() as int - 48)
    }
}

/// `m` with a sign.
pub open spec fn signed(negative: bool, m: int) -> int {
    if negative {
        -m
    } else {
        m
    }
}

/// The first position from `i` on that holds a point, or the end.
pub open spec fn dot_from(s: Seq<char>, i: int) -> int
    decreases s.len() - i,
{
    if i < 0 || i >= s.len() || s[i] == '.' {
        i
    } else {
        dot_from(s, i + 1)
    }
}

/// The text behind a leading minus sign.
pub open spec fn unsigned_part(s: Seq<char>) -> Seq<char> {
    if s.len() > 0 && s[0] == '-' {
        s.skip(1)
    } else {
        s.skip(0)
    }
}

/// What stands before the point and behind it, without the point.
pub open spec fn number_digits(body: Seq<char>) -> Seq<char> {
    let dot = dot_from(body, 0);
    if dot < body.len() {
        body.take(dot) + body.skip(dot + 1)
    } else {
        body
    }
}

/// The decimal number that `s` writes: an optional minus sign, at least one
/// digit, and optionally a point followed by at least one digit.
pub open spec fn parsed_decimal(s: Seq<char>) -> Option<Decimal> {
    let body = unsigned_part(s);
    let dot = dot_from(body, 0);
    let fraction = if dot < body.len() {
        body.len() - dot - 1
    } else {
        0
    };
    if dot == 0 || (dot < body.len() && fraction == 0) || !all_digits(number_digits(body)) {
        None
    } else {
        Decimal::made(
            signed(s.len() > 0 && s[0] == '-', digits_value(number_digits(body))),
            -fraction,
        )
    }
}

/// The text of a decimal number.
pub open spec fn decimal_text(d: Decimal) -> Seq<char> {
    let digits = nat_text((if d.mant() < 0 { -d.mant() } else { d.mant() }) as nat);
    let body = if d.exp() >= 0 {
        digits + zeros(d.exp() as nat)
    } else {
        let padded = zero_padded(digits, (1 - d.exp()) as nat);
        padded.take(padded.len() + d.exp()) + seq!['.'] + padded.skip(padded.len() + d.exp())
    };
    if d.mant() < 0 {
        seq!['-'] + body
    } else {
        body
    }
}

proof fn digits_value_nonneg(s: Seq<char>)
    requires
        all_digits(s),
    ensures
        digits_value(s) >= 0,
    decreases s.len(),
{
    if s.len() > 0 {
        assert(is_digit(s.last()));
        assert forall|i: int| 0 <= i < s.drop_last().len() implies is_digit(#[trigger] s.drop_last()[i]) by {
            assert(is_digit(s[i]));
        }
        digits_value_nonneg(s.drop_last());
    }
}

/// A longer run of digits writes no smaller number.
proof fn digits_value_grows(s: Seq<char>, i: int, n: int)
    requires
        all_digits(s),
        0 <= i <= n <= s.len(),
    ensures
        digits_value(s.take(i)) <= digits_value(s.take(n)),
    decreases n - i,
{
    if i < n {
        digits_value_grows(s, i, n - 1);
        let t = s.take(n);
        assert(t.drop_last() =~= s.take(n - 1));
        assert(is_digit(s[n - 1]));
        assert forall|j: int| 0 <= j < s.take(n - 1).len() implies is_digit(#[trigger] s.take(n - 1)[j]) by {
            assert(is_digit(s[j]));
        }
        digits_value_nonneg(s.take(n - 1));
    }
}

/// A number whose last digit is not zero is no multiple of ten.
proof fn digits_value_last(s: Seq<char>)
    requires
        s.len() > 0,
        is_digit(s.last()),
        s.last() != '0',
    ensures
        digits_value(s) % 10 != 0,
{
}

/// Ten to the power of `k`, where it fits.
pub fn ten_to(k: u32) -> (r: Option<i128>)
    ensures
        match r {
            Some(p) => p == pow10(k as int) && p > 0,
            None => pow10(k as int) > i128::MAX,
        },
{
    let mut p: i128 = 1;
    let mut i: u32 = 0;
    proof {
        lemma_pow0(10);
    }
    while i < k
        invariant
            i <= k,
            p == pow10(i as int),
            p > 0,
        decreases k - i,
    {
        proof {
            lemma_pow_adds(10, 1, i as nat);
            lemma_pow1(10);
        }
        match p.checked_mul(10) {
            Some(q) => {
                p = q;
            },
            None => {
                proof {
                    lemma_pow_increases(10, (i + 1) as nat, k as nat);
                }
                return None;
            },
        }
        i = i + 1;
    }
    Some(p)
}

/// `m * 10^k`, where it fits a mantissa.
pub fn scaled(m: i128, k: u32) -> (r: Option<i128>)
    requires
        fits(m as int),
    ensures
        match r {
            Some(s) => s == m * pow10(k as int) && fits(s as int),
            None => !fits(m * pow10(k as int)),
        },
{
    if m == 0 {
        assert(0 * pow10(k as int) == 0) by (nonlinear_arith);
        return Some(0);
    }
    match ten_to(k) {
        Some(p) => match m.checked_mul(p) {
            Some(s) => if s == i128::MIN {
                None
            } else {
                Some(s)
            },
            None => None,
        },
        None => {
            proof {
                let p = pow10(k as int);
                assert(m * p > i128::MAX || m * p < -i128::MAX) by (nonlinear_arith)
                    requires
                        m != 0,
                        p > i128::MAX,
                ;
            }
            None
        },
    }
}

impl Decimal {
    /// The number `mant * 10^exp`.
    pub fn new(mant: i128, exp: i32) -> (r: Result<Decimal, DecimalError>)
        ensures
            match r {
                Ok(d) => Decimal::made(mant as int, exp as int) == Some(d),
                Err(e) => Decimal::made(mant as int, exp as int) is None && e
                    == DecimalError::OutOfDomain,
            },
    {
        if mant == 0 {
            return Ok(Decimal { mant: 0, exp: 0 });
        }
        if mant == i128::MIN {
            assert(i128::MIN % 10 != 0);
            return Err(DecimalError::OutOfDomain);
        }
        let negative: bool = mant < 0;
        let mut mag: u128 = if negative {
            (-mant) as u128
        } else {
            mant as u128
        };
        let mut e: i64 = exp as i64;
        while mag % 10 == 0 && e <= EXP_LIMIT as i64
            invariant
                0 < mag <= i128::MAX,
                exp <= e,
                e <= EXP_LIMIT + 1 || e == exp,
                reduced(mant as int, exp as int) == reduced(
                    if negative { -(mag as int) } else { mag as int },
                    e as int,
                ),
            decreases mag,
        {
            mag = mag / 10;
            e = e + 1;
        }
        proof {
            reduced_facts(if negative { -(mag as int) } else { mag as int }, e as int);
        }
        if e > EXP_LIMIT as i64 || e < -(EXP_LIMIT as i64) {
            return Err(DecimalError::OutOfDomain);
        }
        let m: i128 = if negative {
            -(mag as i128)
        } else {
            mag as i128
        };
        Ok(Decimal { mant: m, exp: e as i32 })
    }
}

impl Decimal {
    /// The number zero.
    pub fn zero() -> (r: Decimal)
        ensures
            r.mant() == 0,
            r.exp() == 0,
            r.value() == 0,
            r.valid(),
    {
        assert(0 * pow10(EXP_LIMIT as int) == 0) by (nonlinear_arith);
        Decimal { mant: 0, exp: 0 }
    }

    /// The mantissa.
    pub fn mantissa(&self) -> (r: i128)
        ensures
            r == self.mant(),
            self.valid(),
    {
        proof {
            use_type_invariant(self);
        }
        self.mant
    }

    /// The exponent.
    pub fn exponent(&self) -> (r: i32)
        ensures
            r == self.exp(),
            self.valid(),
    {
        proof {
            use_type_invariant(self);
        }
        self.exp
    }

    /// Whether the number is zero.
    pub fn is_zero(&self) -> (r: bool)
        ensures
            r == (self.value() == 0),
            r == (self.mant() == 0),
    {
        proof {
            use_type_invariant(self);
            value_sign(*self);
        }
        self.mant == 0
    }

    /// Whether the number is below zero.
    pub fn is_negative(&self) -> (r: bool)
        ensures
            r == (self.value() < 0),
            r == (self.mant() < 0),
    {
        proof {
            use_type_invariant(self);
            value_sign(*self);
        }
        self.mant < 0
    }

    /// The mantissa for the lower exponent `e`, where it fits one.
    fn align(&self, e: i32) -> (r: Option<i128>)
        requires
            -EXP_LIMIT <= e <= self.exp(),
        ensures
            match r {
                Some(m) => m == self.aligned(e as int) && fits(m as int),
                None => !fits(self.aligned(e as int)),
            },
    {
        proof {
            use_type_invariant(self);
        }
        scaled(self.mant, (self.exp - e) as u32)
    }

    /// The exact sum.
    pub fn add(&self, other: &Decimal) -> (r: Result<Decimal, DecimalError>)
        ensures
            match r {
                Ok(d) => sum(*self, *other) == Some(d) && d.value() == self.value() + other.value(),
                Err(e) => sum(*self, *other) is None && e == DecimalError::OutOfDomain,
            },
    {
        proof {
            use_type_invariant(self);
            use_type_invariant(other);
            if sum(*self, *other) is Some {
                sum_is_exact(*self, *other);
            }
        }
        let e: i32 = if self.exp <= other.exp {
            self.exp
        } else {
            other.exp
        };
        match (self.align(e), other.align(e)) {
            (Some(a), Some(b)) => match a.checked_add(b) {
                Some(t) => if t == i128::MIN {
                    Err(DecimalError::OutOfDomain)
                } else {
                    Decimal::new(t, e)
                },
                None => Err(DecimalError::OutOfDomain),
            },
            _ => Err(DecimalError::OutOfDomain),
        }
    }

    /// The exact difference.
    pub fn sub(&self, other: &Decimal) -> (r: Result<Decimal, DecimalError>)
        ensures
            match r {
                Ok(d) => difference(*self, *other) == Some(d) && d.value() == self.value()
                    - other.value(),
                Err(e) => difference(*self, *other) is None && e == DecimalError::OutOfDomain,
            },
    {
        proof {
            use_type_invariant(self);
            use_type_invariant(other);
            if difference(*self, *other) is Some {
                difference_is_exact(*self, *other);
            }
        }
        let e: i32 = if self.exp <= other.exp {
            self.exp
        } else {
            other.exp
        };
        match (self.align(e), other.align(e)) {
            (Some(a), Some(b)) => match a.checked_sub(b) {
                Some(t) => if t == i128::MIN {
                    Err(DecimalError::OutOfDomain)
                } else {
                    Decimal::new(t, e)
                },
                None => Err(DecimalError::OutOfDomain),
            },
            _ => Err(DecimalError::OutOfDomain),
        }
    }

    /// The exact product.
    pub fn mul(&self, other: &Decimal) -> (r: Result<Decimal, DecimalError>)
        ensures
            match r {
                Ok(d) => product(*self, *other) == Some(d) && d.value() * pow10(EXP_LIMIT as int)
                    == self.value() * other.value(),
                Err(e) => product(*self, *other) is None && e == DecimalError::OutOfDomain,
            },
    {
        proof {
            use_type_invariant(self);
            use_type_invariant(other);
            if product(*self, *other) is Some {
                product_is_exact(*self, *other);
            }
        }
        match self.mant.checked_mul(other.mant) {
            Some(t) => if t == i128::MIN {
                Err(DecimalError::OutOfDomain)
            } else {
                Decimal::new(t, self.exp + other.exp)
            },
            None => Err(DecimalError::OutOfDomain),
        }
    }

    /// Whether the number is less than `other`.
    pub fn less(&self, other: &Decimal) -> (r: bool)
        ensures
            r == (self.value() < other.value()),
    {
        proof {
            use_type_invariant(self);
            use_type_invariant(other);
        }
        let e: i32 = if self.exp <= other.exp {
            self.exp
        } else {
            other.exp
        };
        let ghost p = pow10(e + EXP_LIMIT);
        let ghost x = self.aligned(e as int);
        let ghost y = other.aligned(e as int);
        proof {
            value_aligned(*self, e as int);
            value_aligned(*other, e as int);
            lemma_pow_positive(10, (e + EXP_LIMIT) as nat);
            assert((x * p < y * p) == (x < y)) by (nonlinear_arith)
                requires
                    p > 0,
            ;
            aligned_sign(*self, e as int);
            aligned_sign(*other, e as int);
            lemma_pow0(10);
            assert(self.mant() * 1 == self.mant()) by (nonlinear_arith);
            assert(other.mant() * 1 == other.mant()) by (nonlinear_arith);
        }
        match (self.align(e), other.align(e)) {
            (Some(a), Some(b)) => a < b,
            // One term outgrows every mantissa: its sign decides.
            (None, _) => self.mant < 0,
            (_, None) => other.mant > 0,
        }
    }

    /// Whether the two numbers are the same.
    pub fn equal(&self, other: &Decimal) -> (r: bool)
        ensures
            r == (self.value() == other.value()),
            r == (*self == *other),
    {
        proof {
            use_type_invariant(self);
            use_type_invariant(other);
            if self.value() == other.value() {
                same_value_same_decimal(*self, *other);
            }
        }
        self.mant == other.mant && self.exp == other.exp
    }

    /// The number as text: digits, with a decimal point where there is a
    /// fraction, and a sign where it is below zero.
    pub fn to_text(&self) -> (r: String)
        ensures
            r@ == decimal_text(*self),
    {
        proof {
            use_type_invariant(self);
        }
        let mag: u128 = if self.mant < 0 {
            (-self.mant) as u128
        } else {
            self.mant as u128
        };
        let mut out: String = String::new();
        if self.mant < 0 {
            out.push('-');
        }
        if self.exp >= 0 {
            out.append(number_text(mag).as_str());
            out.append(zeros_text(self.exp as usize).as_str());
            assert(out@ =~= decimal_text(*self));
        } else {
            let k: usize = (-self.exp) as usize;
            let padded: Vec<char> = chars_of(padded_number(mag, k + 1).as_str());
            let cut: usize = padded.len() - k;
            out.append(text_of(&padded, 0, cut).as_str());
            out.push('.');
            out.append(text_of(&padded, cut, padded.len()).as_str());
            assert(padded@.subrange(0, cut as int) =~= padded@.take(cut as int));
            assert(padded@.subrange(cut as int, padded@.len() as int) =~= padded@.skip(cut as int));
            assert(out@ =~= decimal_text(*self));
        }
        out
    }

    /// Read a decimal number: an optional minus sign, digits, and optionally
    /// a point followed by digits.
    pub fn parse(s: &str) -> (r: Result<Decimal, DecimalError>)
        ensures
            match r {
                Ok(d) => parsed_decimal(s@) == Some(d),
                Err(_) => parsed_decimal(s@) is None,
            },
    {
        let chars: Vec<char> = chars_of(s);
        let negative: bool = chars.len() > 0 && chars[0] == '-';
        let start: usize = if negative {
            1
        } else {
            0
        };
        let ghost body = unsigned_part(s@);
        let mut digits: Vec<char> = Vec::new();
        let mut i: usize = start;
        while i < chars.len() && chars[i] != '.'
            invariant
                start <= i <= chars.len(),
                chars@ == s@,
                body == s@.skip(start as int),
                digits@ == body.take(i - start),
                dot_from(body, 0) == dot_from(body, i - start),
            decreases chars.len() - i,
        {
            assert(body[i - start] == chars@[i as int]);
            digits.push(chars[i]);
            assert(body.take(i - start + 1) =~= body.take(i - start).push(chars@[i as int]));
            i = i + 1;
        }
        let dot: usize = i - start;
        assert(dot == dot_from(body, 0)) by {
            if i < chars.len() {
                assert(body[i - start] == chars@[i as int]);
            }
        }
        let mut fraction: usize = 0;
        if i < chars.len() {
            let mut j: usize = i + 1;
            while j < chars.len()
                invariant
                    i < j <= chars.len(),
                    chars@ == s@,
                    body == s@.skip(start as int),
                    start <= i,
                    dot == i - start,
                    fraction == j - i - 1,
                    digits@ == body.take(dot as int) + body.subrange(dot + 1, j - start),
                decreases chars.len() - j,
            {
                digits.push(chars[j]);
                assert(body.subrange(dot + 1, j - start + 1) =~= body.subrange(
                    dot + 1,
                    j - start,
                ).push(chars@[j as int]));
                assert(digits@ =~= body.take(dot as int) + body.subrange(dot + 1, j - start + 1));
                fraction = fraction + 1;
                j = j + 1;
            }
            assert(body.subrange(dot + 1, body.len() as int) =~= body.skip(dot + 1));
            if fraction == 0 {
                return Err(DecimalError::Malformed);
            }
        }
        assert(digits@ =~= number_digits(body));
        if dot == 0 {
            return Err(DecimalError::Malformed);
        }
        let mut k: usize = 0;
        while k < digits.len()
            invariant
                k <= digits.len(),
                body == unsigned_part(s@),
                digits@ == number_digits(body),
                forall|n: int| 0 <= n < k ==> is_digit(#[trigger] digits@[n]),
            decreases digits.len() - k,
        {
            if !('0' <= digits[k] && digits[k] <= '9') {
                assert(!is_digit(digits@[k as int]));
                assert(!all_digits(digits@));
                return Err(DecimalError::Malformed);
            }
            k = k + 1;
        }
        assert(all_digits(digits@));
        read_digits(&digits, fraction, negative)
    }
}

/// The number written by `digits`, the last `fraction` of them behind the
/// point.
fn read_digits(digits: &Vec<char>, fraction: usize, negative: bool) -> (r: Result<
    Decimal,
    DecimalError,
>)
    requires
        all_digits(digits@),
        fraction <= digits.len(),
    ensures
        match r {
            Ok(d) => Decimal::made(signed(negative, digits_value(digits@)), -(fraction as int))
                == Some(d),
            Err(_) => Decimal::made(
                signed(negative, digits_value(digits@)),
                -(fraction as int),
            ) is None,
        },
{
    let ghost all = digits@;
    let mut n: usize = digits.len();
    let ghost f = -(fraction as int);
    assert(all.take(n as int) =~= all);
    while n > 0 && digits[n - 1] == '0'
        invariant
            n <= digits.len(),
            all == digits@,
            all_digits(all),
            reduced(signed(negative, digits_value(all)), f) == reduced(
                signed(negative, digits_value(all.take(n as int))),
                f + (digits.len() - n),
            ),
        decreases n,
    {
        let ghost t = all.take(n as int);
        proof {
            assert(t.drop_last() =~= all.take(n - 1));
            digits_value_nonneg(all.take(n - 1));
            let v = digits_value(all.take(n - 1));
            assert(digits_value(t) == 10 * v);
            assert(signed(negative, 10 * v) == 10 * signed(negative, v));
            assert((10 * signed(negative, v)) % 10 == 0);
            assert((10 * signed(negative, v)) / 10 == signed(negative, v));
        }
        n = n - 1;
    }
    let mut m: i128 = 0;
    let mut i: usize = 0;
    assert(digits_value(all.take(0)) == 0);
    while i < n
        invariant
            i <= n <= digits.len(),
            all == digits@,
            all_digits(all),
            0 <= m,
            m == digits_value(all.take(i as int)),
            f == -(fraction as int),
            n > 0 ==> all[n - 1] != '0',
            reduced(signed(negative, digits_value(all)), f) == reduced(
                signed(negative, digits_value(all.take(n as int))),
                f + (digits.len() - n),
            ),
        decreases n - i,
    {
        let ghost now = all.take(i as int + 1);
        assert(now.drop_last() =~= all.take(i as int));
        assert(is_digit(all[i as int]));
        let d: i128 = (digits[i] as u32 - 48) as i128;
        let shifted: Option<i128> = m.checked_mul(10);
        let next: Option<i128> = match shifted {
            Some(x) => x.checked_add(d),
            None => None,
        };
        match next {
            Some(x) => {
                m = x;
            },
            None => {
                proof {
                    digits_value_grows(all, i as int + 1, n as int);
                    let v = digits_value(all.take(n as int));
                    assert(v > i128::MAX);
                    assert(all.take(n as int).last() != '0');
                    digits_value_last(all.take(n as int));
                    assert(signed(negative, v) % 10 != 0);
                }
                return Err(DecimalError::OutOfDomain);
            },
        }
        i = i + 1;
    }
    let shift: usize = digits.len() - n;
    let mant: i128 = if negative {
        -m
    } else {
        m
    };
    if mant == 0 {
        return Ok(Decimal::zero());
    }
    if (fraction > shift && fraction - shift > 4096) || (shift > fraction && shift - fraction > 4096) {
        proof {
            reduced_facts(mant as int, f + shift);
            digits_value_last(all.take(n as int));
            assert(mant % 10 != 0);
        }
        return Err(DecimalError::OutOfDomain);
    }
    let e: i32 = if shift >= fraction {
        (shift - fraction) as i32
    } else {
        -((fraction - shift) as i32)
    };
    Decimal::new(mant, e)
}

/// The notation of a natural number is a run of digits that writes it.
pub proof fn nat_text_facts(n: nat)
    ensures
        nat_text(n).len() > 0,
        all_digits(nat_text(n)),
        digits_value(nat_text(n)) == n,
    decreases n,
{
    let t = nat_text(n);
    if n >= 10 {
        nat_text_facts(n / 10);
        assert(t.drop_last() =~= nat_text(n / 10));
    } else {
        assert(t.drop_last() =~= Seq::<char>::empty());
        assert(digits_value(t.drop_last()) == 0);
    }
}

/// Zeros in front change nothing.
pub proof fn digits_value_leading(s: Seq<char>, k: nat)
    ensures
        digits_value(zeros(k) + s) == digits_value(s),
    decreases s.len() + k,
{
    let t = zeros(k) + s;
    if s.len() > 0 {
        assert(t.drop_last() =~= zeros(k) + s.drop_last());
        digits_value_leading(s.drop_last(), k);
    } else if k > 0 {
        assert(t.drop_last() =~= zeros((k - 1) as nat) + s);
        digits_value_leading(s, (k - 1) as nat);
    } else {
        assert(t =~= s);
    }
}

/// Every zero behind multiplies by ten.
proof fn digits_value_trailing(s: Seq<char>, k: nat)
    ensures
        digits_value(s + zeros(k)) == digits_value(s) * pow10(k as int),
    decreases k,
{
    let t = s + zeros(k);
    if k > 0 {
        assert(t.drop_last() =~= s + zeros((k - 1) as nat));
        digits_value_trailing(s, (k - 1) as nat);
        lemma_pow_adds(10, 1, (k - 1) as nat);
        lemma_pow1(10);
        assert(10 * (digits_value(s) * pow10(k - 1)) == digits_value(s) * (10 * pow10(k - 1)))
            by (nonlinear_arith);
    } else {
        assert(t =~= s);
        lemma_pow0(10);
    }
}

proof fn dot_from_is(s: Seq<char>, i: int, j: int)
    requires
        0 <= i <= j <= s.len(),
        forall|k: int| i <= k < j ==> s[k] != '.',
        j < s.len() ==> s[j] == '.',
    ensures
        dot_from(s, i) == j,
    decreases j - i,
{
    if i < j {
        dot_from_is(s, i + 1, j);
    }
}

pub proof fn reduced_scaled(m: int, k: nat, e: int)
    requires
        m % 10 != 0,
    ensures
        reduced(m * pow10(k as int), e) == (m, e + k),
    decreases k,
{
    if k > 0 {
        lemma_pow_adds(10, 1, (k - 1) as nat);
        lemma_pow1(10);
        let x = m * pow10(k - 1);
        assert(m * (10 * pow10(k - 1)) == 10 * x) by (nonlinear_arith)
            requires
                x == m * pow10(k - 1),
        ;
        reduced_scaled(m, (k - 1) as nat, e + 1);
        lemma_pow_positive(10, (k - 1) as nat);
        assert(x != 0) by (nonlinear_arith)
            requires
                x == m * pow10(k - 1),
                m != 0,
                pow10(k - 1) > 0,
        ;
        assert((10 * x) % 10 == 0 && (10 * x) / 10 == x);
    } else {
        lemma_pow0(10);
    }
}

/// The text of a decimal number reads back as the same number.
pub proof fn text_reads_back(d: Decimal)
    requires
        d.valid(),
    ensures
        parsed_decimal(decimal_text(d)) == Some(d),
{
    let mag = (if d.mant() < 0 { -d.mant() } else { d.mant() }) as nat;
    let digits = nat_text(mag);
    nat_text_facts(mag);
    let text = decimal_text(d);
    let body = unsigned_part(text);
    if d.exp() >= 0 {
        let plain = digits + zeros(d.exp() as nat);
        assert(is_digit(plain[0]));
        assert(body =~= plain);
        assert(all_digits(body));
        assert forall|k: int| 0 <= k < body.len() implies body[k] != '.' by {
            assert(is_digit(body[k]));
        }
        dot_from_is(body, 0, body.len() as int);
        digits_value_trailing(digits, d.exp() as nat);
        let p = pow10(d.exp());
        assert(signed(d.mant() < 0, mag * p) == d.mant() * p) by (nonlinear_arith)
            requires
                mag == (if d.mant() < 0 { -d.mant() } else { d.mant() }),
        ;
        if d.mant() == 0 {
            lemma_pow0(10);
        } else {
            reduced_scaled(d.mant(), d.exp() as nat, 0);
        }
    } else {
        let padded = zero_padded(digits, (1 - d.exp()) as nat);
        let cut = padded.len() + d.exp();
        assert(all_digits(padded));
        let plain = padded.take(cut) + seq!['.'] + padded.skip(cut);
        assert(is_digit(padded[0]));
        assert(plain[0] == padded[0]);
        assert(body =~= plain);
        assert forall|k: int| 0 <= k < cut implies body[k] != '.' by {
            assert(body[k] == padded[k]);
            assert(is_digit(padded[k]));
        }
        dot_from_is(body, 0, cut);
        assert(number_digits(body) =~= padded);
        if digits.len() < 1 - d.exp() {
            digits_value_leading(digits, (1 - d.exp() - digits.len()) as nat);
        }
        made_of_valid(d);
    }
}

/// A decimal of the domain is what its number makes of any way to write it.
pub proof fn made_is(m: int, e: int, d: Decimal)
    requires
        d.valid(),
        e >= -EXP_LIMIT,
        d.value() == m * pow10(e + EXP_LIMIT),
    ensures
        Decimal::made(m, e) == Some(d),
{
    let l = EXP_LIMIT as int;
    let p = pow10(e + l);
    lemma_pow_positive(10, (e + l) as nat);
    made_of_valid(d);
    if d.mant() == 0 {
        assert(0 * pow10(d.exp() + l) == 0) by (nonlinear_arith);
        assert(m == 0) by (nonlinear_arith)
            requires
                m * p == 0,
                p > 0,
        ;
    } else if d.exp() >= e {
        value_aligned(d, e);
        let k = (d.exp() - e) as nat;
        let a = d.mant() * pow10(k as int);
        assert(m == a) by (nonlinear_arith)
            requires
                m * p == a * p,
                p > 0,
        ;
        reduced_scaled(d.mant(), k, e);
    } else {
        let k = (e - d.exp()) as nat;
        let q = pow10(d.exp() + l);
        lemma_pow_positive(10, (d.exp() + l) as nat);
        lemma_pow_adds(10, k, (d.exp() + l) as nat);
        lemma_pow_adds(10, 1, (k - 1) as nat);
        lemma_pow1(10);
        let r = pow10(k as int);
        let s = m * pow10(k - 1);
        assert(d.mant() == m * r) by (nonlinear_arith)
            requires
                d.mant() * q == m * p,
                p == r * q,
                q > 0,
        ;
        assert(m * r == 10 * s) by (nonlinear_arith)
            requires
                r == 10 * pow10(k - 1),
                s == m * pow10(k - 1),
        ;
        assert((10 * s) % 10 == 0);
    }
}

/// A number that fits a mantissa in units of a lower exponent is aligned to
/// it.
proof fn aligned_fits(d: Decimal, e: int)
    requires
        d.valid(),
        -EXP_LIMIT <= e <= d.exp(),
        -i128::MAX * pow10(e + EXP_LIMIT) <= d.value() <= i128::MAX * pow10(e + EXP_LIMIT),
    ensures
        fits(d.aligned(e)),
{
    value_aligned(d, e);
    let p = pow10(e + EXP_LIMIT);
    lemma_pow_positive(10, (e + EXP_LIMIT) as nat);
    let a = d.aligned(e);
    assert(-i128::MAX <= a <= i128::MAX) by (nonlinear_arith)
        requires
            -i128::MAX * p <= a * p <= i128::MAX * p,
            p > 0,
    ;
}

/// `n` fits a mantissa in units of the lower of the two exponents.
pub open spec fn within(n: int, a: Decimal, b: Decimal) -> bool {
    let unit = pow10((if a.exp() <= b.exp() { a.exp() } else { b.exp() }) + EXP_LIMIT);
    -i128::MAX * unit <= n <= i128::MAX * unit
}

/// Addition and subtraction refuse nothing that they could give: where both
/// numbers and the result fit a mantissa at the lower exponent, and the
/// result is a number of the domain, that number is the result.
pub proof fn sums_in_the_domain_are_found(a: Decimal, b: Decimal, d: Decimal)
    requires
        a.valid(),
        b.valid(),
        d.valid(),
        within(a.value(), a, b),
        within(b.value(), a, b),
        within(d.value(), a, b),
    ensures
        d.value() == a.value() + b.value() ==> sum(a, b) == Some(d),
        d.value() == a.value() - b.value() ==> difference(a, b) == Some(d),
{
    let e = common_exp(a, b);
    let p = pow10(e + EXP_LIMIT);
    lemma_pow_positive(10, (e + EXP_LIMIT) as nat);
    aligned_fits(a, e);
    aligned_fits(b, e);
    value_aligned(a, e);
    value_aligned(b, e);
    let (x, y) = (a.aligned(e), b.aligned(e));
    assert((x + y) * p == x * p + y * p && (x - y) * p == x * p - y * p) by (nonlinear_arith);
    if d.value() == a.value() + b.value() {
        let s = x + y;
        assert(-i128::MAX <= s <= i128::MAX) by (nonlinear_arith)
            requires
                -i128::MAX * p <= s * p <= i128::MAX * p,
                p > 0,
        ;
        made_is(s, e, d);
    }
    if d.value() == a.value() - b.value() {
        let s = x - y;
        assert(-i128::MAX <= s <= i128::MAX) by (nonlinear_arith)
            requires
                -i128::MAX * p <= s * p <= i128::MAX * p,
                p > 0,
        ;
        made_is(s, e, d);
    }
}

/// Multiplication refuses nothing that it could give: where the mantissas'
/// product fits a mantissa and the result is a number of the domain, that
/// number is the result.
pub proof fn products_in_the_domain_are_found(a: Decimal, b: Decimal, d: Decimal)
    requires
        a.valid(),
        b.valid(),
        d.valid(),
        fits(a.mant() * b.mant()),
        d.value() * pow10(EXP_LIMIT as int) == a.value() * b.value(),
    ensures
        product(a, b) == Some(d),
{
    let l = EXP_LIMIT as int;
    let m = a.mant() * b.mant();
    let e = a.exp() + b.exp();
    let (pa, pb) = (pow10(a.exp() + l), pow10(b.exp() + l));
    lemma_pow_adds(10, (a.exp() + l) as nat, (b.exp() + l) as nat);
    let p = pow10(e + 2 * l);
    lemma_pow_positive(10, (e + 2 * l) as nat);
    assert((a.mant() * pa) * (b.mant() * pb) == m * (pa * pb)) by (nonlinear_arith)
        requires
            m == a.mant() * b.mant(),
    ;
    let q = pow10(d.exp() + 2 * l);
    lemma_pow_positive(10, (d.exp() + 2 * l) as nat);
    lemma_pow_adds(10, (d.exp() + l) as nat, l as nat);
    assert((d.mant() * pow10(d.exp() + l)) * pow10(l) == d.mant() * (pow10(d.exp() + l) * pow10(l)))
        by (nonlinear_arith);
    assert(d.mant() * q == m * p);
    made_of_valid(d);
    if d.mant() == 0 {
        assert(m == 0) by (nonlinear_arith)
            requires
                m * p == 0 * q,
                p > 0,
        ;
    } else if d.exp() >= e {
        let k = (d.exp() - e) as nat;
        lemma_pow_adds(10, k, (e + 2 * l) as nat);
        let r = pow10(k as int);
        assert(m == d.mant() * r) by (nonlinear_arith)
            requires
                d.mant() * q == m * p,
                q == r * p,
                p > 0,
        ;
        reduced_scaled(d.mant(), k, e);
    } else {
        let k = (e - d.exp()) as nat;
        lemma_pow_adds(10, k, (d.exp() + 2 * l) as nat);
        lemma_pow_adds(10, 1, (k - 1) as nat);
        lemma_pow1(10);
        let r = pow10(k as int);
        let s = m * pow10(k - 1);
        assert(d.mant() == m * r) by (nonlinear_arith)
            requires
                d.mant() * q == m * p,
                p == r * q,
                q > 0,
        ;
        assert(m * r == 10 * s) by (nonlinear_arith)
            requires
                r == 10 * pow10(k - 1),
                s == m * pow10(k - 1),
        ;
        assert((10 * s) % 10 == 0);
    }
}

/// How the text of a number looks: a minus sign in front of what is below
/// zero and nowhere else; as many digits behind a point as the number has,
/// and no point where it has none; and no zero in front but the one before a
/// point, or the number zero itself.
pub proof fn number_texts_are_canonical(d: Decimal)
    requires
        d.valid(),
    ensures
        ({
            let t = decimal_text(d);
            let start: int = if d.value() < 0 { 1 } else { 0 };
            &&& t.len() > start
            &&& (t[0] == '-' <==> d.value() < 0)
            &&& forall|i: int|
                start <= i < t.len() ==> (is_digit(#[trigger] t[i]) <==> !(d.exp() < 0 && i == t.len()
                    + d.exp() - 1))
            &&& d.exp() < 0 ==> t.len() + d.exp() - 1 > start && t[t.len() + d.exp() - 1] == '.'
            &&& d.mant() != 0 && t[start] == '0' ==> t[start + 1] == '.'
            &&& d.mant() == 0 ==> t == seq!['0']
        }),
{
    let mag = (if d.mant() < 0 { -d.mant() } else { d.mant() }) as nat;
    let digits = nat_text(mag);
    nat_text_facts(mag);
    no_leading_zero(mag);
    value_sign(d);
    let t = decimal_text(d);
    let start: int = if d.value() < 0 { 1 } else { 0 };
    if d.exp() >= 0 {
        let body = digits + zeros(d.exp() as nat);
        assert(is_digit(digits[0]));
        assert forall|i: int| start <= i < t.len() implies is_digit(#[trigger] t[i]) by {
            let k = i - start;
            assert(t[i] == body[k]);
            if k < digits.len() {
                assert(is_digit(digits[k]));
            }
        }
        assert(t[start] == digits[0]);
        if d.mant() == 0 {
            assert(t =~= seq!['0']);
        }
    } else {
        let padded = zero_padded(digits, (1 - d.exp()) as nat);
        let cut = padded.len() + d.exp();
        assert(all_digits(padded)) by {
            assert forall|i: int| 0 <= i < padded.len() implies is_digit(#[trigger] padded[i]) by {
                let lead = padded.len() - digits.len();
                if i >= lead {
                    assert(padded[i] == digits[i - lead]);
                    assert(is_digit(digits[i - lead]));
                }
            }
        }
        let body = padded.take(cut) + seq!['.'] + padded.skip(cut);
        assert(cut >= 1);
        assert forall|i: int| start <= i < t.len() implies (is_digit(#[trigger] t[i]) <==> i
            != t.len() + d.exp() - 1) by {
            let k = i - start;
            assert(t[i] == body[k]);
            if k < cut {
                assert(body[k] == padded[k]);
                assert(is_digit(padded[k]));
            } else if k > cut {
                assert(body[k] == padded[k - 1]);
                assert(is_digit(padded[k - 1]));
            }
        }
        assert(t[start] == body[0] && body[0] == padded[0]);
        assert(is_digit(padded[0]));
        assert(t[t.len() + d.exp() - 1] == body[cut]);
        if t[start] == '0' && cut > 1 {
            assert(padded =~= digits);
        }
        assert(t[start + 1] == body[1]);
    }
}

proof fn no_leading_zero(n: nat)
    ensures
        n > 0 ==> nat_text(n)[0] != '0',
        n == 0 ==> nat_text(n) == seq!['0'],
    decreases n,
{
    if n >= 10 {
        no_leading_zero(n / 10);
        nat_text_facts(n / 10);
    }
}

/// What reads as a number: a sign or none, digits, and a point only between
/// digits; the number is that of the digits, the ones behind the point
/// counting as its fraction. Anything else is none.
pub proof fn numbers_read_by_their_digits(whole: Seq<char>, fraction: Seq<char>)
    requires
        whole.len() > 0,
        all_digits(whole),
        all_digits(fraction),
    ensures
        parsed_decimal(whole) == Decimal::made(digits_value(whole), 0),
        parsed_decimal(seq!['-'] + whole) == Decimal::made(-digits_value(whole), 0),
        fraction.len() > 0 ==> parsed_decimal(whole + seq!['.'] + fraction) == Decimal::made(
            digits_value(whole + fraction),
            -(fraction.len() as int),
        ),
        fraction.len() > 0 ==> parsed_decimal(seq!['-'] + (whole + seq!['.'] + fraction))
            == Decimal::made(-digits_value(whole + fraction), -(fraction.len() as int)),
        parsed_decimal(whole + seq!['.']) is None,
        parsed_decimal(seq!['.'] + whole) is None,
        parsed_decimal(Seq::empty()) is None,
{
    assert(is_digit(whole[0]));
    assert forall|k: int| 0 <= k < whole.len() implies whole[k] != '.' by {
        assert(is_digit(whole[k]));
    }
    // Without a point.
    let neg = seq!['-'] + whole;
    assert(unsigned_part(whole) =~= whole);
    assert(unsigned_part(neg) =~= whole);
    dot_from_is(whole, 0, whole.len() as int);
    // With one.
    let n = whole.len() as int;
    let pointed = whole + seq!['.'] + fraction;
    let negp = seq!['-'] + pointed;
    assert(unsigned_part(pointed) =~= pointed);
    assert(unsigned_part(negp) =~= pointed);
    assert forall|k: int| 0 <= k < n implies pointed[k] != '.' by {
        assert(pointed[k] == whole[k]);
    }
    dot_from_is(pointed, 0, n);
    assert(number_digits(pointed) =~= whole + fraction);
    assert(all_digits(whole + fraction)) by {
        assert forall|k: int| 0 <= k < (whole + fraction).len() implies is_digit(
            #[trigger] (whole + fraction)[k],
        ) by {
            if k < n {
                assert(is_digit(whole[k]));
            } else {
                assert(is_digit(fraction[k - n]));
            }
        }
    }
    // Misplaced points.
    let open_end = whole + seq!['.'];
    assert(unsigned_part(open_end) =~= open_end);
    assert forall|k: int| 0 <= k < n implies open_end[k] != '.' by {
        assert(open_end[k] == whole[k]);
    }
    dot_from_is(open_end, 0, n);
    let open_start = seq!['.'] + whole;
    assert(unsigned_part(open_start) =~= open_start);
    assert(dot_from(open_start, 0) == 0);
    let none: Seq<char> = Seq::empty();
    assert(unsigned_part(none) =~= none);
}

/// A decimal of the domain is what its number makes of any way to write it,
/// also with an exponent below the domain's: both sides are compared in units
/// that are `shift` places lower.
pub proof fn made_from_shifted(m: int, e: int, d: Decimal, shift: nat)
    requires
        d.valid(),
        e + shift >= 0,
        d.exp() + shift >= 0,
        d.mant() * pow10(d.exp() + shift) == m * pow10(e + shift),
    ensures
        Decimal::made(m, e) == Some(d),
{
    let p = pow10(e + shift);
    let q = pow10(d.exp() + shift);
    lemma_pow_positive(10, (e + shift) as nat);
    lemma_pow_positive(10, (d.exp() + shift) as nat);
    made_of_valid(d);
    if d.mant() == 0 {
        assert(m == 0) by (nonlinear_arith)
            requires
                m * p == 0 * q,
                p > 0,
        ;
    } else if d.exp() >= e {
        let k = (d.exp() - e) as nat;
        lemma_pow_adds(10, k, (e + shift) as nat);
        let r = pow10(k as int);
        assert(m == d.mant() * r) by (nonlinear_arith)
            requires
                d.mant() * q == m * p,
                q == r * p,
                p > 0,
        ;
        reduced_scaled(d.mant(), k, e);
    } else {
        let k = (e - d.exp()) as nat;
        lemma_pow_adds(10, k, (d.exp() + shift) as nat);
        lemma_pow_adds(10, 1, (k - 1) as nat);
        lemma_pow1(10);
        let r = pow10(k as int);
        let s = m * pow10(k - 1);
        assert(d.mant() == m * r) by (nonlinear_arith)
            requires
                d.mant() * q == m * p,
                p == r * q,
                q > 0,
        ;
        assert(m * r == 10 * s) by (nonlinear_arith)
            requires
                r == 10 * pow10(k - 1),
                s == m * pow10(k - 1),
        ;
        assert((10 * s) % 10 == 0);
    }
}

/// What reads as a number holds digits, at most a minus sign in front, and
/// at most one point, with a digit on either side of it.
pub proof fn only_digits_read_as_numbers(s: Seq<char>, i: int)
    requires
        parsed_decimal(s) is Some,
        0 <= i < s.len(),
    ensures
        is_digit(s[i]) || (s[i] == '-' && i == 0) || s[i] == '.',
        s[i] == '.' ==> 0 < i < s.len() - 1 && is_digit(s[i - 1]) && is_digit(s[i + 1]),
        forall|j: int| 0 <= j < s.len() && s[i] == '.' && #[trigger] s[j] == '.' ==> j == i,
        s != seq!['-'],
{
    let body = unsigned_part(s);
    let off: int = if s[0] == '-' { 1 } else { 0 };
    let dot = dot_from(body, 0);
    let digits = number_digits(body);
    dot_found(body, 0);
    assert forall|k: int| 0 <= k < body.len() && k != dot implies is_digit(#[trigger] body[k]) by {
        if k < dot {
            assert(digits[k] == body[k]);
            assert(is_digit(digits[k]));
        } else {
            assert(digits[k - 1] == body[k]);
            assert(is_digit(digits[k - 1]));
        }
    }
    assert forall|k: int| off <= k < s.len() implies #[trigger] s[k] == body[k - off] by {
    }
    if s == seq!['-'] {
        assert(body.len() == 0);
    }
    if i >= off {
        assert(s[i] == body[i - off]);
        if s[i] == '.' {
            assert(i - off == dot);
            assert(is_digit(body[dot - 1]) && is_digit(body[dot + 1]));
            assert(s[i - 1] == body[dot - 1] && s[i + 1] == body[dot + 1]);
        }
    }
}

proof fn dot_found(s: Seq<char>, i: int)
    requires
        0 <= i <= s.len(),
    ensures
        i <= dot_from(s, i) <= s.len(),
        dot_from(s, i) < s.len() ==> s[dot_from(s, i)] == '.',
    decreases s.len() - i,
{
    if i < s.len() && s[i] != '.' {
        dot_found(s, i + 1);
    }
}

} // verus!
