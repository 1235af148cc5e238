//! Units of measure and exact conversion between them.
//!
//! A unit belongs to a dimension and carries its exact factor to the coherent
//! unit of that dimension (kWh: energy, 3 600 000 J). Converting kWh to MJ is
//! x 3.6 exactly; what is not exact is refused.
use vstd::prelude::*;

use crate::aggregate::{div_exact, divides_at, quotient, quotient_is_exact, quotients_in_the_domain_are_found};
use crate::decimal::{fits, pow10, product, product_is_exact, products_in_the_domain_are_found, Decimal, EXP_LIMIT};
use crate::text::same;

verus! {

/// A unit of measure.
#[derive(Debug, PartialEq)]
pub struct Unit {
    pub symbol: String,
    pub dimension: String,
    /// How many coherent units of the dimension one such unit is.
    pub factor: Decimal,
}

/// The units that conversions may use.
#[derive(Debug, PartialEq)]
pub struct UnitRegistry {
    pub units: Vec<Unit>,
}

/// The first unit from `i` on with the symbol.
pub open spec fn unit_named(units: Seq<Unit>, symbol: Seq<char>, i: int) -> Option<Unit>
    decreases units.len() - i,
{
    if i < 0 || i >= units.len() {
        None
    } else if units[i].symbol@ == symbol {
        Some(units[i])
    } else {
        unit_named(units, symbol, i + 1)
    }
}

/// `amount` of one unit in terms of another: exact, or none where a unit is
/// not registered, the dimensions differ, or the result is not representable.
pub open spec fn converted(
    units: Seq<Unit>,
    amount: Decimal,
    from: Seq<char>,
    to: Seq<char>,
) -> Option<Decimal> {
    match (unit_named(units, from, 0), unit_named(units, to, 0)) {
        (Some(f), Some(t)) => if f.dimension@ == t.dimension@ {
            match product(amount, f.factor) {
                Some(coherent) => quotient(coherent, t.factor),
                None => None,
            }
        } else {
            None
        },
        _ => None,
    }
}

impl UnitRegistry {
    /// The unit with a symbol.
    pub fn unit(&self, symbol: &str) -> (r: Option<&Unit>)
        ensures
            match r {
                Some(u) => unit_named(self.units@, symbol@, 0) == Some(*u),
                None => unit_named(self.units@, symbol@, 0) is None,
            },
    {
        let mut i: usize = 0;
        while i < self.units.len()
            invariant
                i <= self.units.len(),
                unit_named(self.units@, symbol@, 0) == unit_named(self.units@, symbol@, i as int),
            decreases self.units.len() - i,
        {
            if same(self.units[i].symbol.as_str(), symbol) {
                return Some(&self.units[i]);
            }
            i = i + 1;
        }
        None
    }

    /// Convert an amount exactly.
    pub fn convert(&self, amount: &Decimal, from: &str, to: &str) -> (r: Option<Decimal>)
        ensures
            r == converted(self.units@, *amount, from@, to@),
    {
        match (self.unit(from), self.unit(to)) {
            (Some(f), Some(t)) => {
                if !same(f.dimension.as_str(), t.dimension.as_str()) {
                    return None;
                }
                match amount.mul(&f.factor) {
                    Ok(coherent) => div_exact(&coherent, &t.factor),
                    Err(_) => None,
                }
            },
            _ => None,
        }
    }
}

/// A conversion keeps the quantity: both amounts are the same number of
/// coherent units.
pub proof fn conversion_is_exact(units: Seq<Unit>, amount: Decimal, from: Seq<char>, to: Seq<char>)
    requires
        amount.valid(),
        converted(units, amount, from, to) is Some,
        unit_named(units, from, 0)->0.factor.valid(),
        unit_named(units, to, 0)->0.factor.valid(),
    ensures
        converted(units, amount, from, to)->0.value() * unit_named(units, to, 0)->0.factor.value()
            == amount.value() * unit_named(units, from, 0)->0.factor.value(),
{
    let f = unit_named(units, from, 0)->0.factor;
    let t = unit_named(units, to, 0)->0.factor;
    product_is_exact(amount, f);
    quotient_is_exact(product(amount, f)->0, t);
}

/// A symbol stands for the first unit that carries it, and for none where no
/// unit does.
pub proof fn units_are_found_by_symbol(units: Seq<Unit>, symbol: Seq<char>, i: int)
    requires
        0 <= i <= units.len(),
        forall|k: int| 0 <= k < i ==> (#[trigger] units[k]).symbol@ != symbol,
    ensures
        i < units.len() && units[i].symbol@ == symbol ==> unit_named(units, symbol, 0) == Some(
            units[i],
        ),
        i == units.len() ==> unit_named(units, symbol, 0) is None,
{
    named_behind(units, symbol, 0, i);
}

proof fn named_behind(units: Seq<Unit>, symbol: Seq<char>, j: int, i: int)
    requires
        0 <= j <= i <= units.len(),
        forall|k: int| 0 <= k < i ==> (#[trigger] units[k]).symbol@ != symbol,
    ensures
        unit_named(units, symbol, j) == unit_named(units, symbol, i),
    decreases i - j,
{
    if j < i {
        named_behind(units, symbol, j + 1, i);
    }
}

/// Nothing is converted between dimensions, nor to or from a symbol that no
/// unit carries.
pub proof fn only_units_of_one_dimension_convert(
    units: Seq<Unit>,
    amount: Decimal,
    from: Seq<char>,
    to: Seq<char>,
)
    ensures
        converted(units, amount, from, to) is Some ==> exists|i: int, j: int|
            0 <= i < units.len() && 0 <= j < units.len() && (#[trigger] units[i]).symbol@ == from && (
            #[trigger] units[j]).symbol@ == to && units[i].dimension@ == units[j].dimension@,
{
    if converted(units, amount, from, to) is Some {
        let i = named_at(units, from, 0);
        let j = named_at(units, to, 0);
        assert(units[i].symbol@ == from && units[j].symbol@ == to);
    }
}

proof fn named_at(units: Seq<Unit>, symbol: Seq<char>, j: int) -> (i: int)
    requires
        unit_named(units, symbol, j) is Some,
    ensures
        0 <= i < units.len(),
        units[i].symbol@ == symbol,
        unit_named(units, symbol, j) == Some(units[i]),
    decreases units.len() - j,
{
    if units[j].symbol@ == symbol {
        j
    } else {
        named_at(units, symbol, j + 1)
    }
}

/// A conversion refuses nothing that it could give: between units of one
/// dimension, an amount whose number of coherent units is `coherent` is
/// `result` of the other unit where that many of it are as many coherent
/// units. `k` is a number of places at which the division comes out.
pub proof fn conversions_in_the_domain_are_found(
    units: Seq<Unit>,
    amount: Decimal,
    i: int,
    j: int,
    coherent: Decimal,
    result: Decimal,
    k: int,
)
    requires
        0 <= i < units.len(),
        0 <= j < units.len(),
        forall|p: int| 0 <= p < i ==> (#[trigger] units[p]).symbol@ != units[i].symbol@,
        forall|p: int| 0 <= p < j ==> (#[trigger] units[p]).symbol@ != units[j].symbol@,
        units[i].dimension@ == units[j].dimension@,
        amount.valid(),
        units[i].factor.valid(),
        units[j].factor.valid(),
        units[j].factor.mant() != 0,
        coherent.valid(),
        result.valid(),
        fits(amount.mant() * units[i].factor.mant()),
        coherent.value() * pow10(EXP_LIMIT as int) == amount.value() * units[i].factor.value(),
        result.value() * units[j].factor.value() == coherent.value() * pow10(EXP_LIMIT as int),
        divides_at(coherent, units[j].factor, result, k),
    ensures
        converted(units, amount, units[i].symbol@, units[j].symbol@) == Some(result),
{
    units_are_found_by_symbol(units, units[i].symbol@, i);
    units_are_found_by_symbol(units, units[j].symbol@, j);
    products_in_the_domain_are_found(amount, units[i].factor, coherent);
    quotients_in_the_domain_are_found(coherent, units[j].factor, result, k);
}

} // verus!
