//! Quantities: an amount, or an unspecified amount, with an optional unit;
//! and the rule by which two of them add up.

use vstd::prelude::*;
use crate::amount::{Amount, Ratio};
use crate::units::{UnitConversionTable, UnitInfo, resolve_spec, convert_spec};

verus! {

/// How much of something: an exact number, or an amount the recipe leaves
/// open ("some", "to taste").
#[derive(Clone, Debug, PartialEq, Eq)]
pub enum Magnitude {
    Number(Amount),
    Unspecified,
}

/// The mathematical value of a [`Magnitude`].
pub enum MagnitudeView {
    Number(Ratio),
    Unspecified,
}

impl View for Magnitude {
    type V = MagnitudeView;

    open spec fn view(&self) -> MagnitudeView {
        match *self {
            Magnitude::Number(a) => MagnitudeView::Number(a@),
            Magnitude::Unspecified => MagnitudeView::Unspecified,
        }
    }
}

/// A value with the unit it is measured in, if it has one.
#[derive(Clone, Debug, PartialEq, Eq)]
pub struct Quantity {
    pub value: Magnitude,
    pub unit: Option<String>,
}

/// The mathematical value of a [`Quantity`].
pub struct QuantityView {
    pub value: MagnitudeView,
    pub unit: Option<Seq<char>>,
}

impl View for Quantity {
    type V = QuantityView;

    open spec fn view(&self) -> QuantityView {
        QuantityView {
            value: self.value@,
            unit: match self.unit {
                Some(u) => Some(u@),
                None => None,
            },
        }
    }
}

impl DeepView for Quantity {
    type V = QuantityView;

    open spec fn deep_view(&self) -> QuantityView {
        self@
    }
}

/// Why two quantities did not add up.
#[derive(Clone, Copy, Debug, PartialEq, Eq, Structural)]
pub enum AddError {
    /// The units cannot be brought together: they measure different
    /// dimensions, only one quantity has a unit, or one is unknown to the
    /// table and they are spelled differently.
    Incompatible,
    /// The units agree, but the exact sum is too large or too fine to
    /// store: a part of the fraction would exceed the limit of an
    /// [`Amount`]. This is a limit of the machine, not a rule of merging;
    /// nothing is rounded to stay below it.
    Overflow,
}

/// Whether quantities with these units can be added: both without unit, both
/// spelled alike, or both known to the table in one dimension.
pub open spec fn units_compatible(a: Option<Seq<char>>, b: Option<Seq<char>>, table: Seq<UnitInfo>)
    -> bool {
    match (a, b) {
        (None, None) => true,
        (Some(x), Some(y)) => x == y || match (resolve_spec(table, x), resolve_spec(table, y)) {
            (Some(f), Some(g)) => f.dimension == g.dimension,
            _ => false,
        },
        _ => false,
    }
}

impl QuantityView {
    /// The quantity leaves its amount open.
    pub open spec fn is_unspecified(self) -> bool {
        self.value is Unspecified
    }

    /// The number of a quantity that has one.
    pub open spec fn amount(self) -> Ratio {
        match self.value {
            MagnitudeView::Number(r) => r,
            MagnitudeView::Unspecified => Ratio::whole(0),
        }
    }

    /// What an unspecified amount absorbs everything into.
    pub open spec fn unspecified() -> QuantityView {
        QuantityView { value: MagnitudeView::Unspecified, unit: None }
    }

    /// Whether `other` can be merged into `self`: an unspecified amount
    /// merges with anything, two numbers where their units are compatible.
    pub open spec fn compatible(self, other: QuantityView, table: Seq<UnitInfo>) -> bool {
        self.is_unspecified() || other.is_unspecified() || units_compatible(
            self.unit,
            other.unit,
            table,
        )
    }

    /// The number of `other` expressed in the unit of `self`, for two
    /// numbers with compatible units; `None` where it does not fit.
    pub open spec fn in_unit_of(self, other: QuantityView, table: Seq<UnitInfo>) -> Option<Ratio> {
        match (self.unit, other.unit) {
            (Some(x), Some(y)) => if x == y {
                Some(other.amount())
            } else {
                convert_spec(table, other.amount(), y, x)
            },
            _ => Some(other.amount()),
        }
    }

    /// The sum of two quantities. An unspecified operand makes the sum
    /// unspecified, whatever the units. Two numbers with compatible units
    /// add up in the unit of `self`, the first operand.
    pub open spec fn try_add(self, other: QuantityView, table: Seq<UnitInfo>) -> Result<
        QuantityView,
        AddError,
    > {
        if self.is_unspecified() || other.is_unspecified() {
            Ok(QuantityView::unspecified())
        } else if !units_compatible(self.unit, other.unit, table) {
            Err(AddError::Incompatible)
        } else {
            match self.in_unit_of(other, table) {
                Some(c) => if self.amount().plus(c).fits() {
                    Ok(QuantityView { value: MagnitudeView::Number(self.amount().plus(c)), unit: self.unit })
                } else {
                    Err(AddError::Overflow)
                },
                None => Err(AddError::Overflow),
            }
        }
    }
}

/// Whether an executable result of an addition is the one the model gives.
pub open spec fn sum_matches(r: Result<Quantity, AddError>, m: Result<QuantityView, AddError>)
    -> bool {
    match (r, m) {
        (Ok(q), Ok(v)) => q@ == v,
        (Err(e), Err(f)) => e == f,
        _ => false,
    }
}

/// A copy of an optional unit.
fn copy_unit(unit: &Option<String>) -> (r: Option<String>)
    ensures
        r == *unit,
{
    match unit {
        Some(u) => Some(u.clone()),
        None => None,
    }
}

impl Quantity {
    /// The quantity of `value` in `unit`.
    pub fn new(value: Magnitude, unit: Option<String>) -> (q: Quantity)
        ensures
            q.value == value,
            q.unit == unit,
    {
        Quantity { value, unit }
    }

    /// The number `amount` in the unit spelled `unit`.
    pub fn number(amount: Amount, unit: &str) -> (q: Quantity)
        ensures
            q@ == (QuantityView { value: MagnitudeView::Number(amount@), unit: Some(unit@) }),
    {
        Quantity { value: Magnitude::Number(amount), unit: Some(unit.to_owned()) }
    }

    /// The number `amount` without a unit.
    pub fn count(amount: Amount) -> (q: Quantity)
        ensures
            q@ == (QuantityView { value: MagnitudeView::Number(amount@), unit: None }),
    {
        Quantity { value: Magnitude::Number(amount), unit: None }
    }

    /// An amount left open, without a unit.
    pub fn unspecified() -> (q: Quantity)
        ensures
            q@ == QuantityView::unspecified(),
    {
        Quantity { value: Magnitude::Unspecified, unit: None }
    }

    /// A copy of the quantity.
    pub fn duplicate(&self) -> (q: Quantity)
        ensures
            q@ == self@,
    {
        let value = match &self.value {
            Magnitude::Number(a) => Magnitude::Number(*a),
            Magnitude::Unspecified => Magnitude::Unspecified,
        };
        Quantity { value, unit: copy_unit(&self.unit) }
    }

    /// Whether the amount is left open.
    pub fn is_unspecified(&self) -> (r: bool)
        ensures
            r == self@.is_unspecified(),
    {
        match &self.value {
            Magnitude::Number(_) => false,
            Magnitude::Unspecified => true,
        }
    }

    /// Whether `rhs` can be merged into `self`: whether [`Quantity::try_add`]
    /// would succeed. The answer goes by the units and the open amounts
    /// alone. So it is that of `try_add` wherever the sum can be stored; at
    /// the limit of what an [`Amount`] holds, where `try_add` reports an
    /// overflow, the two are compatible all the same.
    pub fn is_compatible(&self, rhs: &Quantity, table: &UnitConversionTable) -> (r: bool)
        ensures
            r == self@.compatible(rhs@, table@),
            r == !(self@.try_add(rhs@, table@) == Err::<QuantityView, AddError>(
                AddError::Incompatible,
            )),
            !(self@.try_add(rhs@, table@) == Err::<QuantityView, AddError>(AddError::Overflow))
                ==> r == (self@.try_add(rhs@, table@) is Ok),
    {
        if self.is_unspecified() || rhs.is_unspecified() {
            return true;
        }
        match (&self.unit, &rhs.unit) {
            (None, None) => true,
            (Some(x), Some(y)) => {
                if *x == *y {
                    true
                } else {
                    match (table.resolve(x.as_str()), table.resolve(y.as_str())) {
                        (Some((fd, _)), Some((gd, _))) => fd == gd,
                        _ => false,
                    }
                }
            },
            _ => false,
        }
    }

    /// Adds `rhs` to `self`. Where either amount is left open the sum is the
    /// open amount without unit. Two numbers add up in the unit of `self`
    /// where their units are compatible, `rhs` being converted first; else
    /// the result is `Incompatible`. `Overflow` comes where the units are
    /// compatible and the exact sum cannot be stored.
    pub fn try_add(&self, rhs: &Quantity, table: &UnitConversionTable) -> (r: Result<
        Quantity,
        AddError,
    >)
        ensures
            sum_matches(r, self@.try_add(rhs@, table@)),
    {
        match (&self.value, &rhs.value) {
            (Magnitude::Number(a), Magnitude::Number(b)) => {
                if !self.is_compatible(rhs, table) {
                    return Err(AddError::Incompatible);
                }
                let converted: Option<Amount> = match (&self.unit, &rhs.unit) {
                    (Some(x), Some(y)) => {
                        if *x == *y {
                            Some(*b)
                        } else {
                            table.convert(*b, y.as_str(), x.as_str())
                        }
                    },
                    _ => Some(*b),
                };
                match converted {
                    Some(c) => match a.checked_add(&c) {
                        Some(s) => Ok(
                            Quantity { value: Magnitude::Number(s), unit: copy_unit(&self.unit) },
                        ),
                        None => Err(AddError::Overflow),
                    },
                    None => Err(AddError::Overflow),
                }
            },
            _ => Ok(Quantity::unspecified()),
        }
    }
}

} // verus!
