//! The signed change of a value, kept exactly as a fraction of the earlier
//! value, so that neither its sign nor its size is lost to rounding.

use vstd::prelude::*;

verus! {

/// The model of a change: `numerator / denominator` of the earlier value,
/// downwards where `negative` is set.
pub struct ChangeView {
    pub negative: bool,
    pub numerator: nat,
    pub denominator: nat,
}

impl ChangeView {
    /// Whether there is no change: nothing was gained or lost, or there is no
    /// earlier value to compare with (a denominator of 0).
    pub open spec fn is_zero(self) -> bool {
        self.numerator == 0 || self.denominator == 0
    }

    /// Whether the value rose.
    pub open spec fn is_gain(self) -> bool {
        !self.is_zero() && !self.negative
    }

    /// Whether the value fell.
    pub open spec fn is_loss(self) -> bool {
        !self.is_zero() && self.negative
    }

    /// The size of the change in hundredths of a percent, rounded to the
    /// nearest, halves upwards.
    pub open spec fn hundredths(self) -> nat {
        if self.is_zero() {
            0
        } else {
            ((2 * (self.numerator * 10000) + self.denominator) / (2 * self.denominator)) as nat
        }
    }

    /// The change from `prev_price` to `price`.
    pub open spec fn between(prev_price: nat, price: nat) -> ChangeView {
        ChangeView {
            negative: price < prev_price,
            numerator: if price < prev_price {
                (prev_price - price) as nat
            } else {
                (price - prev_price) as nat
            },
            denominator: prev_price,
        }
    }

    /// A change of `amount` parts in `scale`.
    pub open spec fn parts(amount: int, scale: nat) -> ChangeView {
        ChangeView {
            negative: amount < 0,
            numerator: if amount < 0 {
                (-amount) as nat
            } else {
                amount as nat
            },
            denominator: scale,
        }
    }
}

/// A signed change: `numerator / denominator` of the earlier value, downwards
/// where `negative` is set. A denominator of 0 stands for no earlier value;
/// the change then counts as none.
#[derive(Clone, Copy, Debug, PartialEq, Eq, Structural)]
pub struct Change {
    pub negative: bool,
    pub numerator: u64,
    pub denominator: u64,
}

impl View for Change {
    type V = ChangeView;

    open spec fn view(&self) -> ChangeView {
        ChangeView {
            negative: self.negative,
            numerator: self.numerator as nat,
            denominator: self.denominator as nat,
        }
    }
}

/// The size of a signed amount.
fn magnitude(amount: i64) -> (size: u64)
    ensures
        size == if amount < 0 {
            -amount
        } else {
            amount as int
        },
{
    if amount >= 0 {
        amount as u64
    } else {
        ((-(amount + 1)) as u64) + 1
    }
}

impl Change {
    /// The change from `prev_price` to `price`, both in the same unit.
    pub fn between(prev_price: u64, price: u64) -> (change: Change)
        ensures
            change@ == ChangeView::between(prev_price as nat, price as nat),
    {
        if price < prev_price {
            Change { negative: true, numerator: prev_price - price, denominator: prev_price }
        } else {
            Change { negative: false, numerator: price - prev_price, denominator: prev_price }
        }
    }

    /// A change of `amount` percent.
    pub fn percent(amount: i64) -> (change: Change)
        ensures
            change@ == ChangeView::parts(amount as int, 100),
    {
        Change { negative: amount < 0, numerator: magnitude(amount), denominator: 100 }
    }

    /// A change of `amount` basis points (hundredths of a percent).
    pub fn basis_points(amount: i64) -> (change: Change)
        ensures
            change@ == ChangeView::parts(amount as int, 10000),
    {
        Change { negative: amount < 0, numerator: magnitude(amount), denominator: 10000 }
    }

    /// Whether there is no change.
    pub fn is_zero(&self) -> (zero: bool)
        ensures
            zero == self@.is_zero(),
    {
        self.numerator == 0 || self.denominator == 0
    }

    /// Whether the value rose.
    pub fn is_gain(&self) -> (gain: bool)
        ensures
            gain == self@.is_gain(),
    {
        !self.is_zero() && !self.negative
    }

    /// Whether the value fell.
    pub fn is_loss(&self) -> (loss: bool)
        ensures
            loss == self@.is_loss(),
    {
        !self.is_zero() && self.negative
    }

    /// The size of the change in hundredths of a percent, rounded to the
    /// nearest, halves upwards.
    pub fn hundredths(&self) -> (size: u128)
        ensures
            size == self@.hundredths(),
    {
        if self.is_zero() {
            0
        } else {
            (2 * ((self.numerator as u128) * 10000) + self.denominator as u128) / (2
                * (self.denominator as u128))
        }
    }
}

} // verus!
