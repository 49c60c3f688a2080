//! Fixed-point scalars for prices and quantities.
//!
//! Both are thin wrappers over `u64`; all arithmetic is integer arithmetic,
//! so results are identical on every platform.

use vstd::prelude::*;
use core::ops::{Add, Sub, Mul};
use vstd::std_specs::ops::{AddSpecImpl, SubSpecImpl, MulSpecImpl};

verus! {

/// `a + b`, clamped to `u64::MAX`.
pub open spec fn sat_add(a: u64, b: u64) -> u64 {
    if a + b > u64::MAX {
        u64::MAX
    } else {
        (a + b) as u64
    }
}

/// `a - b`, clamped to zero.
pub open spec fn sat_sub(a: u64, b: u64) -> u64 {
    if a < b {
        0
    } else {
        (a - b) as u64
    }
}

/// `a * b`, clamped to `u64::MAX`.
pub open spec fn sat_mul(a: u64, b: u64) -> u64 {
    if a * b > u64::MAX {
        u64::MAX
    } else {
        (a * b) as u64
    }
}

/// A price, held as a raw integer.
///
/// With `TICK_SIZE == 100`, the price 123.45 is `Price(12345)`.
#[derive(Clone, Copy, Debug, PartialEq, Eq, Structural, PartialOrd, Ord, Hash)]
pub struct Price(pub u64);

impl Price {
    /// Minimum price increment, in raw units.
    pub const TICK_SIZE: u64 = 100;

    /// Number of decimal places.
    pub const DECIMAL_PLACES: u32 = 2;

    /// The price `ticks` ticks above zero.
    pub open spec fn spec_from_ticks(ticks: u64) -> Price {
        Price(sat_mul(ticks, Price::TICK_SIZE))
    }

    /// The number of whole ticks in a price.
    pub open spec fn spec_to_ticks(self) -> u64 {
        self.0 / Price::TICK_SIZE
    }

    /// Zero price.
    pub fn zero() -> (p: Self)
        ensures
            p == Price(0),
    {
        Price(0)
    }

    /// Maximum price.
    pub fn max_value() -> (p: Self)
        ensures
            p == Price(u64::MAX),
    {
        Price(u64::MAX)
    }

    /// Create a price from a number of ticks, clamping at `u64::MAX` raw units.
    #[verifier::when_used_as_spec(spec_from_ticks)]
    pub fn from_ticks(ticks: u64) -> (p: Self)
        ensures
            p == Price::spec_from_ticks(ticks),
    {
        match ticks.checked_mul(Self::TICK_SIZE) {
            Some(raw) => Price(raw),
            None => Price(u64::MAX),
        }
    }

    /// Convert a price to a number of whole ticks.
    #[verifier::when_used_as_spec(spec_to_ticks)]
    pub fn to_ticks(self) -> (ticks: u64)
        ensures
            ticks == self.spec_to_ticks(),
    {
        self.0 / Self::TICK_SIZE
    }

    /// Get the raw internal value.
    pub fn as_raw(self) -> (raw: u64)
        ensures
            raw == self.0,
    {
        self.0
    }

    /// Create from a raw value (no conversion).
    pub fn from_raw(raw: u64) -> (p: Self)
        ensures
            p == Price(raw),
    {
        Price(raw)
    }

    /// Check if the price is zero.
    pub fn is_zero(self) -> (z: bool)
        ensures
            z == (self.0 == 0),
    {
        self.0 == 0
    }

    /// Saturating addition.
    pub fn saturating_add(self, other: Self) -> (sum: Self)
        ensures
            sum == Price(sat_add(self.0, other.0)),
    {
        Price(self.0.saturating_add(other.0))
    }

    /// Saturating subtraction.
    pub fn saturating_sub(self, other: Self) -> (diff: Self)
        ensures
            diff == Price(sat_sub(self.0, other.0)),
    {
        Price(self.0.saturating_sub(other.0))
    }

    /// Converting a tick count to a price and back gives the tick count,
    /// as long as the price is representable without clamping.
    pub proof fn lemma_ticks_round_trip(ticks: u64)
        requires
            ticks <= u64::MAX / Price::TICK_SIZE,
        ensures
            Price::spec_from_ticks(ticks).spec_to_ticks() == ticks,
    {
        assert(ticks * 100 <= u64::MAX);
        assert((ticks * 100) / 100 == ticks);
    }
}

impl Default for Price {
    fn default() -> (p: Self)
        ensures
            p == Price(0),
    {
        Price(0)
    }
}

impl Add for Price {
    type Output = Price;

    fn add(self, other: Price) -> (sum: Price) {
        Price(self.0 + other.0)
    }
}

impl AddSpecImpl for Price {
    open spec fn obeys_add_spec() -> bool {
        true
    }

    open spec fn add_req(self, other: Price) -> bool {
        self.0 + other.0 <= u64::MAX
    }

    open spec fn add_spec(self, other: Price) -> Price {
        Price((self.0 + other.0) as u64)
    }
}

impl Sub for Price {
    type Output = Price;

    fn sub(self, other: Price) -> (diff: Price) {
        Price(self.0 - other.0)
    }
}

impl SubSpecImpl for Price {
    open spec fn obeys_sub_spec() -> bool {
        true
    }

    open spec fn sub_req(self, other: Price) -> bool {
        other.0 <= self.0
    }

    open spec fn sub_spec(self, other: Price) -> Price {
        Price((self.0 - other.0) as u64)
    }
}

/// A quantity in base units (shares, contracts, ...).
#[derive(Clone, Copy, Debug, PartialEq, Eq, Structural, PartialOrd, Ord, Hash)]
pub struct Quantity(pub u64);

impl Quantity {
    /// Zero quantity.
    pub fn zero() -> (q: Self)
        ensures
            q == Quantity(0),
    {
        Quantity(0)
    }

    /// Maximum quantity.
    pub fn max_value() -> (q: Self)
        ensures
            q == Quantity(u64::MAX),
    {
        Quantity(u64::MAX)
    }

    /// Check if the quantity is zero.
    pub fn is_zero(self) -> (z: bool)
        ensures
            z == (self.0 == 0),
    {
        self.0 == 0
    }

    /// Get the raw value.
    pub fn as_raw(self) -> (raw: u64)
        ensures
            raw == self.0,
    {
        self.0
    }

    /// Create from a raw value.
    pub fn from_raw(raw: u64) -> (q: Self)
        ensures
            q == Quantity(raw),
    {
        Quantity(raw)
    }

    /// Saturating addition.
    pub fn saturating_add(self, other: Self) -> (sum: Self)
        ensures
            sum == Quantity(sat_add(self.0, other.0)),
    {
        Quantity(self.0.saturating_add(other.0))
    }

    /// Saturating subtraction.
    pub fn saturating_sub(self, other: Self) -> (diff: Self)
        ensures
            diff == Quantity(sat_sub(self.0, other.0)),
    {
        Quantity(self.0.saturating_sub(other.0))
    }

    /// Checked subtraction: `None` exactly when `other` exceeds `self`.
    pub fn checked_sub(self, other: Self) -> (diff: Option<Self>)
        ensures
            diff == if self.0 < other.0 {
                None
            } else {
                Some(Quantity((self.0 - other.0) as u64))
            },
    {
        match self.0.checked_sub(other.0) {
            Some(v) => Some(Quantity(v)),
            None => None,
        }
    }

    /// Minimum of two quantities.
    pub fn min(self, other: Self) -> (m: Self)
        ensures
            m == if self.0 < other.0 {
                self
            } else {
                other
            },
    {
        if self.0 < other.0 {
            self
        } else {
            other
        }
    }
}

impl Default for Quantity {
    fn default() -> (q: Self)
        ensures
            q == Quantity(0),
    {
        Quantity(0)
    }
}

impl Add for Quantity {
    type Output = Quantity;

    fn add(self, other: Quantity) -> (sum: Quantity) {
        Quantity(self.0 + other.0)
    }
}

impl AddSpecImpl for Quantity {
    open spec fn obeys_add_spec() -> bool {
        true
    }

    open spec fn add_req(self, other: Quantity) -> bool {
        self.0 + other.0 <= u64::MAX
    }

    open spec fn add_spec(self, other: Quantity) -> Quantity {
        Quantity((self.0 + other.0) as u64)
    }
}

impl Sub for Quantity {
    type Output = Quantity;

    fn sub(self, other: Quantity) -> (diff: Quantity) {
        Quantity(self.0 - other.0)
    }
}

impl SubSpecImpl for Quantity {
    open spec fn obeys_sub_spec() -> bool {
        true
    }

    open spec fn sub_req(self, other: Quantity) -> bool {
        other.0 <= self.0
    }

    open spec fn sub_spec(self, other: Quantity) -> Quantity {
        Quantity((self.0 - other.0) as u64)
    }
}

impl Mul for Quantity {
    type Output = Quantity;

    fn mul(self, other: Quantity) -> (product: Quantity) {
        Quantity(self.0 * other.0)
    }
}

impl MulSpecImpl for Quantity {
    open spec fn obeys_mul_spec() -> bool {
        true
    }

    open spec fn mul_req(self, other: Quantity) -> bool {
        self.0 * other.0 <= u64::MAX
    }

    open spec fn mul_spec(self, other: Quantity) -> Quantity {
        Quantity((self.0 * other.0) as u64)
    }
}

} // verus!
