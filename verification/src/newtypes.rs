//! Distinct nominal types for the 64-bit quantities of the book, so that a
//! price is never mistaken for a volume or an identifier.
//!
//! Each type wraps a `u64`, compares as its number does, and adds and
//! subtracts only with values of its own type. A sum must fit in 64 bits and
//! a difference must not go below zero: both are obligations of the caller.

use vstd::prelude::*;

verus! {

/// A price in integer ticks. `u64::MAX` is reserved for "no ask" and `0`
/// for "no bid".
#[derive(Clone, Copy, Debug, PartialEq, Eq, Structural, PartialOrd, Ord, Hash)]
pub struct Price(pub u64);

impl Price {
    pub fn new(value: u64) -> (r: Self)
        ensures
            r.0 == value,
    {
        Price(value)
    }

    pub fn inner(self) -> (r: u64)
        ensures
            r == self.0,
    {
        self.0
    }
}

impl Default for Price {
    fn default() -> (r: Self)
        ensures
            r.0 == 0,
    {
        Price(0)
    }
}

impl From<u64> for Price {
    fn from(value: u64) -> (r: Price) {
        Price(value)
    }
}

impl vstd::std_specs::convert::FromSpecImpl<u64> for Price {
    open spec fn obeys_from_spec() -> bool {
        true
    }

    open spec fn from_spec(value: u64) -> Price {
        Price(value)
    }
}

impl From<Price> for u64 {
    fn from(value: Price) -> (r: u64) {
        value.0
    }
}

impl vstd::std_specs::convert::FromSpecImpl<Price> for u64 {
    open spec fn obeys_from_spec() -> bool {
        true
    }

    open spec fn from_spec(value: Price) -> u64 {
        value.0
    }
}

impl core::ops::Add for Price {
    type Output = Price;

    fn add(self, rhs: Price) -> (r: Price) {
        Price(self.0 + rhs.0)
    }
}

impl vstd::std_specs::ops::AddSpecImpl for Price {
    open spec fn obeys_add_spec() -> bool {
        true
    }

    open spec fn add_req(self, rhs: Price) -> bool {
        self.0 + rhs.0 <= u64::MAX
    }

    open spec fn add_spec(self, rhs: Price) -> Price {
        Price((self.0 + rhs.0) as u64)
    }
}

impl core::ops::Sub for Price {
    type Output = Price;

    fn sub(self, rhs: Price) -> (r: Price) {
        Price(self.0 - rhs.0)
    }
}

impl vstd::std_specs::ops::SubSpecImpl for Price {
    open spec fn obeys_sub_spec() -> bool {
        true
    }

    open spec fn sub_req(self, rhs: Price) -> bool {
        rhs.0 <= self.0
    }

    open spec fn sub_spec(self, rhs: Price) -> Price {
        Price((self.0 - rhs.0) as u64)
    }
}

impl core::ops::AddAssign for Price {
    fn add_assign(&mut self, rhs: Price)
        requires
            old(self).0 + rhs.0 <= u64::MAX,
        ensures
            final(self).0 == old(self).0 + rhs.0,
    {
        self.0 = self.0 + rhs.0;
    }
}

impl core::ops::SubAssign for Price {
    fn sub_assign(&mut self, rhs: Price)
        requires
            rhs.0 <= old(self).0,
        ensures
            final(self).0 == old(self).0 - rhs.0,
    {
        self.0 = self.0 - rhs.0;
    }
}

/// A quantity of the base asset.
#[derive(Clone, Copy, Debug, PartialEq, Eq, Structural, PartialOrd, Ord, Hash)]
pub struct Volume(pub u64);

impl Volume {
    pub fn new(value: u64) -> (r: Self)
        ensures
            r.0 == value,
    {
        Volume(value)
    }

    pub fn inner(self) -> (r: u64)
        ensures
            r == self.0,
    {
        self.0
    }
}

impl Default for Volume {
    fn default() -> (r: Self)
        ensures
            r.0 == 0,
    {
        Volume(0)
    }
}

impl From<u64> for Volume {
    fn from(value: u64) -> (r: Volume) {
        Volume(value)
    }
}

impl vstd::std_specs::convert::FromSpecImpl<u64> for Volume {
    open spec fn obeys_from_spec() -> bool {
        true
    }

    open spec fn from_spec(value: u64) -> Volume {
        Volume(value)
    }
}

impl From<Volume> for u64 {
    fn from(value: Volume) -> (r: u64) {
        value.0
    }
}

impl vstd::std_specs::convert::FromSpecImpl<Volume> for u64 {
    open spec fn obeys_from_spec() -> bool {
        true
    }

    open spec fn from_spec(value: Volume) -> u64 {
        value.0
    }
}

impl core::ops::Add for Volume {
    type Output = Volume;

    fn add(self, rhs: Volume) -> (r: Volume) {
        Volume(self.0 + rhs.0)
    }
}

impl vstd::std_specs::ops::AddSpecImpl for Volume {
    open spec fn obeys_add_spec() -> bool {
        true
    }

    open spec fn add_req(self, rhs: Volume) -> bool {
        self.0 + rhs.0 <= u64::MAX
    }

    open spec fn add_spec(self, rhs: Volume) -> Volume {
        Volume((self.0 + rhs.0) as u64)
    }
}

impl core::ops::Sub for Volume {
    type Output = Volume;

    fn sub(self, rhs: Volume) -> (r: Volume) {
        Volume(self.0 - rhs.0)
    }
}

impl vstd::std_specs::ops::SubSpecImpl for Volume {
    open spec fn obeys_sub_spec() -> bool {
        true
    }

    open spec fn sub_req(self, rhs: Volume) -> bool {
        rhs.0 <= self.0
    }

    open spec fn sub_spec(self, rhs: Volume) -> Volume {
        Volume((self.0 - rhs.0) as u64)
    }
}

impl core::ops::AddAssign for Volume {
    fn add_assign(&mut self, rhs: Volume)
        requires
            old(self).0 + rhs.0 <= u64::MAX,
        ensures
            final(self).0 == old(self).0 + rhs.0,
    {
        self.0 = self.0 + rhs.0;
    }
}

impl core::ops::SubAssign for Volume {
    fn sub_assign(&mut self, rhs: Volume)
        requires
            rhs.0 <= old(self).0,
        ensures
            final(self).0 == old(self).0 - rhs.0,
    {
        self.0 = self.0 - rhs.0;
    }
}

/// The identifier of an account holder.
#[derive(Clone, Copy, Debug, PartialEq, Eq, Structural, PartialOrd, Ord, Hash)]
pub struct UserId(pub u64);

impl UserId {
    pub fn new(value: u64) -> (r: Self)
        ensures
            r.0 == value,
    {
        UserId(value)
    }

    pub fn inner(self) -> (r: u64)
        ensures
            r == self.0,
    {
        self.0
    }
}

impl Default for UserId {
    fn default() -> (r: Self)
        ensures
            r.0 == 0,
    {
        UserId(0)
    }
}

impl From<u64> for UserId {
    fn from(value: u64) -> (r: UserId) {
        UserId(value)
    }
}

impl vstd::std_specs::convert::FromSpecImpl<u64> for UserId {
    open spec fn obeys_from_spec() -> bool {
        true
    }

    open spec fn from_spec(value: u64) -> UserId {
        UserId(value)
    }
}

impl From<UserId> for u64 {
    fn from(value: UserId) -> (r: u64) {
        value.0
    }
}

impl vstd::std_specs::convert::FromSpecImpl<UserId> for u64 {
    open spec fn obeys_from_spec() -> bool {
        true
    }

    open spec fn from_spec(value: UserId) -> u64 {
        value.0
    }
}

impl core::ops::Add for UserId {
    type Output = UserId;

    fn add(self, rhs: UserId) -> (r: UserId) {
        UserId(self.0 + rhs.0)
    }
}

impl vstd::std_specs::ops::AddSpecImpl for UserId {
    open spec fn obeys_add_spec() -> bool {
        true
    }

    open spec fn add_req(self, rhs: UserId) -> bool {
        self.0 + rhs.0 <= u64::MAX
    }

    open spec fn add_spec(self, rhs: UserId) -> UserId {
        UserId((self.0 + rhs.0) as u64)
    }
}

impl core::ops::Sub for UserId {
    type Output = UserId;

    fn sub(self, rhs: UserId) -> (r: UserId) {
        UserId(self.0 - rhs.0)
    }
}

impl vstd::std_specs::ops::SubSpecImpl for UserId {
    open spec fn obeys_sub_spec() -> bool {
        true
    }

    open spec fn sub_req(self, rhs: UserId) -> bool {
        rhs.0 <= self.0
    }

    open spec fn sub_spec(self, rhs: UserId) -> UserId {
        UserId((self.0 - rhs.0) as u64)
    }
}

impl core::ops::AddAssign for UserId {
    fn add_assign(&mut self, rhs: UserId)
        requires
            old(self).0 + rhs.0 <= u64::MAX,
        ensures
            final(self).0 == old(self).0 + rhs.0,
    {
        self.0 = self.0 + rhs.0;
    }
}

impl core::ops::SubAssign for UserId {
    fn sub_assign(&mut self, rhs: UserId)
        requires
            rhs.0 <= old(self).0,
        ensures
            final(self).0 == old(self).0 - rhs.0,
    {
        self.0 = self.0 - rhs.0;
    }
}

/// The identifier of an order. `u64::MAX` is reserved: it marks a deleted
/// quote.
#[derive(Clone, Copy, Debug, PartialEq, Eq, Structural, PartialOrd, Ord, Hash)]
pub struct OrderId(pub u64);

impl OrderId {
    pub fn new(value: u64) -> (r: Self)
        ensures
            r.0 == value,
    {
        OrderId(value)
    }

    pub fn inner(self) -> (r: u64)
        ensures
            r == self.0,
    {
        self.0
    }
}

impl Default for OrderId {
    fn default() -> (r: Self)
        ensures
            r.0 == 0,
    {
        OrderId(0)
    }
}

impl From<u64> for OrderId {
    fn from(value: u64) -> (r: OrderId) {
        OrderId(value)
    }
}

impl vstd::std_specs::convert::FromSpecImpl<u64> for OrderId {
    open spec fn obeys_from_spec() -> bool {
        true
    }

    open spec fn from_spec(value: u64) -> OrderId {
        OrderId(value)
    }
}

impl From<OrderId> for u64 {
    fn from(value: OrderId) -> (r: u64) {
        value.0
    }
}

impl vstd::std_specs::convert::FromSpecImpl<OrderId> for u64 {
    open spec fn obeys_from_spec() -> bool {
        true
    }

    open spec fn from_spec(value: OrderId) -> u64 {
        value.0
    }
}

impl core::ops::Add for OrderId {
    type Output = OrderId;

    fn add(self, rhs: OrderId) -> (r: OrderId) {
        OrderId(self.0 + rhs.0)
    }
}

impl vstd::std_specs::ops::AddSpecImpl for OrderId {
    open spec fn obeys_add_spec() -> bool {
        true
    }

    open spec fn add_req(self, rhs: OrderId) -> bool {
        self.0 + rhs.0 <= u64::MAX
    }

    open spec fn add_spec(self, rhs: OrderId) -> OrderId {
        OrderId((self.0 + rhs.0) as u64)
    }
}

impl core::ops::Sub for OrderId {
    type Output = OrderId;

    fn sub(self, rhs: OrderId) -> (r: OrderId) {
        OrderId(self.0 - rhs.0)
    }
}

impl vstd::std_specs::ops::SubSpecImpl for OrderId {
    open spec fn obeys_sub_spec() -> bool {
        true
    }

    open spec fn sub_req(self, rhs: OrderId) -> bool {
        rhs.0 <= self.0
    }

    open spec fn sub_spec(self, rhs: OrderId) -> OrderId {
        OrderId((self.0 - rhs.0) as u64)
    }
}

impl core::ops::AddAssign for OrderId {
    fn add_assign(&mut self, rhs: OrderId)
        requires
            old(self).0 + rhs.0 <= u64::MAX,
        ensures
            final(self).0 == old(self).0 + rhs.0,
    {
        self.0 = self.0 + rhs.0;
    }
}

impl core::ops::SubAssign for OrderId {
    fn sub_assign(&mut self, rhs: OrderId)
        requires
            rhs.0 <= old(self).0,
        ensures
            final(self).0 == old(self).0 - rhs.0,
    {
        self.0 = self.0 - rhs.0;
    }
}

/// An amount of the quote asset.
#[derive(Clone, Copy, Debug, PartialEq, Eq, Structural, PartialOrd, Ord, Hash)]
pub struct Balance(pub u64);

impl Balance {
    pub fn new(value: u64) -> (r: Self)
        ensures
            r.0 == value,
    {
        Balance(value)
    }

    pub fn inner(self) -> (r: u64)
        ensures
            r == self.0,
    {
        self.0
    }
}

impl Default for Balance {
    fn default() -> (r: Self)
        ensures
            r.0 == 0,
    {
        Balance(0)
    }
}

impl From<u64> for Balance {
    fn from(value: u64) -> (r: Balance) {
        Balance(value)
    }
}

impl vstd::std_specs::convert::FromSpecImpl<u64> for Balance {
    open spec fn obeys_from_spec() -> bool {
        true
    }

    open spec fn from_spec(value: u64) -> Balance {
        Balance(value)
    }
}

impl From<Balance> for u64 {
    fn from(value: Balance) -> (r: u64) {
        value.0
    }
}

impl vstd::std_specs::convert::FromSpecImpl<Balance> for u64 {
    open spec fn obeys_from_spec() -> bool {
        true
    }

    open spec fn from_spec(value: Balance) -> u64 {
        value.0
    }
}

impl core::ops::Add for Balance {
    type Output = Balance;

    fn add(self, rhs: Balance) -> (r: Balance) {
        Balance(self.0 + rhs.0)
    }
}

impl vstd::std_specs::ops::AddSpecImpl for Balance {
    open spec fn obeys_add_spec() -> bool {
        true
    }

    open spec fn add_req(self, rhs: Balance) -> bool {
        self.0 + rhs.0 <= u64::MAX
    }

    open spec fn add_spec(self, rhs: Balance) -> Balance {
        Balance((self.0 + rhs.0) as u64)
    }
}

impl core::ops::Sub for Balance {
    type Output = Balance;

    fn sub(self, rhs: Balance) -> (r: Balance) {
        Balance(self.0 - rhs.0)
    }
}

impl vstd::std_specs::ops::SubSpecImpl for Balance {
    open spec fn obeys_sub_spec() -> bool {
        true
    }

    open spec fn sub_req(self, rhs: Balance) -> bool {
        rhs.0 <= self.0
    }

    open spec fn sub_spec(self, rhs: Balance) -> Balance {
        Balance((self.0 - rhs.0) as u64)
    }
}

impl core::ops::AddAssign for Balance {
    fn add_assign(&mut self, rhs: Balance)
        requires
            old(self).0 + rhs.0 <= u64::MAX,
        ensures
            final(self).0 == old(self).0 + rhs.0,
    {
        self.0 = self.0 + rhs.0;
    }
}

impl core::ops::SubAssign for Balance {
    fn sub_assign(&mut self, rhs: Balance)
        requires
            rhs.0 <= old(self).0,
        ensures
            final(self).0 == old(self).0 - rhs.0,
    {
        self.0 = self.0 - rhs.0;
    }
}

} // verus!
