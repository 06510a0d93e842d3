//! What an account holder can ask of the exchange, in the terms of the
//! accounts in front of the engine.
//!
//! The ledger itself, the balances of each holder, is kept by the caller.
//! Here are the events that it handles and the one rule that every debit
//! obeys.

use vstd::prelude::*;

use crate::newtypes::{Balance, OrderId, Price, UserId, Volume};

verus! {

/// A currency, by its code.
#[derive(Clone, Copy, Debug, PartialEq, Eq, PartialOrd, Ord, Hash)]
pub struct Currency(pub &'static str);

impl Currency {
    pub fn new(code: &'static str) -> (currency: Currency)
        ensures
            currency.0 == code,
    {
        Currency(code)
    }

    /// The currency's code.
    pub fn code(&self) -> (code: &'static str)
        ensures
            code == self.0,
    {
        self.0
    }
}

impl Default for Currency {
    /// The currency with the empty code.
    fn default() -> (currency: Currency)
        ensures
            currency.0@ == Seq::<char>::empty(),
    {
        proof {
            reveal_strlit("");
        }
        Currency("")
    }
}

/// A trading pair: the asset that is traded and the asset in which it is
/// priced.
#[derive(Clone, Copy, Debug, PartialEq, Eq)]
pub struct Symbol {
    pub base: Currency,
    pub quote: Currency,
}

/// The side of the book that an order takes from its holder's point of view.
#[derive(Clone, Copy, Debug, PartialEq, Eq, Structural)]
pub enum Side {
    Buy,
    Sell,
}

/// What an account holder can order.
#[derive(Clone, Copy, Debug, PartialEq, Eq, Structural)]
pub enum AccountOrderType {
    /// Buy a quantity of the base asset at the market.
    MarketBuy { base_qty: Volume },
    /// Sell a quantity of the base asset at the market.
    MarketSell { base_qty: Volume },
    /// Buy the base asset at the market for a quantity of the quote asset.
    MarketBuyQ { quote_qty: Volume },
    /// Sell the base asset at the market for a quantity of the quote asset.
    MarketSellQ { quote_qty: Volume },
    /// Buy a quantity of the base asset at a price or below.
    LimitBuy { volume: Volume, price: Price },
    /// Sell a quantity of the base asset at a price or above.
    LimitSell { volume: Volume, price: Price },
}

impl AccountOrderType {
    pub open spec fn spec_side(&self) -> Side {
        match self {
            AccountOrderType::MarketBuy { .. } => Side::Buy,
            AccountOrderType::MarketBuyQ { .. } => Side::Buy,
            AccountOrderType::LimitBuy { .. } => Side::Buy,
            AccountOrderType::MarketSell { .. } => Side::Sell,
            AccountOrderType::MarketSellQ { .. } => Side::Sell,
            AccountOrderType::LimitSell { .. } => Side::Sell,
        }
    }

    /// The side that the order takes.
    #[verifier::when_used_as_spec(spec_side)]
    pub fn side(&self) -> (side: Side)
        ensures
            side == self.spec_side(),
    {
        match self {
            AccountOrderType::MarketBuy { .. } => Side::Buy,
            AccountOrderType::MarketBuyQ { .. } => Side::Buy,
            AccountOrderType::LimitBuy { .. } => Side::Buy,
            AccountOrderType::MarketSell { .. } => Side::Sell,
            AccountOrderType::MarketSellQ { .. } => Side::Sell,
            AccountOrderType::LimitSell { .. } => Side::Sell,
        }
    }
}

/// An order as an account holder places it.
#[derive(Clone, Copy, Debug, PartialEq, Eq)]
pub struct AccountOrder {
    pub id: OrderId,
    pub symbol: Symbol,
    pub typ: AccountOrderType,
}

/// What an account holder can ask for.
#[derive(Clone, Copy, Debug, PartialEq, Eq)]
pub enum AccountEventType {
    Deposit { currency: Currency, balance: Balance },
    Withdraw { currency: Currency, balance: Balance },
    PlaceOrder(AccountOrder),
}

/// A request with the holder who makes it.
#[derive(Clone, Copy, Debug, PartialEq, Eq)]
pub struct AccountEvent {
    pub user_id: UserId,
    pub event: AccountEventType,
}

/// Whether what a holder holds of an asset covers `amount`: a holder with
/// no record of the asset holds nothing of it and covers nothing.
pub open spec fn spec_covers(held: Option<Balance>, amount: u64) -> bool {
    match held {
        Some(balance) => balance.0 >= amount,
        None => false,
    }
}

/// Whether what a holder holds of an asset covers `amount`.
#[verifier::when_used_as_spec(spec_covers)]
pub fn covers(held: Option<Balance>, amount: u64) -> (enough: bool)
    ensures
        enough == spec_covers(held, amount),
{
    match held {
        Some(balance) => balance.0 >= amount,
        None => false,
    }
}

} // verus!
