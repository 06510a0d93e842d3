//! One step of the engine: a command is applied to the book, and the caller
//! is told what to hand on.
//!
//! The engine owns one book and takes its commands one at a time, in the
//! order in which they arrive. Receiving commands and handing on trades and
//! snapshots is the caller's part; what a command does to the book, and what
//! is to be handed on after it, is decided here.

use vstd::prelude::*;

use crate::book_model::BookView;
use crate::ladder::{rests_at, volume_at};
use crate::level::Cancellation;
use crate::matching::TxnOutcome;
use crate::newtypes::{Balance, OrderId, Price, Volume};
use crate::order_book::OrderBook;
use crate::quote::Match;

verus! {

/// The commands of the engine.
#[derive(Clone, Copy, Debug, PartialEq, Eq, Structural)]
pub enum OrderType {
    /// Buy `target_base_qty` at the asks' prices, paying no more than
    /// `available_quote_balance`.
    MarketBuy { target_base_qty: Volume, available_quote_balance: Balance },
    /// Sell `base_qty` at the bids' prices.
    MarketSell { base_qty: Volume },
    /// Buy `volume` at `price` or below, and rest what is left as a bid.
    LimitBuy { price: Price, volume: Volume },
    /// Sell `volume` at `price` or above, and rest what is left as an ask.
    LimitSell { price: Price, volume: Volume },
    /// Cancel the quote of `order_id` resting at `price`.
    Cancel { price: Price, order_id: OrderId },
    /// Hand out a copy of the book.
    SendSnapshot,
}

/// A command with the identifier of the order that it belongs to.
#[derive(Clone, Copy, Debug, PartialEq, Eq, Structural)]
pub struct Order {
    pub id: OrderId,
    pub typ: OrderType,
}

/// What the caller is to hand on after a command.
#[derive(Debug)]
pub enum Response {
    /// A market order was executed. Its trades stand at the end of the
    /// buffer and are to be sent on, in that order.
    Executed(TxnOutcome),
    /// A limit order was executed and what was left of it rests on the book.
    /// Its trades stand at the end of the buffer and are to be sent on, in
    /// that order.
    Placed,
    /// A cancellation was carried out, or found nothing to cancel. Nothing
    /// is to be sent on.
    Cancelled(Cancellation),
    /// A copy of the book, to be sent to whoever asked for it.
    Snapshot(OrderBook),
}

impl BookView {
    /// Whether the book takes the command. A limit order needs an
    /// identifier other than the reserved one and room for its volume at its
    /// price; a limit buy cannot be priced at the "no ask" mark, nor a limit
    /// sell at the "no bid" mark. Every other command is taken.
    pub open spec fn admits(self, order: Order) -> bool {
        match order.typ {
            OrderType::LimitBuy { price, volume } => {
                &&& order.id.0 != u64::MAX
                &&& price.0 != u64::MAX
                &&& volume_at(self.levels, price) + volume.0 <= u64::MAX
            },
            OrderType::LimitSell { price, volume } => {
                &&& order.id.0 != u64::MAX
                &&& price.0 != u64::MIN
                &&& volume_at(self.levels, price) + volume.0 <= u64::MAX
            },
            _ => true,
        }
    }

    /// The book after the command.
    pub open spec fn after(self, order: Order) -> BookView {
        match order.typ {
            OrderType::MarketBuy { target_base_qty, available_quote_balance } => self.market_buy(
                order.id,
                target_base_qty,
                available_quote_balance,
            ).book,
            OrderType::MarketSell { base_qty } => self.market_sell(order.id, base_qty).book,
            OrderType::LimitBuy { price, volume } => self.limit_buy(order.id, price, volume).book,
            OrderType::LimitSell { price, volume } => self.limit_sell(order.id, price, volume).book,
            OrderType::Cancel { price, order_id } => self.cancel(price, order_id),
            OrderType::SendSnapshot => self,
        }
    }

    /// The trades of the command, in the order in which they are made.
    pub open spec fn trades(self, order: Order) -> Seq<Match> {
        match order.typ {
            OrderType::MarketBuy { target_base_qty, available_quote_balance } => self.market_buy(
                order.id,
                target_base_qty,
                available_quote_balance,
            ).matches,
            OrderType::MarketSell { base_qty } => self.market_sell(order.id, base_qty).matches,
            OrderType::LimitBuy { price, volume } => self.limit_buy(order.id, price, volume).matches,
            OrderType::LimitSell { price, volume } => self.limit_sell(
                order.id,
                price,
                volume,
            ).matches,
            OrderType::Cancel { .. } => Seq::empty(),
            OrderType::SendSnapshot => Seq::empty(),
        }
    }
}

impl OrderBook {
    /// Whether the book takes the command.
    pub fn admits(&self, order: &Order) -> (ok: bool)
        requires
            self.wf(),
        ensures
            ok == self@.admits(*order),
    {
        match order.typ {
            OrderType::LimitBuy { price, volume } => {
                order.id.0 != u64::MAX && price.0 != u64::MAX && volume.0 <= u64::MAX
                    - self.volume_at(price).0
            },
            OrderType::LimitSell { price, volume } => {
                order.id.0 != u64::MAX && price.0 != u64::MIN && volume.0 <= u64::MAX
                    - self.volume_at(price).0
            },
            _ => true,
        }
    }

    /// Applies one command to the book and appends its trades to `matches`.
    pub fn apply(&mut self, order: Order, matches: &mut Vec<Match>) -> (response: Response)
        requires
            old(self).wf(),
            old(self)@.admits(order),
        ensures
            final(self).wf(),
            final(self)@ == old(self)@.after(order),
            final(matches)@ == old(matches)@ + old(self)@.trades(order),
            match order.typ {
                OrderType::MarketBuy { target_base_qty, available_quote_balance } => response
                    matches Response::Executed(outcome) && outcome == old(self)@.market_buy(
                    order.id,
                    target_base_qty,
                    available_quote_balance,
                ).outcome,
                OrderType::MarketSell { base_qty } => response matches Response::Executed(outcome)
                    && outcome == old(self)@.market_sell(order.id, base_qty).outcome,
                OrderType::LimitBuy { .. } => response is Placed,
                OrderType::LimitSell { .. } => response is Placed,
                OrderType::Cancel { price, order_id } => response matches Response::Cancelled(r)
                    && r == if rests_at(old(self)@.levels, price, order_id) {
                    Cancellation::WasCancelled
                } else {
                    Cancellation::NotFound
                },
                OrderType::SendSnapshot => response matches Response::Snapshot(copy) && copy@
                    == old(self)@ && copy.wf(),
            },
    {
        match order.typ {
            OrderType::MarketBuy { target_base_qty, available_quote_balance } => {
                let outcome = self.execute_market_buy(
                    order.id,
                    target_base_qty,
                    available_quote_balance,
                    matches,
                );
                Response::Executed(outcome)
            },
            OrderType::MarketSell { base_qty } => {
                let outcome = self.execute_market_sell(order.id, base_qty, matches);
                Response::Executed(outcome)
            },
            OrderType::LimitBuy { price, volume } => {
                self.execute_limit_buy_order(order.id, price, volume, matches);
                Response::Placed
            },
            OrderType::LimitSell { price, volume } => {
                self.execute_limit_sell_order(order.id, price, volume, matches);
                Response::Placed
            },
            OrderType::Cancel { price, order_id } => {
                let r = self.cancel(price, order_id);
                proof {
                    assert(matches@ + Seq::<Match>::empty() =~= matches@);
                }
                Response::Cancelled(r)
            },
            OrderType::SendSnapshot => {
                proof {
                    assert(matches@ + Seq::<Match>::empty() =~= matches@);
                }
                Response::Snapshot(self.clone())
            },
        }
    }
}

} // verus!
