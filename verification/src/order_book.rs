//! The order book: a price ladder with its best bid and best ask, and the
//! commands that change it.

use vstd::prelude::*;

use crate::book_model::{
    buy_cost, lemma_rank_by_prices, lemma_walk_volumes, volume_between, BookView, Outcome,
};
use crate::ladder::{
    ascending, has_level, lemma_rank_parts, rank, rests_at, volume_at, Ladder, LevelView,
};
use crate::level::{Cancellation, TOMBSTONE_GC_LIMIT};
use crate::matching::{execute_market_txn, lemma_walk_frame, walk, OrderTarget, TxnOutcome};
use crate::newtypes::{Balance, OrderId, Price, Volume};
use crate::quote::{live, tombstones_in, Match, Quote};

verus! {

impl Outcome {
    /// Accepts only a quote that was placed.
    pub fn assert_placed(self)
        requires
            !(self is CrossedSpread),
    {
        match self {
            Outcome::CrossedSpread => vstd::pervasive::unreached(),
            _ => {},
        }
    }
}

/// A central limit order book for one instrument.
#[derive(Debug)]
pub struct OrderBook {
    best_ask: Price,
    best_bid: Price,
    levels: Ladder,
}

impl View for OrderBook {
    type V = BookView;

    closed spec fn view(&self) -> BookView {
        BookView { best_bid: self.best_bid, best_ask: self.best_ask, levels: self.levels@ }
    }
}

impl OrderBook {
    /// The ladder is ascending and every level's records agree with its
    /// queue.
    pub closed spec fn ladder_wf(&self) -> bool {
        self.levels.wf()
    }

    /// The volume that the level at `index` has on record.
    pub closed spec fn recorded_volume(&self, index: int) -> nat {
        self.levels.recorded_volume(index)
    }

    /// The number of tombstones that the level at `index` has on record.
    pub closed spec fn recorded_tombstones(&self, index: int) -> nat {
        self.levels.recorded_tombstones(index)
    }

    /// The book's invariant: what [`BookView::wf`] asks of the best prices
    /// and the ladder, and every level's records in agreement with its
    /// queue.
    pub open spec fn wf(&self) -> bool {
        &&& self.ladder_wf()
        &&& self@.wf()
    }

    /// At every level of a well-formed book, the volume on record is the sum
    /// of the volumes of the live quotes, the number of tombstones on record
    /// is the number of tombstones in the queue, and that number is below the
    /// one at which tombstones are dropped.
    pub proof fn lemma_records(&self, index: int)
        requires
            self.wf(),
            0 <= index < self@.levels.len(),
        ensures
            self.recorded_volume(index) == self@.levels[index].volume(),
            self.recorded_tombstones(index) == tombstones_in(self@.levels[index].quotes),
            tombstones_in(self@.levels[index].quotes) < TOMBSTONE_GC_LIMIT,
    {
        self.levels.lemma_records(index);
    }

    /// An empty book: no level, no bid, no ask.
    pub fn new() -> (book: OrderBook)
        ensures
            book.wf(),
            book@ == (BookView {
                best_bid: Price(u64::MIN),
                best_ask: Price(u64::MAX),
                levels: Seq::empty(),
            }),
    {
        OrderBook { best_ask: Price(u64::MAX), best_bid: Price(u64::MIN), levels: Ladder::new() }
    }

    pub fn best_bid(&self) -> (price: Price)
        ensures
            price == self@.best_bid,
    {
        self.best_bid
    }

    pub fn best_ask(&self) -> (price: Price)
        ensures
            price == self@.best_ask,
    {
        self.best_ask
    }

    /// The distance from the best bid to the best ask.
    pub fn spread(&self) -> (spread: Price)
        requires
            self.wf(),
        ensures
            spread.0 == self@.best_ask.0 - self@.best_bid.0,
    {
        Price(self.best_ask.0 - self.best_bid.0)
    }

    /// The ask levels from the best ask upwards, each with its price and its
    /// volume.
    pub fn ask_levels(&self) -> (out: Vec<(Price, Volume)>)
        requires
            self.wf(),
        ensures
            out@.len() == self@.levels.len() - self@.ask_cursor(),
            forall|i: int|
                0 <= i < out@.len() ==> {
                    &&& (#[trigger] out@[i]).0 == self@.levels[self@.ask_cursor() + i].price
                    &&& out@[i].1.0 == self@.levels[self@.ask_cursor() + i].volume()
                },
    {
        let n = self.levels.len();
        let cursor = self.levels.rank(self.best_ask);
        let mut out: Vec<(Price, Volume)> = Vec::new();
        let mut at: usize = cursor;
        while at < n
            invariant
                self.wf(),
                n == self@.levels.len(),
                cursor == self@.ask_cursor(),
                cursor <= at <= n,
                out@.len() == at - cursor,
                forall|i: int|
                    0 <= i < out@.len() ==> {
                        &&& (#[trigger] out@[i]).0 == self@.levels[cursor + i].price
                        &&& out@[i].1.0 == self@.levels[cursor + i].volume()
                    },
            decreases n - at,
        {
            proof {
                self.lemma_records(at as int);
            }
            out.push((self.levels.price_at(at), self.levels.total_volume_at(at)));
            at += 1;
        }
        out
    }

    /// The bid levels from the best bid downwards, each with its price and
    /// its volume.
    pub fn bid_levels(&self) -> (out: Vec<(Price, Volume)>)
        requires
            self.wf(),
        ensures
            out@.len() == self@.bid_cursor(),
            forall|i: int|
                0 <= i < out@.len() ==> {
                    &&& (#[trigger] out@[i]).0 == self@.levels[self@.bid_cursor() - 1 - i].price
                    &&& out@[i].1.0 == self@.levels[self@.bid_cursor() - 1 - i].volume()
                },
    {
        let cursor = self.levels.rank(Price(self.best_bid.0 + 1));
        let mut out: Vec<(Price, Volume)> = Vec::new();
        let mut at: usize = cursor;
        while at > 0
            invariant
                self.wf(),
                cursor == self@.bid_cursor(),
                at <= cursor <= self@.levels.len(),
                out@.len() == cursor - at,
                forall|i: int|
                    0 <= i < out@.len() ==> {
                        &&& (#[trigger] out@[i]).0 == self@.levels[cursor - 1 - i].price
                        &&& out@[i].1.0 == self@.levels[cursor - 1 - i].volume()
                    },
            decreases at,
        {
            at -= 1;
            proof {
                self.lemma_records(at as int);
            }
            out.push((self.levels.price_at(at), self.levels.total_volume_at(at)));
        }
        out
    }

    /// The live volume on the ask side.
    pub fn ask_volume(&self) -> (volume: Volume)
        requires
            self.wf(),
            self@.ask_volume() <= u64::MAX,
        ensures
            volume.0 == self@.ask_volume(),
    {
        let n = self.levels.len();
        let cursor = self.levels.rank(self.best_ask);
        let mut sum: u64 = 0;
        let mut at: usize = cursor;
        while at < n
            invariant
                self.wf(),
                n == self@.levels.len(),
                cursor <= at <= n,
                self@.ask_volume() <= u64::MAX,
                sum + volume_between(self@.levels, at as int, n as int) == self@.ask_volume(),
            decreases n - at,
        {
            proof {
                self.lemma_records(at as int);
            }
            sum = sum + self.levels.total_volume_at(at).0;
            at += 1;
        }
        Volume(sum)
    }

    /// The live volume resting at `price`.
    pub fn volume_at(&self, price: Price) -> (volume: Volume)
        requires
            self.wf(),
        ensures
            volume.0 == volume_at(self@.levels, price),
    {
        let at = self.levels.rank(price);
        if at < self.levels.len() && self.levels.price_at(at).0 == price.0 {
            proof {
                self.lemma_records(at as int);
            }
            self.levels.total_volume_at(at)
        } else {
            Volume(0)
        }
    }

    /// The number of entries in the queue at `price`, tombstones included.
    pub fn queue_len_at(&self, price: Price) -> (n: usize)
        requires
            self.wf(),
        ensures
            n == if has_level(self@.levels, price) {
                self@.levels[rank(self@.levels, price.0 as int)].quotes.len()
            } else {
                0
            },
    {
        let at = self.levels.rank(price);
        if at < self.levels.len() && self.levels.price_at(at).0 == price.0 {
            self.levels.queue_len_at(at)
        } else {
            0
        }
    }

    /// The number of tombstones in the queue at `price`.
    pub fn tombstones_at(&self, price: Price) -> (n: usize)
        requires
            self.wf(),
        ensures
            n == if has_level(self@.levels, price) {
                tombstones_in(self@.levels[rank(self@.levels, price.0 as int)].quotes)
            } else {
                0
            },
    {
        let at = self.levels.rank(price);
        if at < self.levels.len() && self.levels.price_at(at).0 == price.0 {
            proof {
                self.lemma_records(at as int);
            }
            self.levels.tombstone_count_at(at)
        } else {
            0
        }
    }

    /// The live quotes resting at `price`, in arrival order.
    pub fn quotes_at(&self, price: Price) -> (out: Vec<Quote>)
        requires
            self.wf(),
        ensures
            out@ == if has_level(self@.levels, price) {
                live(self@.levels[rank(self@.levels, price.0 as int)].quotes)
            } else {
                Seq::empty()
            },
    {
        let at = self.levels.rank(price);
        if at < self.levels.len() && self.levels.price_at(at).0 == price.0 {
            self.levels.live_quotes_at(at)
        } else {
            Vec::new()
        }
    }

    /// Places a bid that may hold no volume.
    fn place_bid(&mut self, price: Price, quote: Quote) -> (outcome: Outcome)
        requires
            old(self).wf(),
            quote.is_live(),
            price.0 < old(self)@.best_ask.0 ==> volume_at(old(self)@.levels, price)
                + quote.volume.0 <= u64::MAX,
        ensures
            final(self).wf(),
            final(self)@ == old(self)@.add_bid(price, quote).book,
            outcome == old(self)@.add_bid(price, quote).outcome,
    {
        proof {
            self@.lemma_add_bid_wf(price, quote);
        }
        if self.best_ask.0 <= price.0 {
            return Outcome::CrossedSpread;
        }
        let had_volume = self.levels.place(price, quote);
        if self.best_bid.0 < price.0 {
            self.best_bid = price;
            return Outcome::PlacedNewBest;
        }
        if had_volume {
            Outcome::PlacedExisting
        } else {
            Outcome::PlacedNew
        }
    }

    /// Places an ask that may hold no volume.
    fn place_ask(&mut self, price: Price, quote: Quote) -> (outcome: Outcome)
        requires
            old(self).wf(),
            quote.is_live(),
            price.0 > old(self)@.best_bid.0 ==> volume_at(old(self)@.levels, price)
                + quote.volume.0 <= u64::MAX,
        ensures
            final(self).wf(),
            final(self)@ == old(self)@.add_ask(price, quote).book,
            outcome == old(self)@.add_ask(price, quote).outcome,
    {
        proof {
            self@.lemma_add_ask_wf(price, quote);
        }
        if self.best_bid.0 >= price.0 {
            return Outcome::CrossedSpread;
        }
        let had_volume = self.levels.place(price, quote);
        if self.best_ask.0 > price.0 {
            self.best_ask = price;
            return Outcome::PlacedNewBest;
        }
        if had_volume {
            Outcome::PlacedExisting
        } else {
            Outcome::PlacedNew
        }
    }

    /// Offers a resting bid to the book.
    pub fn add_bid(&mut self, price: Price, quote: Quote) -> (outcome: Outcome)
        requires
            old(self).wf(),
            quote.volume.0 > 0,
            quote.is_live(),
            price.0 < old(self)@.best_ask.0 ==> volume_at(old(self)@.levels, price)
                + quote.volume.0 <= u64::MAX,
        ensures
            final(self).wf(),
            final(self)@ == old(self)@.add_bid(price, quote).book,
            outcome == old(self)@.add_bid(price, quote).outcome,
    {
        self.place_bid(price, quote)
    }

    /// Offers a resting ask to the book.
    pub fn add_ask(&mut self, price: Price, quote: Quote) -> (outcome: Outcome)
        requires
            old(self).wf(),
            quote.volume.0 > 0,
            quote.is_live(),
            price.0 > old(self)@.best_bid.0 ==> volume_at(old(self)@.levels, price)
                + quote.volume.0 <= u64::MAX,
        ensures
            final(self).wf(),
            final(self)@ == old(self)@.add_ask(price, quote).book,
            outcome == old(self)@.add_ask(price, quote).outcome,
    {
        self.place_ask(price, quote)
    }

    /// Cancels the first live quote of `order_id` resting at `price`.
    pub fn cancel(&mut self, price: Price, order_id: OrderId) -> (r: Cancellation)
        requires
            old(self).wf(),
        ensures
            final(self).wf(),
            final(self)@ == old(self)@.cancel(price, order_id),
            r == if rests_at(old(self)@.levels, price, order_id) {
                Cancellation::WasCancelled
            } else {
                Cancellation::NotFound
            },
    {
        proof {
            self@.lemma_cancel_wf(price, order_id);
        }
        self.levels.cancel(price, order_id)
    }

    /// Whether `balance` pays for a market buy of `target_vol`.
    fn affordable(&self, cursor: usize, target_vol: Volume, balance: Balance) -> (b: bool)
        requires
            self.wf(),
            cursor == self@.ask_cursor(),
            cursor <= self@.levels.len(),
        ensures
            b == self@.affordable(target_vol, balance),
    {
        let n = self.levels.len();
        let mut rem_vol: u64 = target_vol.0;
        let mut rem_bal: u64 = balance.0;
        let mut at: usize = cursor;
        while at < n
            invariant
                self.wf(),
                n == self@.levels.len(),
                cursor == self@.ask_cursor(),
                cursor <= at <= n,
                rem_bal <= balance.0,
                buy_cost(self@.levels, cursor as int, target_vol.0 as nat) == (balance.0 - rem_bal)
                    + buy_cost(self@.levels, at as int, rem_vol as nat),
            decreases n - at,
        {
            let price = self.levels.price_at(at);
            let total = self.levels.total_volume_at(at).0;
            proof {
                self.lemma_records(at as int);
            }
            let vol: u64 = if rem_vol < total {
                rem_vol
            } else {
                total
            };
            assert(price.0 * vol <= 0xffff_ffff_ffff_ffff * 0xffff_ffff_ffff_ffff) by (nonlinear_arith)
                requires
                    0 <= price.0 <= 0xffff_ffff_ffff_ffff,
                    0 <= vol <= 0xffff_ffff_ffff_ffff,
            ;
            let cost: u128 = (price.0 as u128) * (vol as u128);
            proof {
                let here = self@.levels[at as int];
                let unit = here.price.0 as nat;
                let wanted = rem_vol as nat;
                assert(cost == (vol as nat) * unit) by (nonlinear_arith)
                    requires
                        cost == price.0 * vol,
                        unit == price.0,
                ;
                if wanted <= here.volume() {
                    assert(vol as nat == wanted);
                    assert(buy_cost(self@.levels, at as int, wanted) == wanted * unit);
                    lemma_buy_cost_of_nothing(self@.levels, at + 1);
                } else {
                    assert(vol as nat == here.volume());
                    assert(buy_cost(self@.levels, at as int, wanted) == here.volume() * unit
                        + buy_cost(self@.levels, at + 1, (wanted - here.volume()) as nat));
                }
            }
            if cost > rem_bal as u128 {
                return false;
            }
            if rem_vol < total {
                return true;
            }
            rem_vol = rem_vol - total;
            rem_bal = rem_bal - cost as u64;
            at += 1;
        }
        true
    }

    /// Executes a market buy of `target_vol` for the order `order_id`, paid
    /// out of `available_quote_balance`, and appends the trades to `fills`.
    pub fn execute_market_buy(
        &mut self,
        order_id: OrderId,
        target_vol: Volume,
        available_quote_balance: Balance,
        fills: &mut Vec<Match>,
    ) -> (outcome: TxnOutcome)
        requires
            old(self).wf(),
        ensures
            final(self).wf(),
            ({
                let t = old(self)@.market_buy(order_id, target_vol, available_quote_balance);
                &&& final(self)@ == t.book
                &&& final(fills)@ == old(fills)@ + t.matches
                &&& outcome == t.outcome
            }),
    {
        let cursor = self.levels.rank(self.best_ask);
        if !self.affordable(cursor, target_vol, available_quote_balance) {
            proof {
                assert(fills@ + Seq::<Match>::empty() =~= fills@);
            }
            return TxnOutcome::FailedInsufficientFunds;
        }
        let target = OrderTarget::MarketBuy { available_quote_balance };
        proof {
            self@.lemma_buy_walk_wf(order_id, target_vol, target);
        }
        let res = execute_market_txn(&mut self.levels, cursor, order_id, target_vol, target, fills);
        if let TxnOutcome::Filled { new_best_price } = res {
            self.best_ask = new_best_price;
        } else {
            self.best_ask = Price(u64::MAX);
        }
        res
    }

    /// Executes a market sell of `target_vol` for the order `order_id`, and
    /// appends the trades to `fills`.
    pub fn execute_market_sell(
        &mut self,
        order_id: OrderId,
        target_vol: Volume,
        fills: &mut Vec<Match>,
    ) -> (outcome: TxnOutcome)
        requires
            old(self).wf(),
        ensures
            final(self).wf(),
            ({
                let t = old(self)@.market_sell(order_id, target_vol);
                &&& final(self)@ == t.book
                &&& final(fills)@ == old(fills)@ + t.matches
                &&& outcome == t.outcome
            }),
    {
        let cursor = self.levels.rank(Price(self.best_bid.0 + 1));
        let target = OrderTarget::MarketSell;
        proof {
            self@.lemma_sell_walk_wf(order_id, target_vol, target);
        }
        let res = execute_market_txn(&mut self.levels, cursor, order_id, target_vol, target, fills);
        if let TxnOutcome::Filled { new_best_price } = res {
            self.best_bid = new_best_price;
        } else {
            self.best_bid = Price(u64::MIN);
        }
        res
    }

    /// Executes a limit buy of `target_vol` at `target_price` or better for
    /// the order `order_id`, appends the trades to `fills`, and rests what is
    /// left of the order as a bid.
    pub fn execute_limit_buy_order(
        &mut self,
        order_id: OrderId,
        target_price: Price,
        target_vol: Volume,
        fills: &mut Vec<Match>,
    )
        requires
            old(self).wf(),
            order_id.0 != u64::MAX,
            target_price.0 != u64::MAX,
            volume_at(old(self)@.levels, target_price) + target_vol.0 <= u64::MAX,
        ensures
            final(self).wf(),
            ({
                let t = old(self)@.limit_buy(order_id, target_price, target_vol);
                &&& final(self)@ == t.book
                &&& final(fills)@ == old(fills)@ + t.matches
            }),
    {
        let cursor = self.levels.rank(self.best_ask);
        let target = OrderTarget::LimitBuy(target_price);
        proof {
            let before = self@;
            before.lemma_buy_walk_wf(order_id, target_vol, target);
            lemma_rank_parts(before.levels, before.best_ask.0 as int);
            lemma_residual_fits(before.levels, cursor as int, order_id, target_vol, target, target_price);
        }
        let res = execute_market_txn(&mut self.levels, cursor, order_id, target_vol, target, fills);
        match res {
            TxnOutcome::Filled { new_best_price } => {
                self.best_ask = new_best_price;
            },
            TxnOutcome::PartiallyFilled { volume_transacted, new_best_price } => {
                self.best_ask = new_best_price;
                let rest = Quote::new(order_id, Volume(target_vol.0 - volume_transacted.0));
                self.place_bid(target_price, rest).assert_placed();
            },
            TxnOutcome::MarketVolumeExhausted { volume_transacted } => {
                self.best_ask = Price(u64::MAX);
                let rest = Quote::new(order_id, Volume(target_vol.0 - volume_transacted.0));
                self.place_bid(target_price, rest).assert_placed();
            },
            TxnOutcome::FailedInsufficientFunds => {},
        }
    }

    /// Executes a limit sell of `target_vol` at `target_price` or better for
    /// the order `order_id`, appends the trades to `fills`, and rests what is
    /// left of the order as an ask.
    pub fn execute_limit_sell_order(
        &mut self,
        order_id: OrderId,
        target_price: Price,
        target_vol: Volume,
        fills: &mut Vec<Match>,
    )
        requires
            old(self).wf(),
            order_id.0 != u64::MAX,
            target_price.0 != u64::MIN,
            volume_at(old(self)@.levels, target_price) + target_vol.0 <= u64::MAX,
        ensures
            final(self).wf(),
            ({
                let t = old(self)@.limit_sell(order_id, target_price, target_vol);
                &&& final(self)@ == t.book
                &&& final(fills)@ == old(fills)@ + t.matches
            }),
    {
        let cursor = self.levels.rank(Price(self.best_bid.0 + 1));
        let target = OrderTarget::LimitSell(target_price);
        proof {
            let before = self@;
            before.lemma_sell_walk_wf(order_id, target_vol, target);
            lemma_rank_parts(before.levels, before.best_bid.0 + 1);
            lemma_residual_fits(before.levels, cursor as int, order_id, target_vol, target, target_price);
        }
        let res = execute_market_txn(&mut self.levels, cursor, order_id, target_vol, target, fills);
        match res {
            TxnOutcome::Filled { new_best_price } => {
                self.best_bid = new_best_price;
            },
            TxnOutcome::PartiallyFilled { volume_transacted, new_best_price } => {
                self.best_bid = new_best_price;
                let rest = Quote::new(order_id, Volume(target_vol.0 - volume_transacted.0));
                self.place_ask(target_price, rest).assert_placed();
            },
            TxnOutcome::MarketVolumeExhausted { volume_transacted } => {
                self.best_bid = Price(u64::MIN);
                let rest = Quote::new(order_id, Volume(target_vol.0 - volume_transacted.0));
                self.place_ask(target_price, rest).assert_placed();
            },
            TxnOutcome::FailedInsufficientFunds => {},
        }
    }
}

/// Buying nothing costs nothing.
proof fn lemma_buy_cost_of_nothing(levels: Seq<LevelView>, cursor: int)
    ensures
        buy_cost(levels, cursor, 0) == 0,
{
    if 0 <= cursor < levels.len() {
        assert(0nat * (levels[cursor].price.0 as nat) == 0) by (nonlinear_arith);
    }
}

/// After a walk, what is left of the order fits beside the volume that rests
/// at any price at which the whole order would have fitted before.
proof fn lemma_residual_fits(
    levels: Seq<LevelView>,
    cursor: int,
    taker: OrderId,
    target_vol: Volume,
    target: OrderTarget,
    price: Price,
)
    requires
        ascending(levels),
        0 <= cursor <= levels.len(),
        volume_at(levels, price) + target_vol.0 <= u64::MAX,
    ensures
        ({
            let w = walk(levels, cursor, taker, target_vol, target, target_vol.0 as int);
            &&& volume_at(w.levels, price) <= volume_at(levels, price)
            &&& match w.outcome {
                TxnOutcome::PartiallyFilled { volume_transacted, .. } => volume_transacted.0
                    <= target_vol.0,
                TxnOutcome::MarketVolumeExhausted { volume_transacted } => volume_transacted.0
                    <= target_vol.0,
                _ => true,
            }
        }),
{
    let w = walk(levels, cursor, taker, target_vol, target, target_vol.0 as int);
    lemma_walk_volumes(levels, cursor, taker, target_vol, target, target_vol.0 as int);
    lemma_walk_frame(levels, cursor, taker, target_vol, target, target_vol.0 as int);
    lemma_rank_by_prices(w.levels, levels, price.0 as int);
    lemma_rank_parts(levels, price.0 as int);
    let at = rank(levels, price.0 as int);
    if has_level(levels, price) {
        assert(w.levels[at].price == levels[at].price);
        assert(w.levels[at].volume() <= levels[at].volume());
    } else if at < levels.len() {
        assert(w.levels[at].price == levels[at].price);
    }
}

impl Default for OrderBook {
    fn default() -> (book: OrderBook)
        ensures
            book.wf(),
            book@ == (BookView {
                best_bid: Price(u64::MIN),
                best_ask: Price(u64::MAX),
                levels: Seq::empty(),
            }),
    {
        OrderBook::new()
    }
}

impl Clone for OrderBook {
    /// A copy of the book by value.
    fn clone(&self) -> (copy: OrderBook)
        ensures
            copy@ == self@,
            self.wf() ==> copy.wf(),
    {
        OrderBook { best_ask: self.best_ask, best_bid: self.best_bid, levels: self.levels.clone() }
    }
}

} // verus!
