//! The book as contracts see it, and what each command makes of it.
//!
//! A book is its ladder and two cached prices. Levels priced at the best ask
//! or above are asks, levels priced at the best bid or below are bids; the
//! levels in between hold no volume.

use vstd::prelude::*;

use crate::ladder::{
    ascending, cancel_at, has_level, lemma_rank_is, lemma_rank_parts, place, rank, volume_at,
    LevelView,
};
use crate::level::{cancel_quotes, settled};
use crate::matching::{lemma_walk_frame, walk, OrderTarget, TxnOutcome, Walk};
use crate::newtypes::{Balance, OrderId, Price, Volume};
use crate::quote::{
    fill_quotes, find_live, lemma_live_keeps, lemma_volume_head, lemma_volume_single,
    lemma_volume_update, volume_of, Match, Quote,
};

verus! {

/// What became of a quote offered to the book.
#[derive(Clone, Copy, Debug, PartialEq, Eq, Structural)]
pub enum Outcome {
    /// The quote joined a level that already held volume.
    PlacedExisting,
    /// The quote opened a level, or joined one that held no volume.
    PlacedNew,
    /// The quote improved the best price of its side.
    PlacedNewBest,
    /// The quote would have met the opposite side; the book is unchanged.
    CrossedSpread,
}

/// A book as contracts see it.
pub struct BookView {
    pub best_bid: Price,
    pub best_ask: Price,
    pub levels: Seq<LevelView>,
}

/// A book after a quote was offered to it, and what became of the quote.
pub struct Placement {
    pub book: BookView,
    pub outcome: Outcome,
}

/// A book after an order was executed against it, the trades made, and how
/// the order ended.
pub struct Trade {
    pub book: BookView,
    pub matches: Seq<Match>,
    pub outcome: TxnOutcome,
}

/// The live volume of the levels from index `lo` up to, but not including,
/// index `hi`.
pub open spec fn volume_between(levels: Seq<LevelView>, lo: int, hi: int) -> nat
    decreases hi - lo,
{
    if lo < 0 || hi > levels.len() || lo >= hi {
        0
    } else {
        levels[lo].volume() + volume_between(levels, lo + 1, hi)
    }
}

/// What it costs to buy `vol` units from the levels from index `cursor`
/// upwards, cheapest first, or all that they hold where that is less.
pub open spec fn buy_cost(levels: Seq<LevelView>, cursor: int, vol: nat) -> nat
    decreases levels.len() - cursor,
{
    if cursor < 0 || cursor >= levels.len() {
        0
    } else if vol <= levels[cursor].volume() {
        vol * (levels[cursor].price.0 as nat)
    } else {
        levels[cursor].volume() * (levels[cursor].price.0 as nat) + buy_cost(
            levels,
            cursor + 1,
            (vol - levels[cursor].volume()) as nat,
        )
    }
}

/// The part of an order for `target_vol` that is left to rest on the book
/// after `volume_transacted` has traded.
pub open spec fn residual(taker: OrderId, target_vol: Volume, volume_transacted: Volume) -> Quote {
    Quote { order_id: taker, volume: Volume((target_vol.0 - volume_transacted.0) as u64) }
}

impl BookView {
    /// Prices rise strictly along the ladder, the best bid lies below the
    /// best ask, and no volume rests strictly between the two.
    pub open spec fn wf(self) -> bool {
        &&& ascending(self.levels)
        &&& self.best_bid.0 < self.best_ask.0
        &&& forall|i: int|
            0 <= i < self.levels.len() && self.best_bid.0 < (#[trigger] self.levels[i]).price.0
                < self.best_ask.0 ==> self.levels[i].volume() == 0
    }

    /// The cursor from which a buy walks: below the first level priced at
    /// the best ask or above.
    pub open spec fn ask_cursor(self) -> int {
        rank(self.levels, self.best_ask.0 as int)
    }

    /// The cursor from which a sell walks: above the last level priced at
    /// the best bid or below.
    pub open spec fn bid_cursor(self) -> int {
        rank(self.levels, self.best_bid.0 + 1)
    }

    /// The live volume on the ask side.
    pub open spec fn ask_volume(self) -> nat {
        volume_between(self.levels, self.ask_cursor(), self.levels.len() as int)
    }

    /// The live volume on the bid side.
    pub open spec fn bid_volume(self) -> nat {
        volume_between(self.levels, 0, self.bid_cursor())
    }

    /// The live volume of the asks priced at `limit` or below.
    pub open spec fn asks_within(self, limit: Price) -> nat {
        let end = rank(self.levels, limit.0 + 1);
        volume_between(self.levels, self.ask_cursor(), end)
    }

    /// The live volume of the bids priced at `limit` or above.
    pub open spec fn bids_within(self, limit: Price) -> nat {
        let start = rank(self.levels, limit.0 as int);
        volume_between(self.levels, start, self.bid_cursor())
    }

    /// The book with another ladder in place of its own.
    pub open spec fn with_levels(self, levels: Seq<LevelView>) -> BookView {
        BookView { best_bid: self.best_bid, best_ask: self.best_ask, levels }
    }

    /// The book with another best ask.
    pub open spec fn with_best_ask(self, best_ask: Price) -> BookView {
        BookView { best_bid: self.best_bid, best_ask, levels: self.levels }
    }

    /// The book with another best bid.
    pub open spec fn with_best_bid(self, best_bid: Price) -> BookView {
        BookView { best_bid, best_ask: self.best_ask, levels: self.levels }
    }

    /// Offers a bid. A bid at the best ask or above is turned away. Any other
    /// joins the tail of the queue at its price, and becomes the best bid
    /// where it is priced above it.
    pub open spec fn add_bid(self, price: Price, quote: Quote) -> Placement {
        if self.best_ask.0 <= price.0 {
            Placement { book: self, outcome: Outcome::CrossedSpread }
        } else {
            let placed = self.with_levels(place(self.levels, price, quote));
            if self.best_bid.0 < price.0 {
                Placement { book: placed.with_best_bid(price), outcome: Outcome::PlacedNewBest }
            } else if volume_at(self.levels, price) != 0 {
                Placement { book: placed, outcome: Outcome::PlacedExisting }
            } else {
                Placement { book: placed, outcome: Outcome::PlacedNew }
            }
        }
    }

    /// Offers an ask. An ask at the best bid or below is turned away. Any
    /// other joins the tail of the queue at its price, and becomes the best
    /// ask where it is priced below it.
    pub open spec fn add_ask(self, price: Price, quote: Quote) -> Placement {
        if self.best_bid.0 >= price.0 {
            Placement { book: self, outcome: Outcome::CrossedSpread }
        } else {
            let placed = self.with_levels(place(self.levels, price, quote));
            if self.best_ask.0 > price.0 {
                Placement { book: placed.with_best_ask(price), outcome: Outcome::PlacedNewBest }
            } else if volume_at(self.levels, price) != 0 {
                Placement { book: placed, outcome: Outcome::PlacedExisting }
            } else {
                Placement { book: placed, outcome: Outcome::PlacedNew }
            }
        }
    }

    /// Cancels the first live quote of `order_id` at `price`. The best prices
    /// stay as they are, also where the level runs empty.
    pub open spec fn cancel(self, price: Price, order_id: OrderId) -> BookView {
        self.with_levels(cancel_at(self.levels, price, order_id))
    }

    /// Whether the buyer's balance pays for `target_vol` units at the asks'
    /// prices, or for all the asks where they hold less.
    pub open spec fn affordable(self, target_vol: Volume, balance: Balance) -> bool {
        buy_cost(self.levels, self.ask_cursor(), target_vol.0 as nat) <= balance.0
    }

    /// The walk of a buy through the asks.
    pub open spec fn buy_walk(self, taker: OrderId, target_vol: Volume, target: OrderTarget) -> Walk {
        walk(self.levels, self.ask_cursor(), taker, target_vol, target, target_vol.0 as int)
    }

    /// The walk of a sell through the bids.
    pub open spec fn sell_walk(self, taker: OrderId, target_vol: Volume, target: OrderTarget) -> Walk {
        walk(self.levels, self.bid_cursor(), taker, target_vol, target, target_vol.0 as int)
    }

    /// Executes a market buy. A buy that the balance does not pay for fails
    /// and leaves the book as it is. Any other walks the asks; the best ask
    /// becomes the price at which a filled order ended, and "no ask" where
    /// the asks ran out.
    pub open spec fn market_buy(self, taker: OrderId, target_vol: Volume, balance: Balance) -> Trade {
        if !self.affordable(target_vol, balance) {
            Trade {
                book: self,
                matches: Seq::empty(),
                outcome: TxnOutcome::FailedInsufficientFunds,
            }
        } else {
            let w = self.buy_walk(
                taker,
                target_vol,
                OrderTarget::MarketBuy { available_quote_balance: balance },
            );
            let best_ask = match w.outcome {
                TxnOutcome::Filled { new_best_price } => new_best_price,
                _ => Price(u64::MAX),
            };
            Trade {
                book: BookView { best_bid: self.best_bid, best_ask, levels: w.levels },
                matches: w.matches,
                outcome: w.outcome,
            }
        }
    }

    /// Executes a market sell: walks the bids; the best bid becomes the price
    /// at which a filled order ended, and "no bid" where the bids ran out.
    pub open spec fn market_sell(self, taker: OrderId, target_vol: Volume) -> Trade {
        let w = self.sell_walk(taker, target_vol, OrderTarget::MarketSell);
        let best_bid = match w.outcome {
            TxnOutcome::Filled { new_best_price } => new_best_price,
            _ => Price(u64::MIN),
        };
        Trade {
            book: BookView { best_bid, best_ask: self.best_ask, levels: w.levels },
            matches: w.matches,
            outcome: w.outcome,
        }
    }

    /// Executes a limit buy: walks the asks priced at `limit` or below, then
    /// rests what is left of the order as a bid at `limit`.
    pub open spec fn limit_buy(self, taker: OrderId, limit: Price, target_vol: Volume) -> Trade {
        let w = self.buy_walk(taker, target_vol, OrderTarget::LimitBuy(limit));
        let walked = self.with_levels(w.levels);
        let book = match w.outcome {
            TxnOutcome::Filled { new_best_price } => walked.with_best_ask(new_best_price),
            TxnOutcome::PartiallyFilled { volume_transacted, new_best_price } => walked.with_best_ask(
                new_best_price,
            ).add_bid(limit, residual(taker, target_vol, volume_transacted)).book,
            TxnOutcome::MarketVolumeExhausted { volume_transacted } => walked.with_best_ask(
                Price(u64::MAX),
            ).add_bid(limit, residual(taker, target_vol, volume_transacted)).book,
            TxnOutcome::FailedInsufficientFunds => walked,
        };
        Trade { book, matches: w.matches, outcome: w.outcome }
    }

    /// Executes a limit sell: walks the bids priced at `limit` or above, then
    /// rests what is left of the order as an ask at `limit`.
    pub open spec fn limit_sell(self, taker: OrderId, limit: Price, target_vol: Volume) -> Trade {
        let w = self.sell_walk(taker, target_vol, OrderTarget::LimitSell(limit));
        let walked = self.with_levels(w.levels);
        let book = match w.outcome {
            TxnOutcome::Filled { new_best_price } => walked.with_best_bid(new_best_price),
            TxnOutcome::PartiallyFilled { volume_transacted, new_best_price } => walked.with_best_bid(
                new_best_price,
            ).add_ask(limit, residual(taker, target_vol, volume_transacted)).book,
            TxnOutcome::MarketVolumeExhausted { volume_transacted } => walked.with_best_bid(
                Price(u64::MIN),
            ).add_ask(limit, residual(taker, target_vol, volume_transacted)).book,
            TxnOutcome::FailedInsufficientFunds => walked,
        };
        Trade { book, matches: w.matches, outcome: w.outcome }
    }
}

/// Two ladders with the same prices give every price the same rank.
pub proof fn lemma_rank_by_prices(a: Seq<LevelView>, b: Seq<LevelView>, price: int)
    requires
        a.len() == b.len(),
        forall|k: int| 0 <= k < a.len() ==> (#[trigger] a[k]).price == b[k].price,
    ensures
        rank(a, price) == rank(b, price),
    decreases a.len(),
{
    if a.len() > 0 {
        assert(a.last().price == b.last().price) by {
            assert(a[a.len() - 1].price == b[a.len() - 1].price);
        }
        assert forall|k: int| 0 <= k < a.drop_last().len() implies (
        #[trigger] a.drop_last()[k]).price == b.drop_last()[k].price by {
            assert(a[k].price == b[k].price);
        }
        lemma_rank_by_prices(a.drop_last(), b.drop_last(), price);
    }
}

/// Placing a quote keeps the ladder ascending. Every level of the new ladder
/// is either the level at the quote's price or a level of the old ladder, and
/// the volume at the quote's price has grown by the quote's.
pub proof fn lemma_place(levels: Seq<LevelView>, price: Price, quote: Quote)
    requires
        ascending(levels),
    ensures
        ascending(place(levels, price, quote)),
        has_level(place(levels, price, quote), price),
        volume_at(place(levels, price, quote), price) == volume_at(levels, price)
            + quote.live_volume(),
        forall|k: int|
            0 <= k < place(levels, price, quote).len() ==> (#[trigger] place(
                levels,
                price,
                quote,
            )[k]).price == price || exists|j: int|
                0 <= j < levels.len() && place(levels, price, quote)[k] == #[trigger] levels[j],
{
    let at = rank(levels, price.0 as int);
    let placed = place(levels, price, quote);
    lemma_rank_parts(levels, price.0 as int);
    if has_level(levels, price) {
        assert(levels[at].quotes.push(quote).drop_last() =~= levels[at].quotes);
        assert forall|i: int, j: int| 0 <= i < j < placed.len() implies placed[i].price.0
            < placed[j].price.0 by {
            assert(placed[i].price == levels[i].price);
            assert(placed[j].price == levels[j].price);
        }
        lemma_rank_by_prices(levels, placed, price.0 as int);
        assert forall|k: int| 0 <= k < placed.len() implies (#[trigger] placed[k]).price == price
            || exists|j: int| 0 <= j < levels.len() && placed[k] == #[trigger] levels[j] by {
            if k != at {
                assert(placed[k] == levels[k]);
            }
        }
    } else {
        lemma_volume_single(quote);
        assert forall|i: int, j: int| 0 <= i < j < placed.len() implies placed[i].price.0
            < placed[j].price.0 by {
            let oi = if i < at {
                i
            } else {
                i - 1
            };
            let oj = if j < at {
                j
            } else {
                j - 1
            };
            if i != at {
                assert(placed[i] == levels[oi]);
            }
            if j != at {
                assert(placed[j] == levels[oj]);
            }
        }
        assert forall|i: int| 0 <= i < at implies (#[trigger] placed[i]).price.0 < price.0 by {
            assert(placed[i] == levels[i]);
        }
        assert forall|i: int| at <= i < placed.len() implies (#[trigger] placed[i]).price.0
            >= price.0 by {
            if i > at {
                assert(placed[i] == levels[i - 1]);
            }
        }
        lemma_rank_is(placed, price.0 as int, at);
        assert forall|k: int| 0 <= k < placed.len() implies (#[trigger] placed[k]).price == price
            || exists|j: int| 0 <= j < levels.len() && placed[k] == #[trigger] levels[j] by {
            if k < at {
                assert(placed[k] == levels[k]);
            } else if k > at {
                assert(placed[k] == levels[k - 1]);
            }
        }
    }
}

/// Cancelling the first live quote of an order takes its volume off the
/// queue; a queue without such a quote is left as it is.
pub proof fn lemma_cancel_volume(quotes: Seq<Quote>, order_id: OrderId)
    ensures
        0 <= find_live(quotes, order_id) <= quotes.len(),
        find_live(quotes, order_id) < quotes.len() ==> {
            &&& quotes[find_live(quotes, order_id)].is_live()
            &&& quotes[find_live(quotes, order_id)].order_id == order_id
            &&& volume_of(cancel_quotes(quotes, order_id)) + quotes[find_live(
                quotes,
                order_id,
            )].volume.0 == volume_of(quotes)
        },
        forall|j: int|
            0 <= j < find_live(quotes, order_id) ==> !((#[trigger] quotes[j]).is_live()
                && quotes[j].order_id == order_id),
{
    lemma_find_live(quotes, order_id);
    let at = find_live(quotes, order_id);
    if at < quotes.len() {
        lemma_volume_update(quotes, at, Quote::tombstone());
        lemma_live_keeps(quotes.update(at, Quote::tombstone()));
    }
}

/// `find_live` gives the least index of a live quote of the order.
pub proof fn lemma_find_live(quotes: Seq<Quote>, order_id: OrderId)
    ensures
        0 <= find_live(quotes, order_id) <= quotes.len(),
        find_live(quotes, order_id) < quotes.len() ==> {
            &&& quotes[find_live(quotes, order_id)].is_live()
            &&& quotes[find_live(quotes, order_id)].order_id == order_id
        },
        forall|j: int|
            0 <= j < find_live(quotes, order_id) ==> !((#[trigger] quotes[j]).is_live()
                && quotes[j].order_id == order_id),
    decreases quotes.len(),
{
    if quotes.len() > 0 && !(quotes.first().is_live() && quotes.first().order_id == order_id) {
        let rest = quotes.drop_first();
        lemma_find_live(rest, order_id);
        assert forall|j: int| 0 <= j < find_live(quotes, order_id) implies !((
        #[trigger] quotes[j]).is_live() && quotes[j].order_id == order_id) by {
            if j > 0 {
                assert(quotes[j] == rest[j - 1]);
            }
        }
        if find_live(quotes, order_id) < quotes.len() {
            assert(quotes[find_live(quotes, order_id)] == rest[find_live(rest, order_id)]);
        }
    }
}

/// Taking `rem` units from the head of a queue that holds more takes `rem`
/// off its volume.
pub proof fn lemma_fill_volume(quotes: Seq<Quote>, rem: int)
    requires
        0 <= rem < volume_of(quotes),
    ensures
        fill_quotes(quotes, rem).len() == quotes.len(),
        volume_of(fill_quotes(quotes, rem)) == volume_of(quotes) - rem,
        volume_of(settled(fill_quotes(quotes, rem))) == volume_of(quotes) - rem,
    decreases quotes.len(),
{
    if quotes.len() > 0 {
        let q = quotes.first();
        let rest = quotes.drop_first();
        lemma_volume_head(quotes);
        let filled = fill_quotes(quotes, rem);
        if !q.is_live() {
            lemma_fill_volume(rest, rem);
            lemma_volume_head(filled);
            assert(filled.drop_first() =~= fill_quotes(rest, rem));
        } else if rem < q.volume.0 {
            lemma_volume_head(filled);
            assert(filled.drop_first() =~= rest);
        } else if rem == q.volume.0 {
            lemma_volume_head(filled);
            assert(filled.drop_first() =~= rest);
        } else {
            lemma_fill_volume(rest, rem - q.volume.0);
            lemma_volume_head(filled);
            assert(filled.drop_first() =~= fill_quotes(rest, rem - q.volume.0));
        }
        lemma_live_keeps(filled);
    }
}

/// A walk leaves no level with more volume than it had, and an order that
/// did not fill has traded no more than its target.
pub proof fn lemma_walk_volumes(
    levels: Seq<LevelView>,
    cursor: int,
    taker: OrderId,
    target_vol: Volume,
    target: OrderTarget,
    rem: int,
)
    requires
        0 <= cursor <= levels.len(),
        0 <= rem <= target_vol.0,
    ensures
        ({
            let w = walk(levels, cursor, taker, target_vol, target, rem);
            &&& w.levels.len() == levels.len()
            &&& forall|k: int|
                0 <= k < levels.len() ==> (#[trigger] w.levels[k]).volume() <= levels[k].volume()
            &&& match w.outcome {
                TxnOutcome::PartiallyFilled { volume_transacted, .. } => target_vol.0 - rem
                    <= volume_transacted.0 <= target_vol.0,
                TxnOutcome::MarketVolumeExhausted { volume_transacted } => target_vol.0 - rem
                    <= volume_transacted.0 <= target_vol.0,
                _ => true,
            }
        }),
    decreases
            (if target.is_buy() {
                levels.len() - cursor
            } else {
                cursor
            }),
{
    let at = target.level_at(cursor);
    let w = walk(levels, cursor, taker, target_vol, target, rem);
    if at < 0 || at >= levels.len() {
    } else if target.stops_at(levels[at].price) {
    } else if rem == 0 {
    } else if rem >= levels[at].volume() {
        let emptied = levels.update(at, levels[at].with_quotes(Seq::empty()));
        lemma_walk_volumes(
            emptied,
            target.step(cursor),
            taker,
            target_vol,
            target,
            rem - levels[at].volume(),
        );
        assert forall|k: int| 0 <= k < levels.len() implies (#[trigger] w.levels[k]).volume()
            <= levels[k].volume() by {
            if k == at {
                assert(emptied[k].volume() == 0);
            } else {
                assert(emptied[k] == levels[k]);
            }
        }
    } else {
        lemma_fill_volume(levels[at].quotes, rem);
    }
}

impl BookView {
    /// Offering a bid keeps the book well formed.
    pub proof fn lemma_add_bid_wf(self, price: Price, quote: Quote)
        requires
            self.wf(),
        ensures
            self.add_bid(price, quote).book.wf(),
    {
        if self.best_ask.0 > price.0 {
            lemma_place(self.levels, price, quote);
            let after = self.add_bid(price, quote).book;
            assert forall|i: int|
                0 <= i < after.levels.len() && after.best_bid.0 < (
                #[trigger] after.levels[i]).price.0 < after.best_ask.0 implies after.levels[i].volume()
                == 0 by {
                let j = choose|j: int|
                    0 <= j < self.levels.len() && after.levels[i] == #[trigger] self.levels[j];
                assert(self.levels[j].volume() == 0);
            }
        }
    }

    /// Offering an ask keeps the book well formed.
    pub proof fn lemma_add_ask_wf(self, price: Price, quote: Quote)
        requires
            self.wf(),
        ensures
            self.add_ask(price, quote).book.wf(),
    {
        if self.best_bid.0 < price.0 {
            lemma_place(self.levels, price, quote);
            let after = self.add_ask(price, quote).book;
            assert forall|i: int|
                0 <= i < after.levels.len() && after.best_bid.0 < (
                #[trigger] after.levels[i]).price.0 < after.best_ask.0 implies after.levels[i].volume()
                == 0 by {
                let j = choose|j: int|
                    0 <= j < self.levels.len() && after.levels[i] == #[trigger] self.levels[j];
                assert(self.levels[j].volume() == 0);
            }
        }
    }

    /// Cancelling keeps the book well formed.
    pub proof fn lemma_cancel_wf(self, price: Price, order_id: OrderId)
        requires
            self.wf(),
        ensures
            self.cancel(price, order_id).wf(),
    {
        let after = self.cancel(price, order_id);
        let at = rank(self.levels, price.0 as int);
        lemma_rank_parts(self.levels, price.0 as int);
        if has_level(self.levels, price) {
            lemma_cancel_volume(self.levels[at].quotes, order_id);
            assert forall|i: int, j: int| 0 <= i < j < after.levels.len() implies after.levels[i].price.0
                < after.levels[j].price.0 by {
                assert(after.levels[i].price == self.levels[i].price);
                assert(after.levels[j].price == self.levels[j].price);
            }
            assert forall|i: int|
                0 <= i < after.levels.len() && after.best_bid.0 < (
                #[trigger] after.levels[i]).price.0 < after.best_ask.0 implies after.levels[i].volume()
                == 0 by {
                assert(self.levels[i].volume() == 0);
            }
        }
    }

    /// A walk through the asks, with the best ask moved to where the walk
    /// ended, keeps the book well formed.
    pub proof fn lemma_buy_walk_wf(self, taker: OrderId, target_vol: Volume, target: OrderTarget)
        requires
            self.wf(),
            target.is_buy(),
        ensures
            ({
                let w = self.buy_walk(taker, target_vol, target);
                let best_ask = match w.outcome {
                    TxnOutcome::Filled { new_best_price } => new_best_price,
                    TxnOutcome::PartiallyFilled { new_best_price, .. } => new_best_price,
                    _ => Price(u64::MAX),
                };
                &&& self.with_levels(w.levels).with_best_ask(best_ask).wf()
                &&& best_ask.0 >= self.best_ask.0
                &&& w.outcome is PartiallyFilled ==> target.stops_at(best_ask)
                &&& !(w.outcome is FailedInsufficientFunds)
            }),
    {
        let cursor = self.ask_cursor();
        lemma_rank_parts(self.levels, self.best_ask.0 as int);
        lemma_walk_frame(self.levels, cursor, taker, target_vol, target, target_vol.0 as int);
        let w = self.buy_walk(taker, target_vol, target);
        let best_ask = match w.outcome {
            TxnOutcome::Filled { new_best_price } => new_best_price,
            TxnOutcome::PartiallyFilled { new_best_price, .. } => new_best_price,
            _ => Price(u64::MAX),
        };
        let after = self.with_levels(w.levels).with_best_ask(best_ask);
        assert forall|i: int, j: int| 0 <= i < j < after.levels.len() implies after.levels[i].price.0
            < after.levels[j].price.0 by {
            assert(after.levels[i].price == self.levels[i].price);
            assert(after.levels[j].price == self.levels[j].price);
        }
        if w.stop < self.levels.len() {
            assert(self.levels[w.stop].price.0 >= self.best_ask.0);
        }
        assert forall|i: int|
            0 <= i < after.levels.len() && after.best_bid.0 < (#[trigger] after.levels[i]).price.0
                < after.best_ask.0 implies after.levels[i].volume() == 0 by {
            assert(after.levels[i].price == self.levels[i].price);
            if i < cursor {
                assert(self.levels[i].price.0 < self.best_ask.0);
                assert(after.levels[i] == self.levels[i]);
                assert(self.levels[i].volume() == 0);
            } else {
                if w.stop < self.levels.len() && i >= w.stop {
                    assert(self.levels[w.stop].price.0 <= self.levels[i].price.0);
                }
                assert(i < w.stop);
                assert(after.levels[i].quotes == Seq::<Quote>::empty());
            }
        }
    }

    /// A walk through the bids, with the best bid moved to where the walk
    /// ended, keeps the book well formed.
    pub proof fn lemma_sell_walk_wf(self, taker: OrderId, target_vol: Volume, target: OrderTarget)
        requires
            self.wf(),
            !target.is_buy(),
        ensures
            ({
                let w = self.sell_walk(taker, target_vol, target);
                let best_bid = match w.outcome {
                    TxnOutcome::Filled { new_best_price } => new_best_price,
                    TxnOutcome::PartiallyFilled { new_best_price, .. } => new_best_price,
                    _ => Price(u64::MIN),
                };
                &&& self.with_levels(w.levels).with_best_bid(best_bid).wf()
                &&& best_bid.0 <= self.best_bid.0
                &&& w.outcome is PartiallyFilled ==> target.stops_at(best_bid)
                &&& !(w.outcome is FailedInsufficientFunds)
            }),
    {
        let cursor = self.bid_cursor();
        lemma_rank_parts(self.levels, self.best_bid.0 + 1);
        lemma_walk_frame(self.levels, cursor, taker, target_vol, target, target_vol.0 as int);
        let w = self.sell_walk(taker, target_vol, target);
        let best_bid = match w.outcome {
            TxnOutcome::Filled { new_best_price } => new_best_price,
            TxnOutcome::PartiallyFilled { new_best_price, .. } => new_best_price,
            _ => Price(u64::MIN),
        };
        let after = self.with_levels(w.levels).with_best_bid(best_bid);
        assert forall|i: int, j: int| 0 <= i < j < after.levels.len() implies after.levels[i].price.0
            < after.levels[j].price.0 by {
            assert(after.levels[i].price == self.levels[i].price);
            assert(after.levels[j].price == self.levels[j].price);
        }
        if w.stop > 0 {
            assert(self.levels[w.stop - 1].price.0 < self.best_bid.0 + 1);
        }
        assert forall|i: int|
            0 <= i < after.levels.len() && after.best_bid.0 < (#[trigger] after.levels[i]).price.0
                < after.best_ask.0 implies after.levels[i].volume() == 0 by {
            assert(after.levels[i].price == self.levels[i].price);
            if i >= cursor {
                assert(self.levels[i].price.0 >= self.best_bid.0 + 1);
                assert(after.levels[i] == self.levels[i]);
                assert(self.levels[i].volume() == 0);
            } else {
                if w.stop > 0 && i <= w.stop - 1 {
                    assert(self.levels[i].price.0 <= self.levels[w.stop - 1].price.0);
                }
                assert(i >= w.stop);
                assert(after.levels[i].quotes == Seq::<Quote>::empty());
            }
        }
    }
}

} // verus!
