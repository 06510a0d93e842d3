//! What holds of every book and every command, proved over the
//! specifications that the commands' contracts use.

use vstd::prelude::*;

use crate::book_model::{
    lemma_cancel_volume, lemma_find_live, lemma_place, lemma_rank_by_prices, volume_between,
    BookView,
};
use crate::ladder::{
    ascending, cancel_at, has_level, lemma_rank_is, lemma_rank_parts, place, rank, rests_at,
    volume_at, LevelView,
};
use crate::level::{cancel_quotes, settled, TOMBSTONE_GC_LIMIT};
use crate::matching::{lemma_walk_frame, walk, OrderTarget, TxnOutcome};
use crate::newtypes::{Balance, OrderId, Price, Volume};
use crate::quote::{
    fill_matches, find_live, lemma_live_keeps, lemma_live_push, lemma_matched_volume_concat,
    lemma_matched_volume_single, lemma_volume_head, lemma_volume_update, live, live_ids, makers,
    matched_volume, sweep_matches, tombstones_in, volume_of, Match, Quote,
};

verus! {

/// The live volume that an order can reach from `cursor`: that of the levels
/// of its side, best price first, up to the first one priced beyond its
/// limit. A market order reaches every level of the side.
pub open spec fn reachable_volume(levels: Seq<LevelView>, cursor: int, target: OrderTarget) -> nat
    decreases
            (if target.is_buy() {
                levels.len() - cursor
            } else {
                cursor
            }),
{
    let at = target.level_at(cursor);
    if at < 0 || at >= levels.len() {
        0
    } else if target.stops_at(levels[at].price) {
        0
    } else {
        levels[at].volume() + reachable_volume(levels, target.step(cursor), target)
    }
}

/// The lesser of two numbers.
pub open spec fn least(a: int, b: int) -> int {
    if a <= b {
        a
    } else {
        b
    }
}

/// The trades of a sweep add up to the volume of the queue.
pub proof fn lemma_sweep_volume(quotes: Seq<Quote>, taker: OrderId, price: Price, rem: int)
    ensures
        matched_volume(sweep_matches(quotes, taker, price, rem)) == volume_of(quotes),
    decreases quotes.len(),
{
    if quotes.len() > 0 {
        let q = quotes.first();
        let rest = quotes.drop_first();
        lemma_volume_head(quotes);
        if !q.is_live() {
            lemma_sweep_volume(rest, taker, price, rem);
        } else {
            lemma_sweep_volume(rest, taker, price, rem - q.volume.0);
            let swept = sweep_matches(quotes, taker, price, rem);
            let tail = sweep_matches(rest, taker, price, rem - q.volume.0);
            assert(swept == seq![swept[0]] + tail);
            lemma_matched_volume_concat(seq![swept[0]], tail);
            lemma_matched_volume_single(swept[0]);
        }
    }
}

/// The trades of a fill add up to what the taker had left.
pub proof fn lemma_fill_matched(quotes: Seq<Quote>, taker: OrderId, price: Price, rem: int)
    requires
        0 <= rem < volume_of(quotes),
    ensures
        matched_volume(fill_matches(quotes, taker, price, rem)) == rem,
    decreases quotes.len(),
{
    if quotes.len() > 0 {
        let q = quotes.first();
        let rest = quotes.drop_first();
        lemma_volume_head(quotes);
        let filled = fill_matches(quotes, taker, price, rem);
        if !q.is_live() {
            lemma_fill_matched(rest, taker, price, rem);
        } else if rem <= q.volume.0 {
            lemma_matched_volume_single(filled[0]);
            assert(filled =~= seq![filled[0]]);
        } else {
            lemma_fill_matched(rest, taker, price, rem - q.volume.0);
            let tail = fill_matches(rest, taker, price, rem - q.volume.0);
            assert(filled == seq![filled[0]] + tail);
            lemma_matched_volume_concat(seq![filled[0]], tail);
            lemma_matched_volume_single(filled[0]);
        }
    }
}

/// What an order can reach depends only on the levels ahead of the cursor.
pub proof fn lemma_reachable_frame(
    a: Seq<LevelView>,
    b: Seq<LevelView>,
    cursor: int,
    target: OrderTarget,
)
    requires
        a.len() == b.len(),
        forall|k: int|
            0 <= k < a.len() && (if target.is_buy() {
                k >= cursor
            } else {
                k < cursor
            }) ==> a[k] == b[k],
    ensures
        reachable_volume(a, cursor, target) == reachable_volume(b, cursor, target),
    decreases
            (if target.is_buy() {
                a.len() - cursor
            } else {
                cursor
            }),
{
    let at = target.level_at(cursor);
    if 0 <= at < a.len() && !target.stops_at(a[at].price) {
        lemma_reachable_frame(a, b, target.step(cursor), target);
    }
}

/// The volumes of the trades of a walk add up to what the order had left to
/// fill, or to all that it could reach where that is less. A filled order
/// found all it had left; any other traded all it could reach, and its
/// outcome names what it has traded in all.
pub proof fn lemma_walk_volume(
    levels: Seq<LevelView>,
    cursor: int,
    taker: OrderId,
    target_vol: Volume,
    target: OrderTarget,
    rem: int,
)
    requires
        0 <= cursor <= levels.len(),
        0 <= rem <= target_vol.0,
    ensures
        ({
            let w = walk(levels, cursor, taker, target_vol, target, rem);
            let reach = reachable_volume(levels, cursor, target);
            &&& matched_volume(w.matches) == least(rem, reach as int)
            &&& match w.outcome {
                TxnOutcome::Filled { .. } => rem <= reach,
                TxnOutcome::PartiallyFilled { volume_transacted, .. } => reach <= rem
                    && volume_transacted.0 == target_vol.0 - rem + reach,
                TxnOutcome::MarketVolumeExhausted { volume_transacted } => reach <= rem
                    && volume_transacted.0 == target_vol.0 - rem + reach,
                TxnOutcome::FailedInsufficientFunds => false,
            }
        }),
    decreases
            (if target.is_buy() {
                levels.len() - cursor
            } else {
                cursor
            }),
{
    let at = target.level_at(cursor);
    let w = walk(levels, cursor, taker, target_vol, target, rem);
    if at < 0 || at >= levels.len() {
    } else if target.stops_at(levels[at].price) {
    } else if rem == 0 {
    } else if rem >= levels[at].volume() {
        let emptied = levels.update(at, levels[at].with_quotes(Seq::empty()));
        let next = target.step(cursor);
        let left = rem - levels[at].volume();
        lemma_walk_volume(emptied, next, taker, target_vol, target, left);
        lemma_reachable_frame(emptied, levels, next, target);
        let rest = walk(emptied, next, taker, target_vol, target, left);
        let swept = sweep_matches(levels[at].quotes, taker, levels[at].price, rem);
        lemma_sweep_volume(levels[at].quotes, taker, levels[at].price, rem);
        lemma_matched_volume_concat(swept, rest.matches);
    } else {
        lemma_fill_matched(levels[at].quotes, taker, levels[at].price, rem);
    }
}

/// A stretch of levels that ends with one more level holds that level's
/// volume more.
pub proof fn lemma_volume_between_last(levels: Seq<LevelView>, lo: int, hi: int)
    requires
        0 <= lo < hi <= levels.len(),
    ensures
        volume_between(levels, lo, hi) == volume_between(levels, lo, hi - 1) + levels[hi
            - 1].volume(),
    decreases hi - lo,
{
    if lo + 1 < hi {
        lemma_volume_between_last(levels, lo + 1, hi);
        assert(volume_between(levels, lo, hi - 1) == levels[lo].volume() + volume_between(
            levels,
            lo + 1,
            hi - 1,
        ));
    } else {
        assert(volume_between(levels, lo + 1, hi) == 0);
        assert(volume_between(levels, lo, hi - 1) == 0);
    }
}

/// On an ascending ladder, what a buy can reach from `cursor` is the volume
/// of the levels from there up to the first one priced above its limit, and
/// what a sell can reach is the volume of the levels below `cursor` down to
/// the last one priced at its limit or above. A market order has no limit.
pub proof fn lemma_reachable_sum(levels: Seq<LevelView>, cursor: int, target: OrderTarget)
    requires
        ascending(levels),
        0 <= cursor <= levels.len(),
    ensures
        reachable_volume(levels, cursor, target) == match target {
            OrderTarget::LimitBuy(limit) => volume_between(
                levels,
                cursor,
                rank(levels, limit.0 + 1),
            ),
            OrderTarget::MarketBuy { .. } => volume_between(levels, cursor, levels.len() as int),
            OrderTarget::LimitSell(limit) => volume_between(
                levels,
                rank(levels, limit.0 as int),
                cursor,
            ),
            OrderTarget::MarketSell => volume_between(levels, 0, cursor),
        },
    decreases
            (if target.is_buy() {
                levels.len() - cursor
            } else {
                cursor
            }),
{
    let at = target.level_at(cursor);
    match target {
        OrderTarget::LimitBuy(limit) => {
            lemma_rank_parts(levels, limit.0 + 1);
            if cursor < levels.len() && !target.stops_at(levels[cursor].price) {
                lemma_reachable_sum(levels, cursor + 1, target);
            }
        },
        OrderTarget::MarketBuy { .. } => {
            if cursor < levels.len() {
                lemma_reachable_sum(levels, cursor + 1, target);
            }
        },
        OrderTarget::LimitSell(limit) => {
            lemma_rank_parts(levels, limit.0 as int);
            if cursor > 0 && !target.stops_at(levels[cursor - 1].price) {
                lemma_reachable_sum(levels, cursor - 1, target);
                lemma_volume_between_last(levels, rank(levels, limit.0 as int), cursor);
            }
        },
        OrderTarget::MarketSell => {
            if cursor > 0 {
                lemma_reachable_sum(levels, cursor - 1, target);
                lemma_volume_between_last(levels, 0, cursor);
            }
        },
    }
}

impl BookView {
    /// The volumes of the trades of a market buy that the balance pays for
    /// add up to its target, or to all the volume of the asks where that is
    /// less.
    pub proof fn lemma_market_buy_volume(self, taker: OrderId, target_vol: Volume, balance: Balance)
        requires
            self.wf(),
            self.affordable(target_vol, balance),
        ensures
            matched_volume(self.market_buy(taker, target_vol, balance).matches) == least(
                target_vol.0 as int,
                self.ask_volume() as int,
            ),
    {
        let target = OrderTarget::MarketBuy { available_quote_balance: balance };
        lemma_rank_parts(self.levels, self.best_ask.0 as int);
        lemma_walk_volume(
            self.levels,
            self.ask_cursor(),
            taker,
            target_vol,
            target,
            target_vol.0 as int,
        );
        lemma_reachable_sum(self.levels, self.ask_cursor(), target);
    }

    /// The volumes of the trades of a market sell add up to its target, or
    /// to all the volume of the bids where that is less.
    pub proof fn lemma_market_sell_volume(self, taker: OrderId, target_vol: Volume)
        requires
            self.wf(),
        ensures
            matched_volume(self.market_sell(taker, target_vol).matches) == least(
                target_vol.0 as int,
                self.bid_volume() as int,
            ),
    {
        lemma_rank_parts(self.levels, self.best_bid.0 + 1);
        lemma_walk_volume(
            self.levels,
            self.bid_cursor(),
            taker,
            target_vol,
            OrderTarget::MarketSell,
            target_vol.0 as int,
        );
        lemma_reachable_sum(self.levels, self.bid_cursor(), OrderTarget::MarketSell);
    }

    /// The volumes of the trades of a limit buy add up to its target, or to
    /// all the volume of the asks priced at its limit or below where that is
    /// less.
    pub proof fn lemma_limit_buy_volume(self, taker: OrderId, limit: Price, target_vol: Volume)
        requires
            self.wf(),
        ensures
            matched_volume(self.limit_buy(taker, limit, target_vol).matches) == least(
                target_vol.0 as int,
                self.asks_within(limit) as int,
            ),
    {
        lemma_rank_parts(self.levels, self.best_ask.0 as int);
        lemma_walk_volume(
            self.levels,
            self.ask_cursor(),
            taker,
            target_vol,
            OrderTarget::LimitBuy(limit),
            target_vol.0 as int,
        );
        lemma_reachable_sum(self.levels, self.ask_cursor(), OrderTarget::LimitBuy(limit));
    }

    /// The volumes of the trades of a limit sell add up to its target, or to
    /// all the volume of the bids priced at its limit or above where that is
    /// less.
    pub proof fn lemma_limit_sell_volume(self, taker: OrderId, limit: Price, target_vol: Volume)
        requires
            self.wf(),
        ensures
            matched_volume(self.limit_sell(taker, limit, target_vol).matches) == least(
                target_vol.0 as int,
                self.bids_within(limit) as int,
            ),
    {
        lemma_rank_parts(self.levels, self.best_bid.0 + 1);
        lemma_walk_volume(
            self.levels,
            self.bid_cursor(),
            taker,
            target_vol,
            OrderTarget::LimitSell(limit),
            target_vol.0 as int,
        );
        lemma_reachable_sum(self.levels, self.bid_cursor(), OrderTarget::LimitSell(limit));
    }
}

/// Prices never fall along the sequence of trades.
pub open spec fn prices_rising(matches: Seq<Match>) -> bool {
    forall|i: int, j: int| 0 <= i < j < matches.len() ==> matches[i].price.0 <= matches[j].price.0
}

/// Prices never rise along the sequence of trades.
pub open spec fn prices_falling(matches: Seq<Match>) -> bool {
    forall|i: int, j: int| 0 <= i < j < matches.len() ==> matches[i].price.0 >= matches[j].price.0
}

/// The test that a trade was made at `price`.
pub open spec fn priced_at(price: Price) -> spec_fn(Match) -> bool {
    |m: Match| m.price == price
}

/// The trades made at `price`, in the order in which they were made.
pub open spec fn matches_at(matches: Seq<Match>, price: Price) -> Seq<Match> {
    matches.filter(priced_at(price))
}

/// Every trade of a sweep or of a fill is made at the level's price, for the
/// taker.
pub proof fn lemma_level_matches(quotes: Seq<Quote>, taker: OrderId, price: Price, rem: int)
    ensures
        forall|i: int|
            0 <= i < sweep_matches(quotes, taker, price, rem).len() ==> {
                &&& (#[trigger] sweep_matches(quotes, taker, price, rem)[i]).price == price
                &&& sweep_matches(quotes, taker, price, rem)[i].taker_order_id == taker
            },
        forall|i: int|
            0 <= i < fill_matches(quotes, taker, price, rem).len() ==> {
                &&& (#[trigger] fill_matches(quotes, taker, price, rem)[i]).price == price
                &&& fill_matches(quotes, taker, price, rem)[i].taker_order_id == taker
            },
    decreases quotes.len(),
{
    if quotes.len() > 0 {
        let q = quotes.first();
        let rest = quotes.drop_first();
        lemma_level_matches(rest, taker, price, rem);
        lemma_level_matches(rest, taker, price, rem - q.volume.0);
    }
}

/// The trades of a buy are made at rising prices, none below the price of
/// the level at the cursor; the trades of a sell are made at falling prices,
/// none above the price of the level below the cursor.
pub proof fn lemma_walk_prices(
    levels: Seq<LevelView>,
    cursor: int,
    taker: OrderId,
    target_vol: Volume,
    target: OrderTarget,
    rem: int,
)
    requires
        ascending(levels),
        0 <= cursor <= levels.len(),
    ensures
        ({
            let w = walk(levels, cursor, taker, target_vol, target, rem);
            let at = target.level_at(cursor);
            if target.is_buy() {
                &&& prices_rising(w.matches)
                &&& forall|i: int|
                    0 <= i < w.matches.len() ==> 0 <= at < levels.len() && (
                    #[trigger] w.matches[i]).price.0 >= levels[at].price.0
            } else {
                &&& prices_falling(w.matches)
                &&& forall|i: int|
                    0 <= i < w.matches.len() ==> 0 <= at < levels.len() && (
                    #[trigger] w.matches[i]).price.0 <= levels[at].price.0
            }
        }),
    decreases
            (if target.is_buy() {
                levels.len() - cursor
            } else {
                cursor
            }),
{
    let at = target.level_at(cursor);
    let w = walk(levels, cursor, taker, target_vol, target, rem);
    if at < 0 || at >= levels.len() {
    } else if target.stops_at(levels[at].price) {
    } else if rem == 0 {
    } else if rem >= levels[at].volume() {
        let emptied = levels.update(at, levels[at].with_quotes(Seq::empty()));
        let next = target.step(cursor);
        let left = rem - levels[at].volume();
        assert(ascending(emptied)) by {
            assert forall|i: int, j: int| 0 <= i < j < emptied.len() implies emptied[i].price.0
                < emptied[j].price.0 by {
                assert(emptied[i].price == levels[i].price);
                assert(emptied[j].price == levels[j].price);
            }
        }
        lemma_walk_prices(emptied, next, taker, target_vol, target, left);
        lemma_level_matches(levels[at].quotes, taker, levels[at].price, rem);
        let rest = walk(emptied, next, taker, target_vol, target, left);
        let swept = sweep_matches(levels[at].quotes, taker, levels[at].price, rem);
        let beyond = target.level_at(next);
        assert forall|i: int| 0 <= i < w.matches.len() implies if target.is_buy() {
            (#[trigger] w.matches[i]).price.0 >= levels[at].price.0
        } else {
            w.matches[i].price.0 <= levels[at].price.0
        } by {
            if i >= swept.len() {
                assert(w.matches[i] == rest.matches[i - swept.len()]);
                assert(emptied[beyond].price == levels[beyond].price);
            } else {
                assert(w.matches[i] == swept[i]);
            }
        }
        assert forall|i: int, j: int| 0 <= i < j < w.matches.len() implies if target.is_buy() {
            w.matches[i].price.0 <= w.matches[j].price.0
        } else {
            w.matches[i].price.0 >= w.matches[j].price.0
        } by {
            if i < swept.len() {
                assert(w.matches[i] == swept[i]);
            } else {
                assert(w.matches[i] == rest.matches[i - swept.len()]);
                assert(w.matches[j] == rest.matches[j - swept.len()]);
            }
        }
    } else {
        lemma_level_matches(levels[at].quotes, taker, levels[at].price, rem);
    }
}

/// The makers of a sweep are the placers of the live quotes, in arrival
/// order.
pub proof fn lemma_sweep_makers(quotes: Seq<Quote>, taker: OrderId, price: Price, rem: int)
    ensures
        makers(sweep_matches(quotes, taker, price, rem)) == live_ids(quotes),
    decreases quotes.len(),
{
    if quotes.len() == 0 {
        assert(live(quotes) =~= Seq::<Quote>::empty()) by {
            reveal(Seq::filter);
        }
        assert(makers(sweep_matches(quotes, taker, price, rem)) =~= live_ids(quotes));
    } else {
        let q = quotes.first();
        let rest = quotes.drop_first();
        assert(quotes =~= seq![q] + rest);
        rest.lemma_filter_prepend(q, |x: Quote| x.is_live());
        if !q.is_live() {
            lemma_sweep_makers(rest, taker, price, rem);
            assert(live(quotes) =~= live(rest));
        } else {
            lemma_sweep_makers(rest, taker, price, rem - q.volume.0);
            assert(live(quotes) =~= seq![q] + live(rest));
            let tail = makers(sweep_matches(rest, taker, price, rem - q.volume.0));
            assert(makers(sweep_matches(quotes, taker, price, rem)) =~= seq![q.order_id] + tail);
            assert(live_ids(quotes) =~= seq![q.order_id] + live_ids(rest));
        }
    }
}

/// The makers of a fill are the placers of the first live quotes, in arrival
/// order.
pub proof fn lemma_fill_makers(quotes: Seq<Quote>, taker: OrderId, price: Price, rem: int)
    ensures
        makers(fill_matches(quotes, taker, price, rem)).is_prefix_of(live_ids(quotes)),
    decreases quotes.len(),
{
    if quotes.len() == 0 {
        assert(makers(fill_matches(quotes, taker, price, rem)) =~= Seq::<OrderId>::empty());
    } else {
        let q = quotes.first();
        let rest = quotes.drop_first();
        assert(quotes =~= seq![q] + rest);
        rest.lemma_filter_prepend(q, |x: Quote| x.is_live());
        if !q.is_live() {
            lemma_fill_makers(rest, taker, price, rem);
            assert(live(quotes) =~= live(rest));
        } else {
            assert(live(quotes) =~= seq![q] + live(rest));
            if rem > q.volume.0 {
                lemma_fill_makers(rest, taker, price, rem - q.volume.0);
                let tail = makers(fill_matches(rest, taker, price, rem - q.volume.0));
                assert(makers(fill_matches(quotes, taker, price, rem)) =~= seq![q.order_id] + tail);
                assert(live_ids(quotes) =~= seq![q.order_id] + live_ids(rest));
            }
        }
    }
}

/// Of a sequence of trades all made at one price, those made at that price
/// are all, and those made at another are none.
pub proof fn lemma_matches_at_block(matches: Seq<Match>, made_at: Price, price: Price)
    requires
        forall|i: int| 0 <= i < matches.len() ==> (#[trigger] matches[i]).price == made_at,
    ensures
        matches_at(matches, price) == if made_at == price {
            matches
        } else {
            Seq::empty()
        },
    decreases matches.len(),
{
    reveal(Seq::filter);
    if matches.len() == 0 {
        assert(matches_at(matches, price) =~= matches);
    } else {
        lemma_matches_at_block(matches.drop_last(), made_at, price);
        assert(matches[matches.len() - 1].price == made_at);
        assert(matches =~= matches.drop_last().push(matches.last()));
    }
}

/// Of a run of trades all made at one price, followed by other trades, those
/// made at `price` are the run, where it was made at that price, followed by
/// those of the other trades.
pub proof fn lemma_matches_at_run(run: Seq<Match>, rest: Seq<Match>, made_at: Price, price: Price)
    requires
        forall|i: int| 0 <= i < run.len() ==> (#[trigger] run[i]).price == made_at,
    ensures
        matches_at(run + rest, price) == if made_at == price {
            run + matches_at(rest, price)
        } else {
            matches_at(rest, price)
        },
{
    lemma_matches_at_block(run, made_at, price);
    Seq::filter_distributes_over_add(run, rest, priced_at(price));
    if made_at != price {
        assert(Seq::<Match>::empty() + matches_at(rest, price) =~= matches_at(rest, price));
    }
}

/// An empty level has no live quote, and no trades have no makers.
pub proof fn lemma_nothing_at_all(price: Price)
    ensures
        live_ids(Seq::<Quote>::empty()) == Seq::<OrderId>::empty(),
        matches_at(Seq::<Match>::empty(), price) == Seq::<Match>::empty(),
        makers(Seq::<Match>::empty()) == Seq::<OrderId>::empty(),
{
    reveal(Seq::filter);
    assert(live(Seq::<Quote>::empty()) =~= Seq::<Quote>::empty());
    assert(live_ids(Seq::<Quote>::empty()) =~= Seq::<OrderId>::empty());
    assert(matches_at(Seq::<Match>::empty(), price) =~= Seq::<Match>::empty());
    assert(makers(Seq::<Match>::empty()) =~= Seq::<OrderId>::empty());
}

/// Emptying a level keeps the ladder ascending, and no other level has its
/// price.
pub proof fn lemma_emptied(levels: Seq<LevelView>, at: int)
    requires
        ascending(levels),
        0 <= at < levels.len(),
    ensures
        ascending(levels.update(at, levels[at].with_quotes(Seq::empty()))),
        forall|k: int|
            0 <= k < levels.len() && k != at ==> (#[trigger] levels[k]).price != levels[at].price,
{
    let emptied = levels.update(at, levels[at].with_quotes(Seq::empty()));
    assert forall|i: int, j: int| 0 <= i < j < emptied.len() implies emptied[i].price.0
        < emptied[j].price.0 by {
        assert(emptied[i].price == levels[i].price);
        assert(emptied[j].price == levels[j].price);
    }
    assert forall|k: int| 0 <= k < levels.len() && k != at implies (#[trigger] levels[k]).price
        != levels[at].price by {
        if k < at {
            assert(levels[k].price.0 < levels[at].price.0);
        } else {
            assert(levels[at].price.0 < levels[k].price.0);
        }
    }
}

/// Within a price, a walk serves the quotes in the order in which they
/// arrived: the makers of the trades made at a level's price are the placers
/// of the first live quotes of that level, one trade for each, with none
/// passed over.
pub proof fn lemma_walk_time_priority(
    levels: Seq<LevelView>,
    cursor: int,
    taker: OrderId,
    target_vol: Volume,
    target: OrderTarget,
    rem: int,
    index: int,
)
    requires
        ascending(levels),
        0 <= cursor <= levels.len(),
        0 <= index < levels.len(),
    ensures
        makers(
            matches_at(
                walk(levels, cursor, taker, target_vol, target, rem).matches,
                levels[index].price,
            ),
        ).is_prefix_of(live_ids(levels[index].quotes)),
    decreases
            (if target.is_buy() {
                levels.len() - cursor
            } else {
                cursor
            }),
{
    let at = target.level_at(cursor);
    let w = walk(levels, cursor, taker, target_vol, target, rem);
    let price = levels[index].price;
    let queue = live_ids(levels[index].quotes);
    lemma_nothing_at_all(price);
    if at < 0 || at >= levels.len() || target.stops_at(levels[at].price) || rem == 0 {
        assert(w.matches == Seq::<Match>::empty());
    } else if rem >= levels[at].volume() {
        let emptied = levels.update(at, levels[at].with_quotes(Seq::empty()));
        let next = target.step(cursor);
        let left = rem - levels[at].volume();
        let rest = walk(emptied, next, taker, target_vol, target, left);
        let swept = sweep_matches(levels[at].quotes, taker, levels[at].price, rem);
        assert(w.matches == swept + rest.matches);
        lemma_emptied(levels, at);
        lemma_walk_time_priority(emptied, next, taker, target_vol, target, left, index);
        lemma_level_matches(levels[at].quotes, taker, levels[at].price, rem);
        lemma_matches_at_run(swept, rest.matches, levels[at].price, price);
        if index == at {
            let later = matches_at(rest.matches, price);
            assert(emptied[index].price == price);
            assert(makers(later).is_prefix_of(Seq::<OrderId>::empty()));
            assert(later.len() == makers(later).len());
            assert(swept + later =~= swept);
            lemma_sweep_makers(levels[at].quotes, taker, levels[at].price, rem);
            assert(queue.subrange(0, queue.len() as int) =~= queue);
        } else {
            assert(emptied[index] == levels[index]);
        }
    } else {
        let filled = fill_matches(levels[at].quotes, taker, levels[at].price, rem);
        assert(w.matches == filled);
        lemma_emptied(levels, at);
        lemma_level_matches(levels[at].quotes, taker, levels[at].price, rem);
        lemma_matches_at_block(filled, levels[at].price, price);
        if index == at {
            lemma_fill_makers(levels[at].quotes, taker, levels[at].price, rem);
        }
    }
}

impl BookView {
    /// The trades of a market buy are made at rising prices and, within a
    /// price, in the order in which the quotes arrived.
    pub proof fn lemma_market_buy_priority(
        self,
        taker: OrderId,
        target_vol: Volume,
        balance: Balance,
        index: int,
    )
        requires
            self.wf(),
            0 <= index < self.levels.len(),
        ensures
            prices_rising(self.market_buy(taker, target_vol, balance).matches),
            makers(
                matches_at(
                    self.market_buy(taker, target_vol, balance).matches,
                    self.levels[index].price,
                ),
            ).is_prefix_of(live_ids(self.levels[index].quotes)),
    {
        let target = OrderTarget::MarketBuy { available_quote_balance: balance };
        lemma_rank_parts(self.levels, self.best_ask.0 as int);
        if self.affordable(target_vol, balance) {
            lemma_walk_prices(
                self.levels,
                self.ask_cursor(),
                taker,
                target_vol,
                target,
                target_vol.0 as int,
            );
            lemma_walk_time_priority(
                self.levels,
                self.ask_cursor(),
                taker,
                target_vol,
                target,
                target_vol.0 as int,
                index,
            );
        } else {
            assert(matches_at(Seq::<Match>::empty(), self.levels[index].price) =~= Seq::<
                Match,
            >::empty()) by {
                reveal(Seq::filter);
            }
            assert(makers(Seq::<Match>::empty()) =~= Seq::<OrderId>::empty());
        }
    }

    /// The trades of a market sell are made at falling prices and, within a
    /// price, in the order in which the quotes arrived.
    pub proof fn lemma_market_sell_priority(self, taker: OrderId, target_vol: Volume, index: int)
        requires
            self.wf(),
            0 <= index < self.levels.len(),
        ensures
            prices_falling(self.market_sell(taker, target_vol).matches),
            makers(
                matches_at(self.market_sell(taker, target_vol).matches, self.levels[index].price),
            ).is_prefix_of(live_ids(self.levels[index].quotes)),
    {
        lemma_rank_parts(self.levels, self.best_bid.0 + 1);
        lemma_walk_prices(
            self.levels,
            self.bid_cursor(),
            taker,
            target_vol,
            OrderTarget::MarketSell,
            target_vol.0 as int,
        );
        lemma_walk_time_priority(
            self.levels,
            self.bid_cursor(),
            taker,
            target_vol,
            OrderTarget::MarketSell,
            target_vol.0 as int,
            index,
        );
    }
}

/// No two live quotes of the queue were placed by `order_id`.
pub open spec fn at_most_once(quotes: Seq<Quote>, order_id: OrderId) -> bool {
    forall|i: int, j: int|
        0 <= i < j < quotes.len() && quotes[i].is_live() && quotes[i].order_id == order_id ==> !(
        quotes[j].is_live() && quotes[j].order_id == order_id)
}

/// No live quote of the queue was placed by `order_id`.
pub open spec fn absent(quotes: Seq<Quote>, order_id: OrderId) -> bool {
    forall|j: int|
        0 <= j < quotes.len() ==> !((#[trigger] quotes[j]).is_live() && quotes[j].order_id
            == order_id)
}

/// A queue holds no live quote of an order exactly when the search for one
/// runs to the end of the queue.
pub proof fn lemma_absent(quotes: Seq<Quote>, order_id: OrderId)
    ensures
        absent(quotes, order_id) <==> find_live(quotes, order_id) == quotes.len(),
{
    lemma_find_live(quotes, order_id);
}

/// The first live quote of an order is found where it stands.
pub proof fn lemma_find_live_is(quotes: Seq<Quote>, order_id: OrderId, at: int)
    requires
        0 <= at < quotes.len(),
        quotes[at].is_live(),
        quotes[at].order_id == order_id,
        forall|j: int| 0 <= j < at ==> !((#[trigger] quotes[j]).is_live() && quotes[j].order_id
            == order_id),
    ensures
        find_live(quotes, order_id) == at,
{
    lemma_find_live(quotes, order_id);
}

/// Dropping the tombstones of a queue brings no live quote of an order into
/// it.
pub proof fn lemma_live_absent(quotes: Seq<Quote>, order_id: OrderId)
    requires
        absent(quotes, order_id),
    ensures
        absent(live(quotes), order_id),
    decreases quotes.len(),
{
    reveal(Seq::filter);
    if quotes.len() > 0 {
        let init = quotes.drop_last();
        assert forall|j: int| 0 <= j < init.len() implies !((#[trigger] init[j]).is_live()
            && init[j].order_id == order_id) by {
            assert(init[j] == quotes[j]);
        }
        lemma_live_absent(init, order_id);
        assert(quotes =~= init.push(quotes.last()));
        lemma_live_push(init, quotes.last());
        assert(quotes.last() == quotes[quotes.len() - 1]);
    }
}

/// A queue without tombstones holds live quotes only.
pub proof fn lemma_clean_all_live(quotes: Seq<Quote>)
    requires
        tombstones_in(quotes) == 0,
    ensures
        forall|i: int| 0 <= i < quotes.len() ==> (#[trigger] quotes[i]).is_live(),
    decreases quotes.len(),
{
    if quotes.len() > 0 {
        let init = quotes.drop_last();
        lemma_clean_all_live(init);
        assert forall|i: int| 0 <= i < quotes.len() implies (#[trigger] quotes[i]).is_live() by {
            if i < init.len() {
                assert(init[i] == quotes[i]);
            }
        }
    }
}

/// What a level does to its queue after a cancellation or a fill. The live
/// quotes, their order and their volume stay as they are, and fewer
/// tombstones are left than the number at which they are dropped. A queue
/// that had reached that number is left with live entries only and no
/// tombstone.
pub proof fn lemma_compaction(quotes: Seq<Quote>)
    ensures
        live(settled(quotes)) == live(quotes),
        volume_of(settled(quotes)) == volume_of(quotes),
        tombstones_in(settled(quotes)) < TOMBSTONE_GC_LIMIT,
        tombstones_in(quotes) >= TOMBSTONE_GC_LIMIT ==> {
            &&& settled(quotes) == live(quotes)
            &&& tombstones_in(settled(quotes)) == 0
            &&& forall|i: int|
                0 <= i < settled(quotes).len() ==> (#[trigger] settled(quotes)[i]).is_live()
        },
{
    lemma_live_keeps(quotes);
    if tombstones_in(quotes) >= TOMBSTONE_GC_LIMIT {
        lemma_clean_all_live(live(quotes));
    }
}

/// A cancellation that brings the tombstones of a queue to the number at
/// which they are dropped leaves live entries only.
pub proof fn lemma_cancel_compacts(quotes: Seq<Quote>, order_id: OrderId)
    requires
        find_live(quotes, order_id) < quotes.len(),
        tombstones_in(quotes) + 1 >= TOMBSTONE_GC_LIMIT,
    ensures
        tombstones_in(cancel_quotes(quotes, order_id)) == 0,
        forall|i: int|
            0 <= i < cancel_quotes(quotes, order_id).len() ==> (#[trigger] cancel_quotes(
                quotes,
                order_id,
            )[i]).is_live(),
{
    lemma_find_live(quotes, order_id);
    let at = find_live(quotes, order_id);
    lemma_volume_update(quotes, at, Quote::tombstone());
    lemma_compaction(quotes.update(at, Quote::tombstone()));
}

/// A second cancellation of the same order finds nothing, as long as the
/// queue held no two live quotes of that order.
pub proof fn lemma_cancel_quotes_twice(quotes: Seq<Quote>, order_id: OrderId)
    requires
        at_most_once(quotes, order_id),
    ensures
        find_live(cancel_quotes(quotes, order_id), order_id) == cancel_quotes(
            quotes,
            order_id,
        ).len(),
        cancel_quotes(cancel_quotes(quotes, order_id), order_id) == cancel_quotes(
            quotes,
            order_id,
        ),
{
    lemma_find_live(quotes, order_id);
    let at = find_live(quotes, order_id);
    if at < quotes.len() {
        let buried = quotes.update(at, Quote::tombstone());
        assert forall|j: int| 0 <= j < buried.len() implies !((#[trigger] buried[j]).is_live()
            && buried[j].order_id == order_id) by {
            if j != at {
                assert(buried[j] == quotes[j]);
            }
        }
        lemma_live_absent(buried, order_id);
        lemma_absent(settled(buried), order_id);
    }
}

impl BookView {
    /// The best bid lies below the best ask, and every level that holds
    /// volume is a bid, priced at the best bid or below, or an ask, priced at
    /// the best ask or above.
    pub proof fn lemma_uncrossed(self, index: int)
        requires
            self.wf(),
            0 <= index < self.levels.len(),
            self.levels[index].volume() > 0,
        ensures
            self.best_bid.0 < self.best_ask.0,
            self.levels[index].price.0 <= self.best_bid.0 || self.levels[index].price.0
                >= self.best_ask.0,
    {
    }

    /// Cancellation is idempotent: after a cancellation, a second one of
    /// the same order at the same price finds nothing and leaves the book as
    /// it is. This holds as long as the level held no two live quotes of
    /// that order.
    pub proof fn lemma_cancel_twice(self, price: Price, order_id: OrderId)
        requires
            self.wf(),
            has_level(self.levels, price) ==> at_most_once(
                self.levels[rank(self.levels, price.0 as int)].quotes,
                order_id,
            ),
        ensures
            !rests_at(self.cancel(price, order_id).levels, price, order_id),
            self.cancel(price, order_id).cancel(price, order_id) == self.cancel(price, order_id),
    {
        let at = rank(self.levels, price.0 as int);
        let once = self.cancel(price, order_id);
        lemma_rank_parts(self.levels, price.0 as int);
        if has_level(self.levels, price) {
            lemma_rank_by_prices(self.levels, once.levels, price.0 as int);
            lemma_cancel_quotes_twice(self.levels[at].quotes, order_id);
            assert(once.cancel(price, order_id).levels =~= once.levels);
        }
    }

    /// Adding a bid and cancelling it at once brings the volume at its price
    /// back to what it was. This holds as long as the level held no live
    /// quote of the same order before.
    pub proof fn lemma_add_bid_then_cancel(self, price: Price, quote: Quote)
        requires
            self.wf(),
            quote.is_live(),
            price.0 < self.best_ask.0,
            !rests_at(self.levels, price, quote.order_id),
        ensures
            rests_at(self.add_bid(price, quote).book.levels, price, quote.order_id),
            volume_at(
                self.add_bid(price, quote).book.cancel(price, quote.order_id).levels,
                price,
            ) == volume_at(self.levels, price),
    {
        lemma_place_then_cancel(self.levels, price, quote);
    }

    /// Adding an ask and cancelling it at once brings the volume at its
    /// price back to what it was. This holds as long as the level held no
    /// live quote of the same order before.
    pub proof fn lemma_add_ask_then_cancel(self, price: Price, quote: Quote)
        requires
            self.wf(),
            quote.is_live(),
            price.0 > self.best_bid.0,
            !rests_at(self.levels, price, quote.order_id),
        ensures
            rests_at(self.add_ask(price, quote).book.levels, price, quote.order_id),
            volume_at(
                self.add_ask(price, quote).book.cancel(price, quote.order_id).levels,
                price,
            ) == volume_at(self.levels, price),
    {
        lemma_place_then_cancel(self.levels, price, quote);
    }

    /// A market buy of nothing against a side that has a level is filled at
    /// that level's price, whatever the balance: it trades nothing and leaves
    /// every level as it is.
    pub proof fn lemma_buy_nothing(self, taker: OrderId, balance: Balance)
        requires
            self.wf(),
            self.ask_cursor() < self.levels.len(),
        ensures
            self.market_buy(taker, Volume(0), balance).outcome == (TxnOutcome::Filled {
                new_best_price: self.levels[self.ask_cursor()].price,
            }),
            self.market_buy(taker, Volume(0), balance).matches == Seq::<Match>::empty(),
            self.market_buy(taker, Volume(0), balance).book.levels == self.levels,
    {
        lemma_rank_parts(self.levels, self.best_ask.0 as int);
        let here = self.levels[self.ask_cursor()];
        assert(0nat * (here.price.0 as nat) == 0) by (nonlinear_arith);
    }
}

/// Placing a quote on a ladder and cancelling it at once brings the volume
/// at its price back to what it was, as long as the level held no live quote
/// of the same order before.
pub proof fn lemma_place_then_cancel(levels: Seq<LevelView>, price: Price, quote: Quote)
    requires
        ascending(levels),
        quote.is_live(),
        !rests_at(levels, price, quote.order_id),
    ensures
        rests_at(place(levels, price, quote), price, quote.order_id),
        volume_at(cancel_at(place(levels, price, quote), price, quote.order_id), price)
            == volume_at(levels, price),
{
    let placed = place(levels, price, quote);
    let at = rank(levels, price.0 as int);
    lemma_rank_parts(levels, price.0 as int);
    lemma_place(levels, price, quote);
    lemma_rank_parts(placed, price.0 as int);
    let there = rank(placed, price.0 as int);
    assert(there == at) by {
        if has_level(levels, price) {
            lemma_rank_by_prices(levels, placed, price.0 as int);
        } else {
            assert forall|i: int| 0 <= i < at implies (#[trigger] placed[i]).price.0 < price.0 by {
                assert(placed[i] == levels[i]);
            }
            assert forall|i: int| at <= i < placed.len() implies (#[trigger] placed[i]).price.0
                >= price.0 by {
                if i > at {
                    assert(placed[i] == levels[i - 1]);
                }
            }
            lemma_rank_is(placed, price.0 as int, at);
        }
    }
    let before = if has_level(levels, price) {
        levels[at].quotes
    } else {
        Seq::<Quote>::empty()
    };
    let queue = placed[at].quotes;
    assert(queue =~= before.push(quote));
    lemma_find_live(before, quote.order_id);
    lemma_absent(before, quote.order_id);
    assert(absent(before, quote.order_id));
    assert forall|j: int| 0 <= j < before.len() implies !((#[trigger] queue[j]).is_live()
        && queue[j].order_id == quote.order_id) by {
        assert(queue[j] == before[j]);
    }
    lemma_find_live_is(queue, quote.order_id, before.len() as int);
    lemma_cancel_volume(queue, quote.order_id);
    let cancelled = cancel_at(placed, price, quote.order_id);
    lemma_rank_by_prices(placed, cancelled, price.0 as int);
    assert(queue.drop_last() =~= before);
    assert(volume_of(Seq::<Quote>::empty()) == 0);
}

/// Placing a quote leaves the volume at every other price as it was.
pub proof fn lemma_place_elsewhere(
    levels: Seq<LevelView>,
    price: Price,
    quote: Quote,
    other: Price,
)
    requires
        ascending(levels),
        other != price,
    ensures
        volume_at(place(levels, price, quote), other) == volume_at(levels, other),
        has_level(place(levels, price, quote), other) == has_level(levels, other),
{
    let placed = place(levels, price, quote);
    let at = rank(levels, price.0 as int);
    let was = rank(levels, other.0 as int);
    lemma_rank_parts(levels, price.0 as int);
    lemma_rank_parts(levels, other.0 as int);
    lemma_place(levels, price, quote);
    if has_level(levels, price) {
        lemma_rank_by_prices(levels, placed, other.0 as int);
        if was < levels.len() && was != at {
            assert(placed[was] == levels[was]);
        }
    } else {
        let now = if price.0 < other.0 {
            was + 1
        } else {
            was
        };
        assert(price.0 < other.0 ==> at <= was) by {
            if price.0 < other.0 && at > was {
                assert(levels[was].price.0 >= other.0);
                assert(levels[was].price.0 < price.0);
            }
        }
        assert(price.0 > other.0 ==> was <= at) by {
            if price.0 > other.0 && was > at {
                assert(levels[at].price.0 >= price.0);
                assert(levels[at].price.0 < other.0);
            }
        }
        assert forall|i: int| 0 <= i < now implies (#[trigger] placed[i]).price.0 < other.0 by {
            if i < at {
                assert(placed[i] == levels[i]);
            } else if i > at {
                assert(placed[i] == levels[i - 1]);
            }
        }
        assert forall|i: int| now <= i < placed.len() implies (#[trigger] placed[i]).price.0
            >= other.0 by {
            if i < at {
                assert(placed[i] == levels[i]);
            } else if i > at {
                assert(placed[i] == levels[i - 1]);
            }
        }
        lemma_rank_is(placed, other.0 as int, now);
        if now < placed.len() && now != at {
            if now < at {
                assert(placed[now] == levels[now]);
            } else {
                assert(placed[now] == levels[now - 1]);
            }
        }
    }
}

/// Levels without volume add up to no volume.
pub proof fn lemma_volume_between_empty(levels: Seq<LevelView>, lo: int, hi: int)
    requires
        forall|k: int| lo <= k < hi && 0 <= k < levels.len() ==> (#[trigger] levels[k]).volume() == 0,
    ensures
        volume_between(levels, lo, hi) == 0,
    decreases hi - lo,
{
    if !(lo < 0 || hi > levels.len() || lo >= hi) {
        lemma_volume_between_empty(levels, lo + 1, hi);
    }
}

impl BookView {
    /// A market buy that runs out of asks leaves no volume on the ask side
    /// and sets the best ask to "no ask".
    pub proof fn lemma_asks_exhausted(self, taker: OrderId, target_vol: Volume, balance: Balance)
        requires
            self.wf(),
            self.market_buy(taker, target_vol, balance).outcome is MarketVolumeExhausted,
        ensures
            self.market_buy(taker, target_vol, balance).book.best_ask == Price(u64::MAX),
            self.market_buy(taker, target_vol, balance).book.ask_volume() == 0,
    {
        let target = OrderTarget::MarketBuy { available_quote_balance: balance };
        let after = self.market_buy(taker, target_vol, balance).book;
        lemma_rank_parts(self.levels, self.best_ask.0 as int);
        lemma_walk_frame(self.levels, self.ask_cursor(), taker, target_vol, target, target_vol.0 as int);
        lemma_rank_by_prices(after.levels, self.levels, u64::MAX as int);
        lemma_rank_parts(self.levels, u64::MAX as int);
        assert(after.ask_cursor() >= self.ask_cursor()) by {
            if after.ask_cursor() < self.ask_cursor() {
                assert(self.levels[after.ask_cursor()].price.0 >= u64::MAX);
                assert(self.levels[after.ask_cursor()].price.0 < self.best_ask.0);
            }
        }
        assert forall|k: int|
            after.ask_cursor() <= k < after.levels.len() implies (
        #[trigger] after.levels[k]).volume() == 0 by {
            assert(after.levels[k].quotes == Seq::<Quote>::empty());
        }
        lemma_volume_between_empty(after.levels, after.ask_cursor(), after.levels.len() as int);
    }

    /// A market sell that runs out of bids leaves no volume on the bid side
    /// and sets the best bid to "no bid".
    pub proof fn lemma_bids_exhausted(self, taker: OrderId, target_vol: Volume)
        requires
            self.wf(),
            self.market_sell(taker, target_vol).outcome is MarketVolumeExhausted,
        ensures
            self.market_sell(taker, target_vol).book.best_bid == Price(u64::MIN),
            self.market_sell(taker, target_vol).book.bid_volume() == 0,
    {
        let after = self.market_sell(taker, target_vol).book;
        lemma_rank_parts(self.levels, self.best_bid.0 + 1);
        lemma_walk_frame(
            self.levels,
            self.bid_cursor(),
            taker,
            target_vol,
            OrderTarget::MarketSell,
            target_vol.0 as int,
        );
        lemma_rank_by_prices(after.levels, self.levels, 1);
        lemma_rank_parts(self.levels, 1);
        assert(after.bid_cursor() <= self.bid_cursor()) by {
            if after.bid_cursor() > self.bid_cursor() {
                assert(self.levels[self.bid_cursor()].price.0 < 1);
                assert(self.levels[self.bid_cursor()].price.0 >= self.best_bid.0 + 1);
            }
        }
        assert forall|k: int| 0 <= k < after.bid_cursor() implies (
        #[trigger] after.levels[k]).volume() == 0 by {
            assert(after.levels[k].quotes == Seq::<Quote>::empty());
        }
        lemma_volume_between_empty(after.levels, 0, after.bid_cursor());
    }
}

} // verus!
