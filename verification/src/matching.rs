//! The matching walk: an incoming order meets the resting quotes of the
//! opposite side, best price first and, within a price, earliest quote first.
//!
//! A walk starts at a cursor between two levels of the ladder. A buy visits
//! the levels from the cursor upwards, a sell the levels below the cursor
//! downwards. [`walk`] says what a walk leaves behind; [`execute_market_txn`]
//! carries it out.

use vstd::prelude::*;

use crate::ladder::{Ladder, LevelView};
use crate::level::settled;
use crate::newtypes::{Balance, OrderId, Price, Volume};
use crate::quote::{fill_matches, fill_quotes, sweep_matches, Match, Quote};

verus! {

/// How an order ended.
#[derive(Clone, Copy, Debug, PartialEq, Eq, Structural)]
pub enum TxnOutcome {
    /// The whole target volume traded. The walk ended at the level priced
    /// `new_best_price`.
    Filled { new_best_price: Price },
    /// A limit order met a level priced beyond its limit after trading
    /// `volume_transacted`.
    PartiallyFilled { volume_transacted: Volume, new_best_price: Price },
    /// The side ran out of levels after `volume_transacted` had traded.
    MarketVolumeExhausted { volume_transacted: Volume },
    /// A market buy would have cost more than the buyer has; nothing traded.
    FailedInsufficientFunds,
}

impl TxnOutcome {
    /// The price at which a filled order ended.
    pub fn filled(self) -> (price: Price)
        requires
            self is Filled,
        ensures
            self == (TxnOutcome::Filled { new_best_price: price }),
    {
        match self {
            TxnOutcome::Filled { new_best_price } => new_best_price,
            _ => vstd::pervasive::unreached(),
        }
    }

    /// The price at which a partially filled order ended, and what it traded.
    pub fn partial(self) -> (r: (Price, Volume))
        requires
            self is PartiallyFilled,
        ensures
            self == (TxnOutcome::PartiallyFilled { volume_transacted: r.1, new_best_price: r.0 }),
    {
        match self {
            TxnOutcome::PartiallyFilled { volume_transacted, new_best_price } => (
                new_best_price,
                volume_transacted,
            ),
            _ => vstd::pervasive::unreached(),
        }
    }

    /// What an order traded before its side ran out.
    pub fn exhausted(self) -> (volume: Volume)
        requires
            self is MarketVolumeExhausted,
        ensures
            self == (TxnOutcome::MarketVolumeExhausted { volume_transacted: volume }),
    {
        match self {
            TxnOutcome::MarketVolumeExhausted { volume_transacted } => volume_transacted,
            _ => vstd::pervasive::unreached(),
        }
    }

    /// Accepts only an order that failed for want of funds.
    pub fn failed(self)
        requires
            self is FailedInsufficientFunds,
    {
        match self {
            TxnOutcome::FailedInsufficientFunds => {},
            _ => vstd::pervasive::unreached(),
        }
    }
}

/// What an incoming order asks for: its side, and its price limit if it has
/// one.
#[derive(Clone, Copy, Debug, PartialEq, Eq, Structural)]
pub enum OrderTarget {
    LimitBuy(Price),
    LimitSell(Price),
    MarketBuy { available_quote_balance: Balance },
    MarketSell,
}

impl OrderTarget {
    pub open spec fn spec_is_buy(self) -> bool {
        self is LimitBuy || self is MarketBuy
    }

    /// Whether the order buys, and so walks the asks upwards.
    #[verifier::when_used_as_spec(spec_is_buy)]
    pub fn is_buy(self) -> (b: bool)
        ensures
            b == self.spec_is_buy(),
    {
        match self {
            OrderTarget::LimitBuy(_) => true,
            OrderTarget::MarketBuy { .. } => true,
            _ => false,
        }
    }

    pub open spec fn spec_stops_at(self, price: Price) -> bool {
        match self {
            OrderTarget::LimitBuy(max_buy_price) => max_buy_price.0 < price.0,
            OrderTarget::LimitSell(min_sell_price) => min_sell_price.0 > price.0,
            _ => false,
        }
    }

    /// Whether `price` lies beyond the order's limit.
    #[verifier::when_used_as_spec(spec_stops_at)]
    pub fn stops_at(self, price: Price) -> (b: bool)
        ensures
            b == self.spec_stops_at(price),
    {
        match self {
            OrderTarget::LimitBuy(max_buy_price) => max_buy_price.0 < price.0,
            OrderTarget::LimitSell(min_sell_price) => min_sell_price.0 > price.0,
            _ => false,
        }
    }

    /// The index of the level that a walk visits from `cursor`.
    pub open spec fn level_at(self, cursor: int) -> int {
        if self.is_buy() {
            cursor
        } else {
            cursor - 1
        }
    }

    /// The cursor after the level at `cursor` has been visited.
    pub open spec fn step(self, cursor: int) -> int {
        if self.is_buy() {
            cursor + 1
        } else {
            cursor - 1
        }
    }
}

/// What a walk leaves behind.
pub struct Walk {
    /// The ladder after the walk.
    pub levels: Seq<LevelView>,
    /// The trades of the walk, in the order in which they were made.
    pub matches: Seq<Match>,
    /// How the order ended.
    pub outcome: TxnOutcome,
    /// The cursor at which the walk ended.
    pub stop: int,
}

/// The volume traded so far by an order for `target_vol` that has `rem` left
/// to fill.
pub open spec fn transacted(target_vol: Volume, rem: int) -> Volume {
    Volume((target_vol.0 - rem) as u64)
}

/// The walk of an order of `taker` for `target_vol`, of which `rem` is left
/// to fill, from `cursor` on.
///
/// At each level in turn: a level priced beyond the order's limit ends the
/// walk with the order partially filled; otherwise an order with nothing left
/// to fill ends it filled; otherwise an order with at least the level's
/// volume left consumes the level, which is left empty, and moves on;
/// otherwise the order takes what it has left from the head of the level's
/// queue and ends filled. Running out of levels ends the walk with the side
/// exhausted.
pub open spec fn walk(
    levels: Seq<LevelView>,
    cursor: int,
    taker: OrderId,
    target_vol: Volume,
    target: OrderTarget,
    rem: int,
) -> Walk
    decreases
            (if target.is_buy() {
                levels.len() - cursor
            } else {
                cursor
            }),
{
    let at = target.level_at(cursor);
    if at < 0 || at >= levels.len() {
        Walk {
            levels,
            matches: Seq::empty(),
            outcome: TxnOutcome::MarketVolumeExhausted {
                volume_transacted: transacted(target_vol, rem),
            },
            stop: cursor,
        }
    } else if target.stops_at(levels[at].price) {
        Walk {
            levels,
            matches: Seq::empty(),
            outcome: TxnOutcome::PartiallyFilled {
                volume_transacted: transacted(target_vol, rem),
                new_best_price: levels[at].price,
            },
            stop: cursor,
        }
    } else if rem == 0 {
        Walk {
            levels,
            matches: Seq::empty(),
            outcome: TxnOutcome::Filled { new_best_price: levels[at].price },
            stop: cursor,
        }
    } else if rem >= levels[at].volume() {
        let rest = walk(
            levels.update(at, levels[at].with_quotes(Seq::empty())),
            target.step(cursor),
            taker,
            target_vol,
            target,
            rem - levels[at].volume(),
        );
        Walk {
            levels: rest.levels,
            matches: sweep_matches(levels[at].quotes, taker, levels[at].price, rem) + rest.matches,
            outcome: rest.outcome,
            stop: rest.stop,
        }
    } else {
        Walk {
            levels: levels.update(
                at,
                levels[at].with_quotes(settled(fill_quotes(levels[at].quotes, rem))),
            ),
            matches: fill_matches(levels[at].quotes, taker, levels[at].price, rem),
            outcome: TxnOutcome::Filled { new_best_price: levels[at].price },
            stop: cursor,
        }
    }
}

/// Walks the ladder for an order of `order_id` for `target_vol`, from
/// `cursor` on, and appends the trades to `matches`.
pub fn execute_market_txn(
    ladder: &mut Ladder,
    cursor: usize,
    order_id: OrderId,
    target_vol: Volume,
    target: OrderTarget,
    matches: &mut Vec<Match>,
) -> (outcome: TxnOutcome)
    requires
        old(ladder).wf(),
        cursor <= old(ladder)@.len(),
    ensures
        final(ladder).wf(),
        ({
            let w = walk(
                old(ladder)@,
                cursor as int,
                order_id,
                target_vol,
                target,
                target_vol.0 as int,
            );
            &&& outcome == w.outcome
            &&& final(ladder)@ == w.levels
            &&& final(matches)@ == old(matches)@ + w.matches
        }),
{
    let buy = target.is_buy();
    let n = ladder.len();
    let mut at_cursor: usize = cursor;
    let mut rem: u64 = target_vol.0;
    let ghost goal = walk(
        old(ladder)@,
        cursor as int,
        order_id,
        target_vol,
        target,
        target_vol.0 as int,
    );
    proof {
        assert(matches@ + goal.matches =~= old(matches)@ + goal.matches);
    }
    loop
        invariant
            ladder.wf(),
            ladder@.len() == n,
            at_cursor <= n,
            rem <= target_vol.0,
            buy == target.is_buy(),
            goal == walk(
                old(ladder)@,
                cursor as int,
                order_id,
                target_vol,
                target,
                target_vol.0 as int,
            ),
            goal.outcome == walk(
                ladder@,
                at_cursor as int,
                order_id,
                target_vol,
                target,
                rem as int,
            ).outcome,
            goal.levels == walk(
                ladder@,
                at_cursor as int,
                order_id,
                target_vol,
                target,
                rem as int,
            ).levels,
            old(matches)@ + goal.matches == matches@ + walk(
                ladder@,
                at_cursor as int,
                order_id,
                target_vol,
                target,
                rem as int,
            ).matches,
        decreases
                (if buy {
                    n - at_cursor
                } else {
                    at_cursor as int
                }),
    {
        let ghost here = ladder@;
        let ghost recorded = matches@;
        if (buy && at_cursor >= n) || (!buy && at_cursor == 0) {
            proof {
                assert(matches@ + Seq::<Match>::empty() =~= matches@);
            }
            return TxnOutcome::MarketVolumeExhausted {
                volume_transacted: Volume(target_vol.0 - rem),
            };
        }
        let at: usize = if buy {
            at_cursor
        } else {
            at_cursor - 1
        };
        let price = ladder.price_at(at);
        if target.stops_at(price) {
            proof {
                assert(matches@ + Seq::<Match>::empty() =~= matches@);
            }
            return TxnOutcome::PartiallyFilled {
                volume_transacted: Volume(target_vol.0 - rem),
                new_best_price: price,
            };
        }
        if rem == 0 {
            proof {
                assert(matches@ + Seq::<Match>::empty() =~= matches@);
            }
            return TxnOutcome::Filled { new_best_price: price };
        }
        let level_volume = ladder.total_volume_at(at);
        proof {
            ladder.lemma_records(at as int);
        }
        if rem >= level_volume.0 {
            ladder.sweep_at(at, order_id, Volume(rem), matches);
            rem = rem - level_volume.0;
            at_cursor = if buy {
                at_cursor + 1
            } else {
                at_cursor - 1
            };
            proof {
                let swept = sweep_matches(here[at as int].quotes, order_id, price, rem + level_volume.0);
                let rest = walk(ladder@, at_cursor as int, order_id, target_vol, target, rem as int);
                assert(recorded + (swept + rest.matches) =~= (recorded + swept) + rest.matches);
            }
        } else {
            ladder.fill_at(at, order_id, Volume(rem), matches);
            return TxnOutcome::Filled { new_best_price: price };
        }
    }
}

/// What a walk touches. The ladder keeps its levels and their prices. The
/// levels between the cursor at the start and the cursor at the end are left
/// empty, and each was priced within the order's limit; the level at which
/// the walk ended may have lost volume; all others are as they were. An
/// exhausted walk ended beyond the last level of its side; any other ended at
/// the level whose price its outcome names.
pub proof fn lemma_walk_frame(
    levels: Seq<LevelView>,
    cursor: int,
    taker: OrderId,
    target_vol: Volume,
    target: OrderTarget,
    rem: int,
)
    requires
        0 <= cursor <= levels.len(),
    ensures
        ({
            let w = walk(levels, cursor, taker, target_vol, target, rem);
            let last = target.level_at(w.stop);
            &&& w.levels.len() == levels.len()
            &&& 0 <= w.stop <= levels.len()
            &&& forall|k: int|
                0 <= k < levels.len() ==> (#[trigger] w.levels[k]).price == levels[k].price
            &&& if target.is_buy() {
                &&& cursor <= w.stop
                &&& forall|k: int|
                    cursor <= k < w.stop ==> (#[trigger] w.levels[k]).quotes == Seq::<
                        Quote,
                    >::empty() && !target.stops_at(levels[k].price)
                &&& forall|k: int|
                    0 <= k < levels.len() && (k < cursor || k > w.stop) ==> #[trigger] w.levels[k]
                        == levels[k]
            } else {
                &&& w.stop <= cursor
                &&& forall|k: int|
                    w.stop <= k < cursor ==> (#[trigger] w.levels[k]).quotes == Seq::<
                        Quote,
                    >::empty() && !target.stops_at(levels[k].price)
                &&& forall|k: int|
                    0 <= k < levels.len() && (k >= cursor || k < w.stop - 1)
                        ==> #[trigger] w.levels[k] == levels[k]
            }
            &&& match w.outcome {
                TxnOutcome::MarketVolumeExhausted { .. } => last < 0 || last >= levels.len(),
                TxnOutcome::Filled { new_best_price } => 0 <= last < levels.len() && new_best_price
                    == levels[last].price,
                TxnOutcome::PartiallyFilled { new_best_price, .. } => 0 <= last < levels.len()
                    && new_best_price == levels[last].price && target.stops_at(new_best_price),
                TxnOutcome::FailedInsufficientFunds => false,
            }
        }),
    decreases
            (if target.is_buy() {
                levels.len() - cursor
            } else {
                cursor
            }),
{
    let at = target.level_at(cursor);
    let w = walk(levels, cursor, taker, target_vol, target, rem);
    if at < 0 || at >= levels.len() {
    } else if target.stops_at(levels[at].price) {
    } else if rem == 0 {
    } else if rem >= levels[at].volume() {
        let emptied = levels.update(at, levels[at].with_quotes(Seq::empty()));
        let next = target.step(cursor);
        lemma_walk_frame(emptied, next, taker, target_vol, target, rem - levels[at].volume());
        let rest = walk(emptied, next, taker, target_vol, target, rem - levels[at].volume());
        assert(w.levels == rest.levels);
        assert(w.stop == rest.stop);
        assert forall|k: int| 0 <= k < levels.len() implies (#[trigger] w.levels[k]).price
            == levels[k].price by {
            assert(rest.levels[k].price == emptied[k].price);
        }
        assert(rest.levels[at] == emptied[at]);
        if target.is_buy() {
            assert forall|k: int| cursor <= k < w.stop implies (#[trigger] w.levels[k]).quotes
                == Seq::<Quote>::empty() && !target.stops_at(levels[k].price) by {
                if k != at {
                    assert(emptied[k] == levels[k]);
                }
            }
            assert forall|k: int|
                0 <= k < levels.len() && (k < cursor || k > w.stop) implies #[trigger] w.levels[k]
                == levels[k] by {
                assert(rest.levels[k] == emptied[k]);
            }
        } else {
            assert forall|k: int| w.stop <= k < cursor implies (#[trigger] w.levels[k]).quotes
                == Seq::<Quote>::empty() && !target.stops_at(levels[k].price) by {
                if k != at {
                    assert(emptied[k] == levels[k]);
                }
            }
            assert forall|k: int|
                0 <= k < levels.len() && (k >= cursor || k < w.stop - 1)
                implies #[trigger] w.levels[k] == levels[k] by {
                assert(rest.levels[k] == emptied[k]);
            }
        }
        let last = target.level_at(w.stop);
        if 0 <= last < levels.len() {
            assert(emptied[last].price == levels[last].price);
        }
    } else {
    }
}


} // verus!
