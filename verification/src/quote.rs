//! Resting quotes, trade records, and the arithmetic of one price level's
//! queue.
//!
//! A level keeps its quotes in arrival order. A cancelled or fully consumed
//! quote is not taken out of the queue at once: it is overwritten by a
//! tombstone, and tombstones are dropped together later. The functions here
//! say, over plain sequences, what such a queue holds and what taking volume
//! from its head does to it.

use vstd::prelude::*;

use crate::newtypes::{OrderId, Price, Volume};

verus! {

/// A resting share of a price level: who placed it and how much of it is left.
#[derive(Clone, Copy, Debug, PartialEq, Eq, Structural)]
pub struct Quote {
    pub order_id: OrderId,
    pub volume: Volume,
}

impl Quote {
    pub fn new(order_id: OrderId, volume: Volume) -> (q: Quote)
        ensures
            q == (Quote { order_id, volume }),
    {
        Quote { order_id, volume }
    }

    /// The entry that stands in the queue for a deleted quote.
    pub open spec fn spec_tombstone() -> Quote {
        Quote { order_id: OrderId(u64::MAX), volume: Volume(u64::MAX) }
    }

    #[verifier::when_used_as_spec(spec_tombstone)]
    pub fn tombstone() -> (q: Quote)
        ensures
            q == Quote::spec_tombstone(),
    {
        Quote { order_id: OrderId(u64::MAX), volume: Volume(u64::MAX) }
    }

    /// A quote is live unless it carries the reserved identifier.
    pub open spec fn is_live(self) -> bool {
        self.order_id.0 != u64::MAX
    }

    pub fn is_tombstone(&self) -> (b: bool)
        ensures
            b == !self.is_live(),
    {
        self.order_id.0 == u64::MAX
    }

    /// What the quote adds to its level's volume: nothing once deleted.
    pub open spec fn live_volume(self) -> nat {
        if self.is_live() {
            self.volume.0 as nat
        } else {
            0
        }
    }

    /// The same quote with `amount` taken off its volume.
    pub open spec fn reduced_by(self, amount: int) -> Quote {
        Quote { order_id: self.order_id, volume: Volume((self.volume.0 - amount) as u64) }
    }
}

/// Which of the two sides of a trade it completed.
#[derive(Clone, Copy, Debug, PartialEq, Eq, Structural)]
pub enum MatchType {
    MakerFilled,
    TakerFilled,
    BothFilled,
}

/// One trade between a resting quote (the maker) and an incoming order (the
/// taker), at the maker's price.
#[derive(Clone, Copy, Debug, PartialEq, Eq, Structural)]
pub struct Match {
    pub maker_order_id: OrderId,
    pub taker_order_id: OrderId,
    pub price: Price,
    pub volume: Volume,
    pub typ: MatchType,
}

impl Match {
    pub fn new(
        maker_order_id: OrderId,
        taker_order_id: OrderId,
        price: Price,
        volume: Volume,
        typ: MatchType,
    ) -> (m: Match)
        ensures
            m == (Match { maker_order_id, taker_order_id, price, volume, typ }),
    {
        Match { maker_order_id, taker_order_id, price, volume, typ }
    }
}

/// The live quotes of a queue, in arrival order.
pub open spec fn live(quotes: Seq<Quote>) -> Seq<Quote> {
    quotes.filter(|q: Quote| q.is_live())
}

/// The sum of the volumes of the live quotes of a queue.
pub open spec fn volume_of(quotes: Seq<Quote>) -> nat
    decreases quotes.len(),
{
    if quotes.len() == 0 {
        0
    } else {
        volume_of(quotes.drop_last()) + quotes.last().live_volume()
    }
}

/// The number of tombstones in a queue.
pub open spec fn tombstones_in(quotes: Seq<Quote>) -> nat
    decreases quotes.len(),
{
    if quotes.len() == 0 {
        0
    } else {
        tombstones_in(quotes.drop_last()) + if quotes.last().is_live() {
            0nat
        } else {
            1nat
        }
    }
}

/// The sum of the volumes of a sequence of trades.
pub open spec fn matched_volume(matches: Seq<Match>) -> nat
    decreases matches.len(),
{
    if matches.len() == 0 {
        0
    } else {
        matched_volume(matches.drop_last()) + matches.last().volume.0 as nat
    }
}

/// The index of the first live quote placed by `order_id`, or the length of
/// the queue where there is none.
pub open spec fn find_live(quotes: Seq<Quote>, order_id: OrderId) -> int
    decreases quotes.len(),
{
    if quotes.len() == 0 {
        0
    } else if quotes.first().is_live() && quotes.first().order_id == order_id {
        0
    } else {
        1 + find_live(quotes.drop_first(), order_id)
    }
}

/// The trades made when a taker with `rem` units still to fill consumes a
/// whole queue, `rem` being at least the queue's volume. Every live quote
/// trades its full volume, in arrival order; a trade after which the taker
/// has nothing left to fill completes both sides.
pub open spec fn sweep_matches(quotes: Seq<Quote>, taker: OrderId, price: Price, rem: int) -> Seq<
    Match,
>
    decreases quotes.len(),
{
    if quotes.len() == 0 {
        Seq::empty()
    } else {
        let q = quotes.first();
        let rest = quotes.drop_first();
        if !q.is_live() {
            sweep_matches(rest, taker, price, rem)
        } else {
            let typ = if rem == q.volume.0 {
                MatchType::BothFilled
            } else {
                MatchType::MakerFilled
            };
            seq![
                Match {
                    maker_order_id: q.order_id,
                    taker_order_id: taker,
                    price,
                    volume: q.volume,
                    typ,
                },
            ] + sweep_matches(rest, taker, price, rem - q.volume.0)
        }
    }
}

/// The trades made when a taker with `rem` units still to fill stops inside
/// a queue, `rem` being positive and less than the queue's volume. Live
/// quotes trade their full volume in arrival order until one holds at least
/// what is left; that one trades what is left, and the taker is done.
pub open spec fn fill_matches(quotes: Seq<Quote>, taker: OrderId, price: Price, rem: int) -> Seq<
    Match,
>
    decreases quotes.len(),
{
    if quotes.len() == 0 {
        Seq::empty()
    } else {
        let q = quotes.first();
        let rest = quotes.drop_first();
        if !q.is_live() {
            fill_matches(rest, taker, price, rem)
        } else if rem < q.volume.0 {
            seq![
                Match {
                    maker_order_id: q.order_id,
                    taker_order_id: taker,
                    price,
                    volume: Volume(rem as u64),
                    typ: MatchType::TakerFilled,
                },
            ]
        } else if rem == q.volume.0 {
            seq![
                Match {
                    maker_order_id: q.order_id,
                    taker_order_id: taker,
                    price,
                    volume: q.volume,
                    typ: MatchType::BothFilled,
                },
            ]
        } else {
            seq![
                Match {
                    maker_order_id: q.order_id,
                    taker_order_id: taker,
                    price,
                    volume: q.volume,
                    typ: MatchType::MakerFilled,
                },
            ] + fill_matches(rest, taker, price, rem - q.volume.0)
        }
    }
}

/// The queue left behind by the trades of [`fill_matches`], before any
/// compaction: consumed quotes have become tombstones, and the quote at
/// which the taker stopped has lost what was taken from it.
pub open spec fn fill_quotes(quotes: Seq<Quote>, rem: int) -> Seq<Quote>
    decreases quotes.len(),
{
    if quotes.len() == 0 {
        quotes
    } else {
        let q = quotes.first();
        let rest = quotes.drop_first();
        if !q.is_live() {
            seq![q] + fill_quotes(rest, rem)
        } else if rem < q.volume.0 {
            seq![q.reduced_by(rem)] + rest
        } else if rem == q.volume.0 {
            seq![Quote::tombstone()] + rest
        } else {
            seq![Quote::tombstone()] + fill_quotes(rest, rem - q.volume.0)
        }
    }
}

/// The order identifiers of the live quotes of a queue, in arrival order.
pub open spec fn live_ids(quotes: Seq<Quote>) -> Seq<OrderId> {
    live(quotes).map_values(|q: Quote| q.order_id)
}

/// The makers of a sequence of trades, in the order of the trades.
pub open spec fn makers(matches: Seq<Match>) -> Seq<OrderId> {
    matches.map_values(|m: Match| m.maker_order_id)
}

pub proof fn lemma_volume_concat(a: Seq<Quote>, b: Seq<Quote>)
    ensures
        volume_of(a + b) == volume_of(a) + volume_of(b),
    decreases b.len(),
{
    if b.len() == 0 {
        assert(a + b =~= a);
    } else {
        assert((a + b).drop_last() =~= a + b.drop_last());
        lemma_volume_concat(a, b.drop_last());
    }
}

pub proof fn lemma_tombstones_concat(a: Seq<Quote>, b: Seq<Quote>)
    ensures
        tombstones_in(a + b) == tombstones_in(a) + tombstones_in(b),
    decreases b.len(),
{
    if b.len() == 0 {
        assert(a + b =~= a);
    } else {
        assert((a + b).drop_last() =~= a + b.drop_last());
        lemma_tombstones_concat(a, b.drop_last());
    }
}

pub proof fn lemma_matched_volume_concat(a: Seq<Match>, b: Seq<Match>)
    ensures
        matched_volume(a + b) == matched_volume(a) + matched_volume(b),
    decreases b.len(),
{
    if b.len() == 0 {
        assert(a + b =~= a);
    } else {
        assert((a + b).drop_last() =~= a + b.drop_last());
        lemma_matched_volume_concat(a, b.drop_last());
    }
}

pub proof fn lemma_volume_single(q: Quote)
    ensures
        volume_of(seq![q]) == q.live_volume(),
        tombstones_in(seq![q]) == if q.is_live() {
            0nat
        } else {
            1nat
        },
{
    assert(seq![q].drop_last() =~= Seq::<Quote>::empty());
    assert(volume_of(seq![q].drop_last()) == 0);
    assert(tombstones_in(seq![q].drop_last()) == 0);
}

pub proof fn lemma_matched_volume_single(m: Match)
    ensures
        matched_volume(seq![m]) == m.volume.0,
{
    assert(seq![m].drop_last() =~= Seq::<Match>::empty());
    assert(matched_volume(seq![m].drop_last()) == 0);
}

/// Splitting a queue at its head splits its volume and its tombstones.
pub proof fn lemma_volume_head(quotes: Seq<Quote>)
    requires
        quotes.len() > 0,
    ensures
        volume_of(quotes) == quotes.first().live_volume() + volume_of(quotes.drop_first()),
        tombstones_in(quotes) == tombstones_in(quotes.drop_first()) + if quotes.first().is_live() {
            0nat
        } else {
            1nat
        },
{
    assert(quotes =~= seq![quotes.first()] + quotes.drop_first());
    lemma_volume_concat(seq![quotes.first()], quotes.drop_first());
    lemma_tombstones_concat(seq![quotes.first()], quotes.drop_first());
    lemma_volume_single(quotes.first());
}

/// Overwriting one entry of a queue changes its volume and its tombstones by
/// the difference between the two entries.
pub proof fn lemma_volume_update(quotes: Seq<Quote>, at: int, q: Quote)
    requires
        0 <= at < quotes.len(),
    ensures
        volume_of(quotes.update(at, q)) + quotes[at].live_volume() == volume_of(quotes)
            + q.live_volume(),
        tombstones_in(quotes.update(at, q)) + (if quotes[at].is_live() {
            0nat
        } else {
            1nat
        }) == tombstones_in(quotes) + (if q.is_live() {
            0nat
        } else {
            1nat
        }),
{
    let head = quotes.take(at);
    let tail = quotes.skip(at + 1);
    assert(quotes =~= head + seq![quotes[at]] + tail);
    assert(quotes.update(at, q) =~= head + seq![q] + tail);
    lemma_volume_concat(head + seq![quotes[at]], tail);
    lemma_volume_concat(head, seq![quotes[at]]);
    lemma_volume_concat(head + seq![q], tail);
    lemma_volume_concat(head, seq![q]);
    lemma_tombstones_concat(head + seq![quotes[at]], tail);
    lemma_tombstones_concat(head, seq![quotes[at]]);
    lemma_tombstones_concat(head + seq![q], tail);
    lemma_tombstones_concat(head, seq![q]);
    lemma_volume_single(quotes[at]);
    lemma_volume_single(q);
}

/// The tombstones of a queue are never more than its entries.
pub proof fn lemma_tombstones_bound(quotes: Seq<Quote>)
    ensures
        tombstones_in(quotes) <= quotes.len(),
    decreases quotes.len(),
{
    if quotes.len() > 0 {
        lemma_tombstones_bound(quotes.drop_last());
    }
}

/// The live quotes of a queue extended by one entry.
pub proof fn lemma_live_push(quotes: Seq<Quote>, q: Quote)
    ensures
        live(quotes.push(q)) == if q.is_live() {
            live(quotes).push(q)
        } else {
            live(quotes)
        },
{
    reveal(Seq::filter);
    assert(quotes.push(q).drop_last() =~= quotes);
}

/// Dropping the tombstones of a queue keeps its volume and its live quotes,
/// and leaves no tombstone.
pub proof fn lemma_live_keeps(quotes: Seq<Quote>)
    ensures
        volume_of(live(quotes)) == volume_of(quotes),
        tombstones_in(live(quotes)) == 0,
        live(live(quotes)) == live(quotes),
        live(quotes).len() + tombstones_in(quotes) == quotes.len(),
    decreases quotes.len(),
{
    reveal(Seq::filter);
    if quotes.len() == 0 {
        assert(live(quotes) =~= Seq::<Quote>::empty());
    } else {
        let init = quotes.drop_last();
        let q = quotes.last();
        lemma_live_keeps(init);
        assert(quotes =~= init.push(q));
        lemma_live_push(init, q);
        if q.is_live() {
            lemma_live_push(live(init), q);
            assert(live(init).push(q).drop_last() =~= live(init));
        }
    }
}

} // verus!
