//! A book of depths: for each price only the volume that rests there, with
//! no record of who placed it.
//!
//! Orders against this book do not produce trades. A buy or a sell takes
//! volume from the best level of the other side onwards and reports what it
//! could not take.

use vstd::prelude::*;

use crate::book_model::Outcome;
use crate::newtypes::{Price, Volume};

verus! {

/// The volume resting at one price.
#[derive(Clone, Copy, Debug, PartialEq, Eq, Structural)]
pub struct Depth {
    pub price: Price,
    pub volume: Volume,
}

/// A book of depths as contracts see it.
pub struct DepthView {
    pub best_bid: Price,
    pub best_ask: Price,
    pub levels: Seq<Depth>,
}

/// A book of depths after a quantity was offered to it, and what became of
/// the offer.
pub struct DepthPlacement {
    pub book: DepthView,
    pub outcome: Outcome,
}

/// A book of depths after an order took volume from it. The result is `Ok`
/// for an order that found all its volume, and `Err` with what was left to
/// find for one that ran out of levels.
pub struct DepthTaking {
    pub book: DepthView,
    pub result: Result<(), Volume>,
}

/// Prices rise strictly along the sequence.
pub open spec fn depths_ascending(levels: Seq<Depth>) -> bool {
    forall|i: int, j: int| 0 <= i < j < levels.len() ==> levels[i].price.0 < levels[j].price.0
}

/// The number of levels priced below `price`.
pub open spec fn depth_rank(levels: Seq<Depth>, price: int) -> int
    decreases levels.len(),
{
    if levels.len() == 0 {
        0
    } else {
        depth_rank(levels.drop_last(), price) + if levels.last().price.0 < price {
            1int
        } else {
            0int
        }
    }
}

/// Whether there is a level at `price`.
pub open spec fn has_depth(levels: Seq<Depth>, price: Price) -> bool {
    let at = depth_rank(levels, price.0 as int);
    at < levels.len() && levels[at].price == price
}

/// The volume resting at `price`: none where there is no such level.
pub open spec fn depth_at(levels: Seq<Depth>, price: Price) -> nat {
    if has_depth(levels, price) {
        levels[depth_rank(levels, price.0 as int)].volume.0 as nat
    } else {
        0
    }
}

/// The levels after `volume` has been added at `price`, on a new level where
/// there was none.
pub open spec fn deepen(levels: Seq<Depth>, price: Price, volume: Volume) -> Seq<Depth> {
    let at = depth_rank(levels, price.0 as int);
    if has_depth(levels, price) {
        levels.update(
            at,
            Depth { price, volume: Volume((levels[at].volume.0 + volume.0) as u64) },
        )
    } else {
        levels.insert(at, Depth { price, volume })
    }
}

/// What taking leaves behind.
pub struct Taken {
    /// The levels after the taking.
    pub levels: Seq<Depth>,
    /// The index of the level at which the order found its last volume, or
    /// nothing where the levels ran out first.
    pub stop: Option<int>,
    /// The volume that the order could not find.
    pub left: int,
}

/// Takes `volume` from the levels, from `cursor` upwards where `up` holds
/// and from below `cursor` downwards where it does not. A level that holds
/// less than is wanted is emptied and the next one is tried; the first level
/// that holds enough gives the rest.
pub open spec fn take(levels: Seq<Depth>, cursor: int, up: bool, volume: int) -> Taken
    decreases
            (if up {
                levels.len() - cursor
            } else {
                cursor
            }),
{
    let at = if up {
        cursor
    } else {
        cursor - 1
    };
    if at < 0 || at >= levels.len() {
        Taken { levels, stop: None, left: volume }
    } else if levels[at].volume.0 < volume {
        take(
            levels.update(at, Depth { price: levels[at].price, volume: Volume(0) }),
            if up {
                cursor + 1
            } else {
                cursor - 1
            },
            up,
            volume - levels[at].volume.0,
        )
    } else {
        Taken {
            levels: levels.update(
                at,
                Depth {
                    price: levels[at].price,
                    volume: Volume((levels[at].volume.0 - volume) as u64),
                },
            ),
            stop: Some(at),
            left: 0,
        }
    }
}

impl DepthView {
    /// Prices rise strictly along the levels, and the best bid lies below
    /// the best ask.
    pub open spec fn wf(self) -> bool {
        &&& depths_ascending(self.levels)
        &&& self.best_bid.0 < self.best_ask.0
    }

    /// Offers a bid. A bid at the best ask or above is turned away. Any other
    /// adds to the volume at its price, and becomes the best bid where it is
    /// priced above it.
    pub open spec fn add_bid(self, price: Price, volume: Volume) -> DepthPlacement {
        if self.best_ask.0 <= price.0 {
            DepthPlacement { book: self, outcome: Outcome::CrossedSpread }
        } else {
            let levels = deepen(self.levels, price, volume);
            if self.best_bid.0 < price.0 {
                DepthPlacement {
                    book: DepthView { best_bid: price, best_ask: self.best_ask, levels },
                    outcome: Outcome::PlacedNewBest,
                }
            } else {
                DepthPlacement {
                    book: DepthView { best_bid: self.best_bid, best_ask: self.best_ask, levels },
                    outcome: if depth_at(self.levels, price) != 0 {
                        Outcome::PlacedExisting
                    } else {
                        Outcome::PlacedNew
                    },
                }
            }
        }
    }

    /// Offers an ask. An ask at the best bid or below is turned away. Any
    /// other adds to the volume at its price, and becomes the best ask where
    /// it is priced below it.
    pub open spec fn add_ask(self, price: Price, volume: Volume) -> DepthPlacement {
        if self.best_bid.0 >= price.0 {
            DepthPlacement { book: self, outcome: Outcome::CrossedSpread }
        } else {
            let levels = deepen(self.levels, price, volume);
            if self.best_ask.0 > price.0 {
                DepthPlacement {
                    book: DepthView { best_bid: self.best_bid, best_ask: price, levels },
                    outcome: Outcome::PlacedNewBest,
                }
            } else {
                DepthPlacement {
                    book: DepthView { best_bid: self.best_bid, best_ask: self.best_ask, levels },
                    outcome: if depth_at(self.levels, price) != 0 {
                        Outcome::PlacedExisting
                    } else {
                        Outcome::PlacedNew
                    },
                }
            }
        }
    }

    /// Buys `volume` from the asks, cheapest first. Where the asks hold
    /// enough, the best ask becomes the price of the level that gave the
    /// last of it; where they do not, it stays, and what was left to buy is
    /// reported.
    pub open spec fn buy(self, volume: Volume) -> DepthTaking {
        let t = take(
            self.levels,
            depth_rank(self.levels, self.best_ask.0 as int),
            true,
            volume.0 as int,
        );
        match t.stop {
            Some(at) => DepthTaking {
                book: DepthView {
                    best_bid: self.best_bid,
                    best_ask: self.levels[at].price,
                    levels: t.levels,
                },
                result: Ok(()),
            },
            None => DepthTaking {
                book: DepthView {
                    best_bid: self.best_bid,
                    best_ask: self.best_ask,
                    levels: t.levels,
                },
                result: Err(Volume(t.left as u64)),
            },
        }
    }

    /// Sells `volume` to the bids, dearest first. Where the bids hold
    /// enough, the best bid becomes the price of the level that took the
    /// last of it; where they do not, it stays, and what was left to sell is
    /// reported.
    pub open spec fn sell(self, volume: Volume) -> DepthTaking {
        let t = take(self.levels, depth_rank(self.levels, self.best_bid.0 + 1), false, volume.0 as int);
        match t.stop {
            Some(at) => DepthTaking {
                book: DepthView {
                    best_bid: self.levels[at].price,
                    best_ask: self.best_ask,
                    levels: t.levels,
                },
                result: Ok(()),
            },
            None => DepthTaking {
                book: DepthView {
                    best_bid: self.best_bid,
                    best_ask: self.best_ask,
                    levels: t.levels,
                },
                result: Err(Volume(t.left as u64)),
            },
        }
    }
}

/// On ascending levels the rank of a price parts the levels below it from
/// the levels at or above it.
pub proof fn lemma_depth_rank_parts(levels: Seq<Depth>, price: int)
    requires
        depths_ascending(levels),
    ensures
        0 <= depth_rank(levels, price) <= levels.len(),
        forall|i: int| 0 <= i < depth_rank(levels, price) ==> (#[trigger] levels[i]).price.0 < price,
        forall|i: int|
            depth_rank(levels, price) <= i < levels.len() ==> (#[trigger] levels[i]).price.0
                >= price,
    decreases levels.len(),
{
    if levels.len() > 0 {
        let init = levels.drop_last();
        assert(depths_ascending(init)) by {
            assert forall|i: int, j: int| 0 <= i < j < init.len() implies init[i].price.0
                < init[j].price.0 by {
                assert(init[i] == levels[i] && init[j] == levels[j]);
            }
        }
        lemma_depth_rank_parts(init, price);
        assert forall|i: int| 0 <= i < depth_rank(levels, price) implies (
        #[trigger] levels[i]).price.0 < price by {
            if i < init.len() {
                assert(init[i] == levels[i]);
                if i >= depth_rank(init, price) {
                    assert(levels[i].price.0 < levels.last().price.0);
                }
            }
        }
        assert forall|i: int| depth_rank(levels, price) <= i < levels.len() implies (
        #[trigger] levels[i]).price.0 >= price by {
            if i < init.len() {
                assert(init[i] == levels[i]);
                if levels.last().price.0 < price {
                    assert(levels[i].price.0 < levels.last().price.0);
                }
            }
        }
    }
}

/// An index that parts the levels below a price from those at or above it is
/// the rank of that price.
pub proof fn lemma_depth_rank_is(levels: Seq<Depth>, price: int, at: int)
    requires
        0 <= at <= levels.len(),
        forall|i: int| 0 <= i < at ==> (#[trigger] levels[i]).price.0 < price,
        forall|i: int| at <= i < levels.len() ==> (#[trigger] levels[i]).price.0 >= price,
    ensures
        depth_rank(levels, price) == at,
    decreases levels.len(),
{
    if levels.len() > 0 {
        let init = levels.drop_last();
        assert forall|i: int| 0 <= i < init.len() implies init[i] == levels[i] by {}
        if at == levels.len() {
            assert(levels[at - 1].price.0 < price);
            lemma_depth_rank_is(init, price, at - 1);
        } else {
            assert(levels[levels.len() - 1].price.0 >= price);
            lemma_depth_rank_is(init, price, at);
        }
    }
}

/// Taking keeps the levels and their prices, leaves nothing to find where
/// it stopped at a level, and stops on the order's own side of the cursor.
pub proof fn lemma_take_frame(levels: Seq<Depth>, cursor: int, up: bool, volume: int)
    requires
        0 <= cursor <= levels.len(),
        0 <= volume <= u64::MAX,
    ensures
        ({
            let t = take(levels, cursor, up, volume);
            &&& t.levels.len() == levels.len()
            &&& forall|k: int|
                0 <= k < levels.len() ==> (#[trigger] t.levels[k]).price == levels[k].price
            &&& 0 <= t.left <= volume
            &&& match t.stop {
                Some(at) => 0 <= at < levels.len() && t.left == 0 && if up {
                    cursor <= at
                } else {
                    at < cursor
                },
                None => true,
            }
        }),
    decreases
            (if up {
                levels.len() - cursor
            } else {
                cursor
            }),
{
    let at = if up {
        cursor
    } else {
        cursor - 1
    };
    if 0 <= at < levels.len() && levels[at].volume.0 < volume {
        let emptied = levels.update(at, Depth { price: levels[at].price, volume: Volume(0) });
        let next = if up {
            cursor + 1
        } else {
            cursor - 1
        };
        lemma_take_frame(emptied, next, up, volume - levels[at].volume.0);
        let t = take(levels, cursor, up, volume);
        assert forall|k: int| 0 <= k < levels.len() implies (#[trigger] t.levels[k]).price
            == levels[k].price by {
            assert(emptied[k].price == levels[k].price);
        }
    }
}

/// A book that keeps, for each price, only the volume resting there.
#[derive(Debug)]
pub struct DepthBook {
    best_ask: Price,
    best_bid: Price,
    levels: Vec<Depth>,
}

impl View for DepthBook {
    type V = DepthView;

    closed spec fn view(&self) -> DepthView {
        DepthView { best_bid: self.best_bid, best_ask: self.best_ask, levels: self.levels@ }
    }
}

impl DepthBook {
    /// The book's invariant.
    pub open spec fn wf(&self) -> bool {
        self@.wf()
    }

    /// An empty book: no level, no bid, no ask.
    pub fn new() -> (book: DepthBook)
        ensures
            book.wf(),
            book@ == (DepthView {
                best_bid: Price(u64::MIN),
                best_ask: Price(u64::MAX),
                levels: Seq::empty(),
            }),
    {
        DepthBook { best_ask: Price(u64::MAX), best_bid: Price(u64::MIN), levels: Vec::new() }
    }

    /// The index of the first level priced at `price` or above, found by
    /// bisection.
    fn rank(&self, price: Price) -> (at: usize)
        requires
            self.wf(),
        ensures
            at == depth_rank(self@.levels, price.0 as int),
            at <= self@.levels.len(),
    {
        let mut lo: usize = 0;
        let mut hi: usize = self.levels.len();
        while lo < hi
            invariant
                lo <= hi <= self.levels@.len(),
                depths_ascending(self.levels@),
                forall|i: int| 0 <= i < lo ==> (#[trigger] self.levels@[i]).price.0 < price.0,
                forall|i: int|
                    hi <= i < self.levels@.len() ==> (#[trigger] self.levels@[i]).price.0
                        >= price.0,
            decreases hi - lo,
        {
            let mid = lo + (hi - lo) / 2;
            if self.levels[mid].price.0 < price.0 {
                lo = mid + 1;
            } else {
                hi = mid;
            }
        }
        proof {
            lemma_depth_rank_is(self.levels@, price.0 as int, lo as int);
        }
        lo
    }

    /// The volume resting at `price`.
    pub fn volume_at(&self, price: Price) -> (volume: Volume)
        requires
            self.wf(),
        ensures
            volume.0 == depth_at(self@.levels, price),
    {
        let at = self.rank(price);
        if at < self.levels.len() && self.levels[at].price.0 == price.0 {
            self.levels[at].volume
        } else {
            Volume(0)
        }
    }

    /// Adds `volume` at `price`, on a new level where there is none. Says
    /// whether there was volume at that price before.
    fn deepen(&mut self, price: Price, volume: Volume) -> (had_volume: bool)
        requires
            old(self).wf(),
            depth_at(old(self)@.levels, price) + volume.0 <= u64::MAX,
        ensures
            final(self)@.levels == deepen(old(self)@.levels, price, volume),
            final(self)@.best_bid == old(self)@.best_bid,
            final(self)@.best_ask == old(self)@.best_ask,
            depths_ascending(final(self)@.levels),
            had_volume == (depth_at(old(self)@.levels, price) != 0),
    {
        let at = self.rank(price);
        let ghost before = self.levels@;
        proof {
            lemma_depth_rank_parts(before, price.0 as int);
        }
        if at < self.levels.len() && self.levels[at].price.0 == price.0 {
            let had = self.levels[at].volume.0;
            self.levels[at] = Depth { price, volume: Volume(had + volume.0) };
            proof {
                let after = self.levels@;
                assert forall|i: int, j: int| 0 <= i < j < after.len() implies after[i].price.0
                    < after[j].price.0 by {
                    assert(after[i].price == before[i].price);
                    assert(after[j].price == before[j].price);
                }
            }
            had != 0
        } else {
            self.levels.insert(at, Depth { price, volume });
            proof {
                let after = self.levels@;
                assert forall|i: int, j: int| 0 <= i < j < after.len() implies after[i].price.0
                    < after[j].price.0 by {
                    let oi = if i < at {
                        i
                    } else {
                        i - 1
                    };
                    let oj = if j < at {
                        j
                    } else {
                        j - 1
                    };
                    if i != at {
                        assert(after[i] == before[oi]);
                    }
                    if j != at {
                        assert(after[j] == before[oj]);
                    }
                }
            }
            false
        }
    }

    /// Offers `volume` as a bid at `price`.
    pub fn add_bid(&mut self, price: Price, volume: Volume) -> (outcome: Outcome)
        requires
            old(self).wf(),
            price.0 < old(self)@.best_ask.0 ==> depth_at(old(self)@.levels, price) + volume.0
                <= u64::MAX,
        ensures
            final(self).wf(),
            final(self)@ == old(self)@.add_bid(price, volume).book,
            outcome == old(self)@.add_bid(price, volume).outcome,
    {
        if self.best_ask.0 <= price.0 {
            return Outcome::CrossedSpread;
        }
        let did_update = self.deepen(price, volume);
        if self.best_bid.0 < price.0 {
            self.best_bid = price;
            return Outcome::PlacedNewBest;
        }
        if did_update {
            Outcome::PlacedExisting
        } else {
            Outcome::PlacedNew
        }
    }

    /// Offers `volume` as an ask at `price`.
    pub fn add_ask(&mut self, price: Price, volume: Volume) -> (outcome: Outcome)
        requires
            old(self).wf(),
            price.0 > old(self)@.best_bid.0 ==> depth_at(old(self)@.levels, price) + volume.0
                <= u64::MAX,
        ensures
            final(self).wf(),
            final(self)@ == old(self)@.add_ask(price, volume).book,
            outcome == old(self)@.add_ask(price, volume).outcome,
    {
        if self.best_bid.0 >= price.0 {
            return Outcome::CrossedSpread;
        }
        let did_update = self.deepen(price, volume);
        if self.best_ask.0 > price.0 {
            self.best_ask = price;
            return Outcome::PlacedNewBest;
        }
        if did_update {
            Outcome::PlacedExisting
        } else {
            Outcome::PlacedNew
        }
    }

    /// Buys `volume` from the asks, cheapest first.
    pub fn execute_buy_best_price(&mut self, volume: Volume) -> (result: Result<(), Volume>)
        requires
            old(self).wf(),
        ensures
            final(self).wf(),
            final(self)@ == old(self)@.buy(volume).book,
            result == old(self)@.buy(volume).result,
    {
        let n = self.levels.len();
        let cursor = self.rank(self.best_ask);
        let ghost before = self.levels@;
        let ghost goal = take(before, cursor as int, true, volume.0 as int);
        let mut at: usize = cursor;
        let mut left: u64 = volume.0;
        proof {
            lemma_depth_rank_parts(before, self.best_ask.0 as int);
            lemma_take_frame(before, cursor as int, true, volume.0 as int);
        }
        while at < n
            invariant
                n == self.levels@.len(),
                n == before.len(),
                cursor <= at <= n,
                self.best_ask == old(self).best_ask,
                self.best_bid == old(self).best_bid,
                old(self).wf(),
                before == old(self)@.levels,
                cursor == depth_rank(before, old(self).best_ask.0 as int),
                goal == take(before, cursor as int, true, volume.0 as int),
                goal == take(self.levels@, at as int, true, left as int),
                forall|k: int|
                    0 <= k < n ==> (#[trigger] self.levels@[k]).price == before[k].price,
                forall|i: int| cursor <= i < n ==> (#[trigger] before[i]).price.0
                    >= old(self).best_ask.0,
            decreases n - at,
        {
            let here = self.levels[at];
            if here.volume.0 < left {
                left = left - here.volume.0;
                self.levels[at] = Depth { price: here.price, volume: Volume(0) };
            } else {
                self.levels[at] = Depth { price: here.price, volume: Volume(here.volume.0 - left) };
                self.best_ask = here.price;
                proof {
                    assert(before[at as int].price.0 >= old(self).best_ask.0);
                    let after = self.levels@;
                    assert forall|i: int, j: int| 0 <= i < j < after.len() implies after[i].price.0
                        < after[j].price.0 by {
                        assert(after[i].price == before[i].price);
                        assert(after[j].price == before[j].price);
                    }
                }
                return Ok(());
            }
            at += 1;
        }
        proof {
            let after = self.levels@;
            assert forall|i: int, j: int| 0 <= i < j < after.len() implies after[i].price.0
                < after[j].price.0 by {
                assert(after[i].price == before[i].price);
                assert(after[j].price == before[j].price);
            }
        }
        Err(Volume(left))
    }

    /// Sells `volume` to the bids, dearest first.
    pub fn execute_sell_best_price(&mut self, volume: Volume) -> (result: Result<(), Volume>)
        requires
            old(self).wf(),
        ensures
            final(self).wf(),
            final(self)@ == old(self)@.sell(volume).book,
            result == old(self)@.sell(volume).result,
    {
        let n = self.levels.len();
        let cursor = self.rank(Price(self.best_bid.0 + 1));
        let ghost before = self.levels@;
        let ghost goal = take(before, cursor as int, false, volume.0 as int);
        let mut at: usize = cursor;
        let mut left: u64 = volume.0;
        proof {
            lemma_depth_rank_parts(before, self.best_bid.0 + 1);
            lemma_take_frame(before, cursor as int, false, volume.0 as int);
        }
        while at > 0
            invariant
                n == self.levels@.len(),
                n == before.len(),
                at <= cursor <= n,
                self.best_ask == old(self).best_ask,
                self.best_bid == old(self).best_bid,
                old(self).wf(),
                before == old(self)@.levels,
                cursor == depth_rank(before, old(self).best_bid.0 + 1),
                goal == take(before, cursor as int, false, volume.0 as int),
                goal == take(self.levels@, at as int, false, left as int),
                forall|k: int|
                    0 <= k < n ==> (#[trigger] self.levels@[k]).price == before[k].price,
                forall|i: int| 0 <= i < cursor ==> (#[trigger] before[i]).price.0
                    <= old(self).best_bid.0,
            decreases at,
        {
            let here = self.levels[at - 1];
            if here.volume.0 < left {
                left = left - here.volume.0;
                self.levels[at - 1] = Depth { price: here.price, volume: Volume(0) };
            } else {
                self.levels[at - 1] = Depth {
                    price: here.price,
                    volume: Volume(here.volume.0 - left),
                };
                self.best_bid = here.price;
                proof {
                    assert(before[at - 1].price.0 <= old(self).best_bid.0);
                    let after = self.levels@;
                    assert forall|i: int, j: int| 0 <= i < j < after.len() implies after[i].price.0
                        < after[j].price.0 by {
                        assert(after[i].price == before[i].price);
                        assert(after[j].price == before[j].price);
                    }
                }
                return Ok(());
            }
            at -= 1;
        }
        proof {
            let after = self.levels@;
            assert forall|i: int, j: int| 0 <= i < j < after.len() implies after[i].price.0
                < after[j].price.0 by {
                assert(after[i].price == before[i].price);
                assert(after[j].price == before[j].price);
            }
        }
        Err(Volume(left))
    }

    /// The distance from the best bid to the best ask.
    pub fn spread(&self) -> (spread: Price)
        requires
            self.wf(),
        ensures
            spread.0 == self@.best_ask.0 - self@.best_bid.0,
    {
        Price(self.best_ask.0 - self.best_bid.0)
    }
}

} // verus!
