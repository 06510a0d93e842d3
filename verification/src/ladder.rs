//! The price ladder: the levels of a book in ascending order of price.
//!
//! The ladder is a vector kept sorted by price, with at most one level per
//! price. A level stays on the ladder when it runs empty, so that a later
//! quote at the same price finds it again.

use vstd::prelude::*;

use crate::level::{cancel_quotes, settled, Cancellation, Level, TOMBSTONE_GC_LIMIT};
use crate::newtypes::{OrderId, Price, Volume};
use crate::quote::{
    fill_matches, fill_quotes, find_live, live, sweep_matches, tombstones_in, volume_of, Match,
    Quote,
};

verus! {

/// A level as contracts see it: its price and its queue, tombstones
/// included.
pub struct LevelView {
    pub price: Price,
    pub quotes: Seq<Quote>,
}

impl LevelView {
    /// The live volume resting at the level.
    pub open spec fn volume(self) -> nat {
        volume_of(self.quotes)
    }

    /// The level with another queue in place of its own.
    pub open spec fn with_quotes(self, quotes: Seq<Quote>) -> LevelView {
        LevelView { price: self.price, quotes }
    }
}

/// Prices rise strictly along the sequence.
pub open spec fn ascending(levels: Seq<LevelView>) -> bool {
    forall|i: int, j: int| 0 <= i < j < levels.len() ==> levels[i].price.0 < levels[j].price.0
}

/// The number of levels priced below `price`. On an ascending ladder this is
/// the index of the first level priced at `price` or above.
pub open spec fn rank(levels: Seq<LevelView>, price: int) -> int
    decreases levels.len(),
{
    if levels.len() == 0 {
        0
    } else {
        rank(levels.drop_last(), price) + if levels.last().price.0 < price {
            1int
        } else {
            0int
        }
    }
}

/// Whether the ladder has a level at `price`.
pub open spec fn has_level(levels: Seq<LevelView>, price: Price) -> bool {
    let at = rank(levels, price.0 as int);
    at < levels.len() && levels[at].price == price
}

/// The live volume resting at `price`: none where the ladder has no such
/// level.
pub open spec fn volume_at(levels: Seq<LevelView>, price: Price) -> nat {
    if has_level(levels, price) {
        levels[rank(levels, price.0 as int)].volume()
    } else {
        0
    }
}

/// The ladder after `quote` has joined the tail of the queue at `price`, on a
/// new level where there was none.
pub open spec fn place(levels: Seq<LevelView>, price: Price, quote: Quote) -> Seq<LevelView> {
    let at = rank(levels, price.0 as int);
    if has_level(levels, price) {
        levels.update(at, levels[at].with_quotes(levels[at].quotes.push(quote)))
    } else {
        levels.insert(at, LevelView { price, quotes: seq![quote] })
    }
}

/// The ladder after the cancellation of the first live quote of `order_id`
/// at `price`, and the ladder itself where there is no such quote.
pub open spec fn cancel_at(levels: Seq<LevelView>, price: Price, order_id: OrderId) -> Seq<
    LevelView,
> {
    let at = rank(levels, price.0 as int);
    if has_level(levels, price) {
        levels.update(at, levels[at].with_quotes(cancel_quotes(levels[at].quotes, order_id)))
    } else {
        levels
    }
}

/// Whether a live quote of `order_id` rests at `price`.
pub open spec fn rests_at(levels: Seq<LevelView>, price: Price, order_id: OrderId) -> bool {
    let at = rank(levels, price.0 as int);
    has_level(levels, price) && find_live(levels[at].quotes, order_id) < levels[at].quotes.len()
}

/// On an ascending ladder the rank of a price parts the levels below it from
/// the levels at or above it.
pub proof fn lemma_rank_parts(levels: Seq<LevelView>, price: int)
    requires
        ascending(levels),
    ensures
        0 <= rank(levels, price) <= levels.len(),
        forall|i: int| 0 <= i < rank(levels, price) ==> (#[trigger] levels[i]).price.0 < price,
        forall|i: int|
            rank(levels, price) <= i < levels.len() ==> (#[trigger] levels[i]).price.0 >= price,
    decreases levels.len(),
{
    if levels.len() > 0 {
        let init = levels.drop_last();
        assert(ascending(init)) by {
            assert forall|i: int, j: int| 0 <= i < j < init.len() implies init[i].price.0
                < init[j].price.0 by {
                assert(init[i] == levels[i] && init[j] == levels[j]);
            }
        }
        lemma_rank_parts(init, price);
        assert forall|i: int| 0 <= i < rank(levels, price) implies (#[trigger] levels[i]).price.0
            < price by {
            if i < init.len() {
                assert(init[i] == levels[i]);
                if i >= rank(init, price) {
                    assert(levels[i].price.0 < levels.last().price.0);
                }
            }
        }
        assert forall|i: int| rank(levels, price) <= i < levels.len() implies (
        #[trigger] levels[i]).price.0 >= price by {
            if i < init.len() {
                assert(init[i] == levels[i]);
                if levels.last().price.0 < price {
                    assert(levels[i].price.0 < levels.last().price.0);
                }
            }
        }
    }
}

/// An index that parts the levels below a price from those at or above it is
/// the rank of that price.
pub proof fn lemma_rank_is(levels: Seq<LevelView>, price: int, at: int)
    requires
        0 <= at <= levels.len(),
        forall|i: int| 0 <= i < at ==> (#[trigger] levels[i]).price.0 < price,
        forall|i: int| at <= i < levels.len() ==> (#[trigger] levels[i]).price.0 >= price,
    ensures
        rank(levels, price) == at,
    decreases levels.len(),
{
    if levels.len() > 0 {
        let init = levels.drop_last();
        assert forall|i: int| 0 <= i < init.len() implies init[i] == levels[i] by {}
        if at == levels.len() {
            assert(levels[at - 1].price.0 < price);
            lemma_rank_is(init, price, at - 1);
        } else {
            assert(levels[levels.len() - 1].price.0 >= price);
            lemma_rank_is(init, price, at);
        }
    }
}

/// One level of the ladder with its price.
#[derive(Debug)]
struct Rung {
    price: Price,
    level: Level,
}

/// The levels of a book, in ascending order of price.
#[derive(Debug)]
pub struct Ladder {
    rungs: Vec<Rung>,
}

impl View for Ladder {
    type V = Seq<LevelView>;

    closed spec fn view(&self) -> Seq<LevelView> {
        Seq::new(
            self.rungs@.len(),
            |i: int| LevelView { price: self.rungs@[i].price, quotes: self.rungs@[i].level@ },
        )
    }
}

impl Ladder {
    /// Every level's records agree with its queue.
    pub closed spec fn levels_wf(&self) -> bool {
        forall|i: int| 0 <= i < self.rungs@.len() ==> (#[trigger] self.rungs@[i]).level.wf()
    }

    /// The volume that the level at `index` has on record.
    pub closed spec fn recorded_volume(&self, index: int) -> nat {
        self.rungs@[index].level.recorded_volume()
    }

    /// The number of tombstones that the level at `index` has on record.
    pub closed spec fn recorded_tombstones(&self, index: int) -> nat {
        self.rungs@[index].level.recorded_tombstones()
    }

    /// Prices rise strictly along the ladder, and every level's records
    /// agree with its queue.
    pub open spec fn wf(&self) -> bool {
        &&& ascending(self@)
        &&& self.levels_wf()
    }

    /// On a well-formed ladder every level has on record the volume and the
    /// tombstones that its queue holds, and the tombstones are fewer than the
    /// number at which they are dropped.
    pub proof fn lemma_records(&self, index: int)
        requires
            self.wf(),
            0 <= index < self@.len(),
        ensures
            self.recorded_volume(index) == self@[index].volume(),
            self.recorded_tombstones(index) == tombstones_in(self@[index].quotes),
            tombstones_in(self@[index].quotes) < TOMBSTONE_GC_LIMIT,
    {
        assert(self.rungs@[index].level.wf());
    }

    pub fn new() -> (ladder: Ladder)
        ensures
            ladder@ == Seq::<LevelView>::empty(),
            ladder.wf(),
    {
        let ladder = Ladder { rungs: Vec::new() };
        proof {
            assert(ladder@ =~= Seq::<LevelView>::empty());
        }
        ladder
    }

    /// The number of levels on the ladder, empty ones included.
    pub fn len(&self) -> (n: usize)
        ensures
            n == self@.len(),
    {
        self.rungs.len()
    }

    /// The price of the level at `index`.
    pub fn price_at(&self, index: usize) -> (price: Price)
        requires
            index < self@.len(),
        ensures
            price == self@[index as int].price,
    {
        self.rungs[index].price
    }

    /// The volume that the level at `index` has on record.
    pub fn total_volume_at(&self, index: usize) -> (volume: Volume)
        requires
            index < self@.len(),
        ensures
            volume.0 == self.recorded_volume(index as int),
    {
        self.rungs[index].level.total_volume()
    }

    /// The number of tombstones that the level at `index` has on record.
    pub fn tombstone_count_at(&self, index: usize) -> (n: usize)
        requires
            index < self@.len(),
        ensures
            n == self.recorded_tombstones(index as int),
    {
        self.rungs[index].level.tombstone_count()
    }

    /// The number of entries in the queue at `index`, tombstones included.
    pub fn queue_len_at(&self, index: usize) -> (n: usize)
        requires
            index < self@.len(),
        ensures
            n == self@[index as int].quotes.len(),
    {
        self.rungs[index].level.len()
    }

    /// The live quotes of the level at `index`, in arrival order.
    pub fn live_quotes_at(&self, index: usize) -> (out: Vec<Quote>)
        requires
            index < self@.len(),
        ensures
            out@ == live(self@[index as int].quotes),
    {
        self.rungs[index].level.live_quotes()
    }

    /// The index of the first level priced at `price` or above, found by
    /// bisection.
    pub fn rank(&self, price: Price) -> (at: usize)
        requires
            self.wf(),
        ensures
            at == rank(self@, price.0 as int),
            at <= self@.len(),
    {
        let mut lo: usize = 0;
        let mut hi: usize = self.rungs.len();
        while lo < hi
            invariant
                lo <= hi <= self.rungs@.len(),
                self.rungs@.len() == self@.len(),
                ascending(self@),
                forall|i: int| 0 <= i < lo ==> (#[trigger] self@[i]).price.0 < price.0,
                forall|i: int| hi <= i < self@.len() ==> (#[trigger] self@[i]).price.0 >= price.0,
            decreases hi - lo,
        {
            let mid = lo + (hi - lo) / 2;
            assert(self@[mid as int].price == self.rungs@[mid as int].price);
            if self.rungs[mid].price.0 < price.0 {
                lo = mid + 1;
            } else {
                hi = mid;
            }
        }
        proof {
            lemma_rank_is(self@, price.0 as int, lo as int);
        }
        lo
    }

    /// Appends `quote` to the queue at `price`, on a new level where the
    /// ladder has none. Says whether there was a level with volume at that
    /// price before.
    pub fn place(&mut self, price: Price, quote: Quote) -> (had_volume: bool)
        requires
            old(self).wf(),
            quote.is_live(),
            volume_at(old(self)@, price) + quote.volume.0 <= u64::MAX,
        ensures
            final(self)@ == place(old(self)@, price, quote),
            final(self).wf(),
            had_volume == (volume_at(old(self)@, price) != 0),
    {
        let at = self.rank(price);
        let ghost before = self@;
        proof {
            lemma_rank_parts(before, price.0 as int);
        }
        if at < self.rungs.len() && self.rungs[at].price.0 == price.0 {
            assert(before[at as int].price == price);
            assert(self.rungs@[at as int].level.wf());
            let had_volume = self.rungs[at].level.total_volume().0 != 0;
            let ghost rungs_before = self.rungs@;
            self.rungs[at].level.push(quote);
            proof {
                assert(self@ =~= place(before, price, quote));
                assert forall|i: int| 0 <= i < self.rungs@.len() implies (
                #[trigger] self.rungs@[i]).level.wf() by {
                    if i != at {
                        assert(self.rungs@[i] == rungs_before[i]);
                    }
                }
            }
            had_volume
        } else {
            let ghost rungs_before = self.rungs@;
            let level = Level::with_quote(quote);
            self.rungs.insert(at, Rung { price, level });
            proof {
                let after = self@;
                assert(after =~= before.insert(at as int, LevelView { price, quotes: seq![quote] }));
                assert forall|i: int| 0 <= i < self.rungs@.len() implies (
                #[trigger] self.rungs@[i]).level.wf() by {
                    if i < at {
                        assert(self.rungs@[i] == rungs_before[i]);
                    } else if i > at {
                        assert(self.rungs@[i] == rungs_before[i - 1]);
                    }
                }
                assert forall|i: int, j: int| 0 <= i < j < after.len() implies after[i].price.0
                    < after[j].price.0 by {
                    let oi = if i < at { i } else { i - 1 };
                    let oj = if j < at { j } else { j - 1 };
                    if i != at {
                        assert(after[i] == before[oi]);
                    }
                    if j != at {
                        assert(after[j] == before[oj]);
                    }
                }
            }
            false
        }
    }

    /// Cancels the first live quote of `order_id` at `price`, if there is
    /// one.
    pub fn cancel(&mut self, price: Price, order_id: OrderId) -> (r: Cancellation)
        requires
            old(self).wf(),
        ensures
            final(self)@ == cancel_at(old(self)@, price, order_id),
            final(self).wf(),
            r == if rests_at(old(self)@, price, order_id) {
                Cancellation::WasCancelled
            } else {
                Cancellation::NotFound
            },
    {
        let at = self.rank(price);
        let ghost before = self@;
        if at < self.rungs.len() && self.rungs[at].price.0 == price.0 {
            assert(before[at as int].price == price);
            assert(self.rungs@[at as int].level.wf());
            let ghost rungs_before = self.rungs@;
            let r = self.rungs[at].level.cancel(order_id);
            proof {
                self.lemma_touched(before, rungs_before, at as int);
            }
            r
        } else {
            Cancellation::NotFound
        }
    }

    /// Lets a taker with `rem` units still to fill consume the whole level
    /// at `index`, and records the trades.
    pub fn sweep_at(&mut self, index: usize, taker: OrderId, rem: Volume, matches: &mut Vec<Match>)
        requires
            old(self).wf(),
            index < old(self)@.len(),
            rem.0 >= old(self)@[index as int].volume(),
        ensures
            final(self)@ == old(self)@.update(
                index as int,
                old(self)@[index as int].with_quotes(Seq::empty()),
            ),
            final(self).wf(),
            final(matches)@ == old(matches)@ + sweep_matches(
                old(self)@[index as int].quotes,
                taker,
                old(self)@[index as int].price,
                rem.0 as int,
            ),
    {
        let ghost before = self@;
        let ghost rungs_before = self.rungs@;
        assert(self.rungs@[index as int].level.wf());
        let price = self.rungs[index].price;
        self.rungs[index].level.sweep(taker, price, rem, matches);
        proof {
            self.lemma_touched(before, rungs_before, index as int);
        }
    }

    /// Lets a taker with `rem` units still to fill, fewer than the level at
    /// `index` holds, take them from the head of its queue, and records the
    /// trades.
    pub fn fill_at(&mut self, index: usize, taker: OrderId, rem: Volume, matches: &mut Vec<Match>)
        requires
            old(self).wf(),
            index < old(self)@.len(),
            rem.0 < old(self)@[index as int].volume(),
        ensures
            final(self)@ == old(self)@.update(
                index as int,
                old(self)@[index as int].with_quotes(
                    settled(fill_quotes(old(self)@[index as int].quotes, rem.0 as int)),
                ),
            ),
            final(self).wf(),
            final(matches)@ == old(matches)@ + fill_matches(
                old(self)@[index as int].quotes,
                taker,
                old(self)@[index as int].price,
                rem.0 as int,
            ),
    {
        let ghost before = self@;
        let ghost rungs_before = self.rungs@;
        assert(self.rungs@[index as int].level.wf());
        let price = self.rungs[index].price;
        self.rungs[index].level.fill(taker, price, rem, matches);
        proof {
            self.lemma_touched(before, rungs_before, index as int);
        }
    }

    /// A ladder on which one level got a new well-formed queue and nothing
    /// else changed is well formed, and its view is the old one with that
    /// level's queue replaced.
    proof fn lemma_touched(&self, before: Seq<LevelView>, rungs_before: Seq<Rung>, index: int)
        requires
            0 <= index < rungs_before.len(),
            before.len() == rungs_before.len(),
            forall|i: int|
                0 <= i < before.len() ==> #[trigger] before[i] == (LevelView {
                    price: rungs_before[i].price,
                    quotes: rungs_before[i].level@,
                }),
            ascending(before),
            forall|i: int|
                0 <= i < rungs_before.len() ==> (#[trigger] rungs_before[i]).level.wf(),
            self.rungs@.len() == rungs_before.len(),
            forall|i: int|
                0 <= i < rungs_before.len() && i != index ==> self.rungs@[i] == rungs_before[i],
            self.rungs@[index].price == rungs_before[index].price,
            self.rungs@[index].level.wf(),
        ensures
            self@ == before.update(index, before[index].with_quotes(self.rungs@[index].level@)),
            self.wf(),
    {
        let after = self@;
        assert(after =~= before.update(
            index,
            before[index].with_quotes(self.rungs@[index].level@),
        ));
        assert forall|i: int, j: int| 0 <= i < j < after.len() implies after[i].price.0
            < after[j].price.0 by {
            assert(after[i].price == before[i].price);
            assert(after[j].price == before[j].price);
        }
        assert forall|i: int| 0 <= i < self.rungs@.len() implies (
        #[trigger] self.rungs@[i]).level.wf() by {
            if i != index {
                assert(self.rungs@[i] == rungs_before[i]);
            }
        }
    }
}

impl Clone for Ladder {
    fn clone(&self) -> (copy: Ladder)
        ensures
            copy@ == self@,
            self.wf() ==> copy.wf(),
    {
        let n = self.rungs.len();
        let mut rungs: Vec<Rung> = Vec::with_capacity(n);
        let mut i: usize = 0;
        while i < n
            invariant
                n == self.rungs@.len(),
                i <= n,
                rungs@.len() == i,
                forall|k: int|
                    0 <= k < i ==> {
                        &&& (#[trigger] rungs@[k]).price == self.rungs@[k].price
                        &&& rungs@[k].level@ == self.rungs@[k].level@
                        &&& rungs@[k].level.recorded_volume()
                            == self.rungs@[k].level.recorded_volume()
                        &&& rungs@[k].level.recorded_tombstones()
                            == self.rungs@[k].level.recorded_tombstones()
                    },
            decreases n - i,
        {
            let level = self.rungs[i].level.clone();
            rungs.push(Rung { price: self.rungs[i].price, level });
            i += 1;
        }
        let copy = Ladder { rungs };
        proof {
            assert(copy@ =~= self@);
            if self.wf() {
                assert forall|k: int| 0 <= k < copy.rungs@.len() implies (
                #[trigger] copy.rungs@[k]).level.wf() by {
                    assert(self.rungs@[k].level.wf());
                }
            }
        }
        copy
    }
}

} // verus!
