//! One price level: a queue of quotes in arrival order, with its volume and
//! its number of tombstones kept up to date.

use vstd::prelude::*;

use crate::newtypes::{OrderId, Price, Volume};
use crate::quote::{
    fill_matches, fill_quotes, find_live, lemma_live_keeps, lemma_live_push,
    lemma_tombstones_bound, lemma_volume_head, lemma_volume_single, lemma_volume_update, live,
    sweep_matches, tombstones_in, volume_of, Match, MatchType, Quote,
};

verus! {

/// Room for quotes that a fresh level sets aside.
pub const LEVEL_QUOTE_INIT_CAPACITY: usize = 128;

/// The number of tombstones at which a level drops them from its queue.
pub const TOMBSTONE_GC_LIMIT: usize = 1000;

/// What became of a request to cancel a resting quote.
#[derive(Clone, Copy, Debug, PartialEq, Eq, Structural)]
pub enum Cancellation {
    WasCancelled,
    NotFound,
}

/// A queue as a level leaves it after a cancellation or a fill: without its
/// tombstones once there are [`TOMBSTONE_GC_LIMIT`] of them, unchanged
/// otherwise. The live quotes and their order are the same either way.
pub open spec fn settled(quotes: Seq<Quote>) -> Seq<Quote> {
    if tombstones_in(quotes) >= TOMBSTONE_GC_LIMIT {
        live(quotes)
    } else {
        quotes
    }
}

/// A queue after the cancellation of the first live quote of `order_id`, and
/// the queue itself where it holds no such quote.
pub open spec fn cancel_quotes(quotes: Seq<Quote>, order_id: OrderId) -> Seq<Quote> {
    let at = find_live(quotes, order_id);
    if at < quotes.len() {
        settled(quotes.update(at, Quote::tombstone()))
    } else {
        quotes
    }
}

/// The resting quotes at one price.
#[derive(Debug)]
pub struct Level {
    total_volume: Volume,
    quotes: Vec<Quote>,
    tombstone_count: usize,
}

impl View for Level {
    type V = Seq<Quote>;

    /// The queue as it is stored, tombstones included.
    closed spec fn view(&self) -> Seq<Quote> {
        self.quotes@
    }
}

impl Level {
    /// The volume that the level has on record.
    pub closed spec fn recorded_volume(&self) -> nat {
        self.total_volume.0 as nat
    }

    /// The number of tombstones that the level has on record.
    pub closed spec fn recorded_tombstones(&self) -> nat {
        self.tombstone_count as nat
    }

    /// The records agree with the queue.
    pub open spec fn consistent(&self) -> bool {
        &&& self.recorded_volume() == volume_of(self@)
        &&& self.recorded_tombstones() == tombstones_in(self@)
    }

    /// The records agree with the queue, and the tombstones are fewer than
    /// the number at which they are dropped.
    pub open spec fn wf(&self) -> bool {
        &&& self.consistent()
        &&& tombstones_in(self@) < TOMBSTONE_GC_LIMIT
    }

    /// A level that holds one quote.
    pub fn with_quote(quote: Quote) -> (level: Level)
        requires
            quote.is_live(),
        ensures
            level@ == seq![quote],
            level.wf(),
    {
        let mut quotes: Vec<Quote> = Vec::new();
        quotes.push(quote);
        proof {
            assert(quotes@ =~= seq![quote]);
            lemma_volume_single(quote);
        }
        Level { total_volume: quote.volume, quotes, tombstone_count: 0 }
    }

    pub fn total_volume(&self) -> (v: Volume)
        ensures
            v.0 == self.recorded_volume(),
    {
        self.total_volume
    }

    pub fn tombstone_count(&self) -> (n: usize)
        ensures
            n == self.recorded_tombstones(),
    {
        self.tombstone_count
    }

    /// The number of entries in the queue, tombstones included.
    pub fn len(&self) -> (n: usize)
        ensures
            n == self@.len(),
    {
        self.quotes.len()
    }

    /// The live quotes, in arrival order.
    pub fn live_quotes(&self) -> (out: Vec<Quote>)
        ensures
            out@ == live(self@),
    {
        let n = self.quotes.len();
        let mut out: Vec<Quote> = Vec::new();
        let mut j: usize = 0;
        proof {
            assert(self.quotes@.take(0) =~= Seq::<Quote>::empty());
            assert(live(Seq::<Quote>::empty()) =~= Seq::<Quote>::empty()) by {
                reveal(Seq::filter);
            }
        }
        while j < n
            invariant
                n == self.quotes@.len(),
                j <= n,
                out@ == live(self.quotes@.take(j as int)),
            decreases n - j,
        {
            let q = self.quotes[j];
            proof {
                assert(self.quotes@.take(j + 1) =~= self.quotes@.take(j as int).push(q));
                lemma_live_push(self.quotes@.take(j as int), q);
            }
            if !q.is_tombstone() {
                out.push(q);
            }
            j += 1;
        }
        proof {
            assert(self.quotes@.take(n as int) =~= self.quotes@);
        }
        out
    }

    /// Appends a quote to the queue.
    pub fn push(&mut self, quote: Quote)
        requires
            old(self).wf(),
            quote.is_live(),
            volume_of(old(self)@) + quote.volume.0 <= u64::MAX,
        ensures
            final(self)@ == old(self)@.push(quote),
            final(self).wf(),
    {
        proof {
            assert(self.quotes@.push(quote).drop_last() =~= self.quotes@);
        }
        self.total_volume = Volume(self.total_volume.0 + quote.volume.0);
        self.quotes.push(quote);
    }

    /// Rewrites the queue without its tombstones; the live quotes keep their
    /// order.
    fn compact(&mut self)
        requires
            old(self).consistent(),
        ensures
            final(self)@ == live(old(self)@),
            final(self).wf(),
    {
        let ghost before = self.quotes@;
        let n = self.quotes.len();
        let mut kept: usize = 0;
        let mut j: usize = 0;
        proof {
            assert(before.take(0) =~= Seq::<Quote>::empty());
            assert(live(Seq::<Quote>::empty()) =~= Seq::<Quote>::empty()) by {
                reveal(Seq::filter);
            }
            assert(self.quotes@.take(0) =~= Seq::<Quote>::empty());
        }
        while j < n
            invariant
                n == before.len(),
                self.quotes@.len() == n,
                kept <= j <= n,
                self.quotes@.take(kept as int) == live(before.take(j as int)),
                self.quotes@.skip(j as int) == before.skip(j as int),
                self.total_volume == old(self).total_volume,
            decreases n - j,
        {
            let q = self.quotes[j];
            proof {
                assert(q == self.quotes@.skip(j as int)[0]);
                assert(q == before[j as int]);
                assert(before.take(j + 1) =~= before.take(j as int).push(q));
                lemma_live_push(before.take(j as int), q);
            }
            let ghost stored = self.quotes@;
            if !q.is_tombstone() {
                self.quotes[kept] = q;
                proof {
                    assert(self.quotes@.take(kept + 1) =~= stored.take(kept as int).push(q));
                    assert(self.quotes@.skip(j + 1) =~= stored.skip(j as int).skip(1));
                }
                kept += 1;
            } else {
                proof {
                    assert(self.quotes@.skip(j + 1) =~= stored.skip(j as int).skip(1));
                }
            }
            proof {
                assert(before.skip(j + 1) =~= before.skip(j as int).skip(1));
            }
            j += 1;
        }
        proof {
            assert(before.take(n as int) =~= before);
            assert(self.quotes@.subrange(0, kept as int) =~= self.quotes@.take(kept as int));
            lemma_live_keeps(before);
        }
        self.quotes.truncate(kept);
        self.tombstone_count = 0;
    }

    /// Drops the tombstones once there are enough of them.
    fn maybe_compact(&mut self)
        requires
            old(self).consistent(),
        ensures
            final(self)@ == settled(old(self)@),
            final(self).wf(),
    {
        if self.tombstone_count >= TOMBSTONE_GC_LIMIT {
            self.compact();
        }
    }

    /// Empties the level.
    pub fn clear(&mut self)
        ensures
            final(self)@ == Seq::<Quote>::empty(),
            final(self).wf(),
    {
        self.total_volume = Volume(0);
        self.quotes.clear();
        self.tombstone_count = 0;
    }

    /// Cancels the first live quote of `order_id`, if there is one.
    pub fn cancel(&mut self, order_id: OrderId) -> (r: Cancellation)
        requires
            old(self).wf(),
        ensures
            final(self).wf(),
            final(self)@ == cancel_quotes(old(self)@, order_id),
            r == if find_live(old(self)@, order_id) < old(self)@.len() {
                Cancellation::WasCancelled
            } else {
                Cancellation::NotFound
            },
    {
        let ghost before = self.quotes@;
        let n = self.quotes.len();
        let mut j: usize = 0;
        proof {
            assert(before.skip(0) =~= before);
        }
        while j < n
            invariant
                n == before.len(),
                j <= n,
                *self == *old(self),
                old(self).wf(),
                before == self.quotes@,
                find_live(before, order_id) == j + find_live(before.skip(j as int), order_id),
            decreases n - j,
        {
            let q = self.quotes[j];
            proof {
                assert(before.skip(j as int).first() == q);
                assert(before.skip(j as int).drop_first() =~= before.skip(j + 1));
            }
            if !q.is_tombstone() && q.order_id.0 == order_id.0 {
                proof {
                    lemma_volume_update(before, j as int, Quote::tombstone());
                    lemma_tombstones_bound(before.update(j as int, Quote::tombstone()));
                }
                self.total_volume = Volume(self.total_volume.0 - q.volume.0);
                self.quotes[j] = Quote::tombstone();
                self.tombstone_count = self.tombstone_count + 1;
                self.maybe_compact();
                return Cancellation::WasCancelled;
            }
            j += 1;
        }
        proof {
            assert(before.skip(n as int) =~= Seq::<Quote>::empty());
        }
        Cancellation::NotFound
    }

    /// Lets a taker with `rem` units still to fill consume the whole level,
    /// and records the trades.
    pub fn sweep(&mut self, taker: OrderId, price: Price, rem: Volume, matches: &mut Vec<Match>)
        requires
            old(self).wf(),
            rem.0 >= volume_of(old(self)@),
        ensures
            final(self)@ == Seq::<Quote>::empty(),
            final(self).wf(),
            final(matches)@ == old(matches)@ + sweep_matches(old(self)@, taker, price, rem.0 as int),
    {
        let ghost before = self.quotes@;
        let n = self.quotes.len();
        let mut left: u64 = rem.0;
        let mut j: usize = 0;
        proof {
            assert(before.skip(0) =~= before);
        }
        while j < n
            invariant
                n == before.len(),
                j <= n,
                before == self.quotes@,
                left >= volume_of(before.skip(j as int)),
                old(matches)@ + sweep_matches(before, taker, price, rem.0 as int) == matches@
                    + sweep_matches(before.skip(j as int), taker, price, left as int),
            decreases n - j,
        {
            let q = self.quotes[j];
            proof {
                let here = before.skip(j as int);
                assert(here.first() == q);
                assert(here.drop_first() =~= before.skip(j + 1));
                lemma_volume_head(here);
            }
            if !q.is_tombstone() {
                let typ = if left == q.volume.0 {
                    MatchType::BothFilled
                } else {
                    MatchType::MakerFilled
                };
                let m = Match::new(q.order_id, taker, price, q.volume, typ);
                let ghost recorded = matches@;
                matches.push(m);
                left = left - q.volume.0;
                proof {
                    let rest = sweep_matches(before.skip(j + 1), taker, price, left as int);
                    assert(recorded + (seq![m] + rest) =~= recorded.push(m) + rest);
                }
            }
            j += 1;
        }
        proof {
            assert(before.skip(n as int) =~= Seq::<Quote>::empty());
            assert(matches@ + Seq::<Match>::empty() =~= matches@);
        }
        self.clear();
    }

    /// Lets a taker with `rem` units still to fill, fewer than the level
    /// holds, take them from the head of the queue, and records the trades.
    pub fn fill(&mut self, taker: OrderId, price: Price, rem: Volume, matches: &mut Vec<Match>)
        requires
            old(self).wf(),
            rem.0 < volume_of(old(self)@),
        ensures
            final(self)@ == settled(fill_quotes(old(self)@, rem.0 as int)),
            final(self).wf(),
            final(matches)@ == old(matches)@ + fill_matches(old(self)@, taker, price, rem.0 as int),
    {
        let ghost before = self.quotes@;
        let n = self.quotes.len();
        let mut left: u64 = rem.0;
        let mut buried: usize = 0;
        let mut j: usize = 0;
        proof {
            assert(before.skip(0) =~= before);
            assert(self.quotes@.take(0) + fill_quotes(before, rem.0 as int) =~= fill_quotes(
                before,
                rem.0 as int,
            ));
            lemma_tombstones_bound(before);
        }
        while j < n
            invariant
                n == before.len(),
                self.quotes@.len() == n,
                j <= n,
                left <= rem.0,
                self.total_volume == old(self).total_volume,
                self.tombstone_count == old(self).tombstone_count,
                old(self).wf(),
                before == old(self)@,
                self.quotes@.skip(j as int) == before.skip(j as int),
                left < volume_of(before.skip(j as int)),
                fill_quotes(before, rem.0 as int) == self.quotes@.take(j as int) + fill_quotes(
                    before.skip(j as int),
                    left as int,
                ),
                old(matches)@ + fill_matches(before, taker, price, rem.0 as int) == matches@
                    + fill_matches(before.skip(j as int), taker, price, left as int),
                volume_of(self.quotes@) + (rem.0 - left) == volume_of(before),
                tombstones_in(self.quotes@) == tombstones_in(before) + buried,
                buried <= j,
            decreases n - j,
        {
            let q = self.quotes[j];
            let ghost stored = self.quotes@;
            let ghost recorded = matches@;
            proof {
                let here = before.skip(j as int);
                assert(stored.skip(j as int)[0] == q);
                assert(here.first() == q);
                assert(here.drop_first() =~= before.skip(j + 1));
                lemma_volume_head(here);
                lemma_tombstones_bound(stored);
            }
            if q.is_tombstone() {
                proof {
                    assert(stored.take(j + 1) =~= stored.take(j as int) + seq![q]);
                    assert(stored.take(j as int) + (seq![q] + fill_quotes(
                        before.skip(j + 1),
                        left as int,
                    )) =~= stored.take(j + 1) + fill_quotes(before.skip(j + 1), left as int));
                    assert(stored.skip(j + 1) =~= stored.skip(j as int).skip(1));
                    assert(before.skip(j + 1) =~= before.skip(j as int).skip(1));
                }
            } else if left <= q.volume.0 {
                let m = if left < q.volume.0 {
                    self.quotes[j] = Quote::new(q.order_id, Volume(q.volume.0 - left));
                    Match::new(q.order_id, taker, price, Volume(left), MatchType::TakerFilled)
                } else {
                    self.quotes[j] = Quote::tombstone();
                    buried = buried + 1;
                    Match::new(q.order_id, taker, price, q.volume, MatchType::BothFilled)
                };
                matches.push(m);
                proof {
                    let placed = self.quotes@[j as int];
                    assert(self.quotes@ == stored.update(j as int, placed));
                    lemma_volume_update(stored, j as int, placed);
                    assert(recorded + seq![m] =~= recorded.push(m));
                    assert(self.quotes@ =~= stored.take(j as int) + (seq![placed] + before.skip(
                        j + 1,
                    ))) by {
                        assert(stored.skip(j + 1) =~= stored.skip(j as int).skip(1));
                        assert(before.skip(j + 1) =~= before.skip(j as int).skip(1));
                    }
                    lemma_tombstones_bound(self.quotes@);
                }
                self.total_volume = Volume(self.total_volume.0 - rem.0);
                self.tombstone_count = self.tombstone_count + buried;
                self.maybe_compact();
                return ;
            } else {
                let m = Match::new(q.order_id, taker, price, q.volume, MatchType::MakerFilled);
                matches.push(m);
                self.quotes[j] = Quote::tombstone();
                left = left - q.volume.0;
                buried = buried + 1;
                proof {
                    lemma_volume_update(stored, j as int, Quote::tombstone());
                    let rest = fill_matches(before.skip(j + 1), taker, price, left as int);
                    assert(recorded + (seq![m] + rest) =~= recorded.push(m) + rest);
                    assert(self.quotes@.take(j + 1) =~= stored.take(j as int) + seq![
                        Quote::tombstone(),
                    ]);
                    assert(stored.take(j as int) + (seq![Quote::tombstone()] + fill_quotes(
                        before.skip(j + 1),
                        left as int,
                    )) =~= self.quotes@.take(j + 1) + fill_quotes(
                        before.skip(j + 1),
                        left as int,
                    ));
                    assert(self.quotes@.skip(j + 1) =~= stored.skip(j as int).skip(1));
                    assert(before.skip(j + 1) =~= before.skip(j as int).skip(1));
                }
            }
            j += 1;
        }
        proof {
            assert(before.skip(n as int) =~= Seq::<Quote>::empty());
            assert(false);
        }
    }
}

impl Default for Level {
    /// An empty level with room set aside for its first quotes.
    fn default() -> (level: Level)
        ensures
            level@ == Seq::<Quote>::empty(),
            level.wf(),
    {
        Level {
            total_volume: Volume(0),
            quotes: Vec::with_capacity(LEVEL_QUOTE_INIT_CAPACITY),
            tombstone_count: 0,
        }
    }
}

impl Clone for Level {
    fn clone(&self) -> (copy: Level)
        ensures
            copy@ == self@,
            copy.recorded_volume() == self.recorded_volume(),
            copy.recorded_tombstones() == self.recorded_tombstones(),
    {
        let n = self.quotes.len();
        let mut quotes: Vec<Quote> = Vec::with_capacity(n);
        let mut j: usize = 0;
        while j < n
            invariant
                n == self.quotes@.len(),
                j <= n,
                quotes@ == self.quotes@.take(j as int),
            decreases n - j,
        {
            quotes.push(self.quotes[j]);
            proof {
                assert(self.quotes@.take(j + 1) =~= self.quotes@.take(j as int).push(
                    self.quotes@[j as int],
                ));
            }
            j += 1;
        }
        proof {
            assert(self.quotes@.take(n as int) =~= self.quotes@);
        }
        Level { total_volume: self.total_volume, quotes, tombstone_count: self.tombstone_count }
    }
}

} // verus!
