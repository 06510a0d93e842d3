use cambiare::{
    Balance, Cancellation, Match, MatchType, OrderBook, OrderId, Outcome, Price, Quote,
    TxnOutcome, Volume, TOMBSTONE_GC_LIMIT,
};

fn b(v: u64) -> Balance {
    Balance::new(v)
}

fn p(v: u64) -> Price {
    Price::new(v)
}

fn v(v: u64) -> Volume {
    Volume::new(v)
}

fn o(v: u64) -> OrderId {
    OrderId::new(v)
}

fn q(id: u64, vol: u64) -> Quote {
    Quote::new(o(id), v(vol))
}

fn trade(maker: u64, taker: u64, price: u64, vol: u64, typ: MatchType) -> Match {
    Match::new(o(maker), o(taker), p(price), v(vol), typ)
}

fn sample_book() -> OrderBook {
    let mut ob = OrderBook::new();
    ob.add_bid(p(10), q(1, 40));
    ob.add_bid(p(15), q(2, 30));
    ob.add_bid(p(20), q(3, 20));
    ob.add_bid(p(25), q(4, 10));

    ob.add_ask(p(35), q(5, 10));
    ob.add_ask(p(40), q(6, 20));
    ob.add_ask(p(45), q(7, 30));
    ob.add_ask(p(50), q(8, 40));
    ob
}

fn sum_of(quotes: &[Quote]) -> u64 {
    quotes.iter().map(|q| q.volume.inner()).sum()
}

fn traded(fills: &[Match]) -> u64 {
    fills.iter().map(|m| m.volume.inner()).sum()
}

#[test]
fn level_volume_is_the_sum_of_its_live_quotes() {
    let mut book = sample_book();
    book.add_ask(p(40), q(9, 7));
    book.add_ask(p(40), q(10, 3));
    book.cancel(p(40), o(9));
    let mut fills = Vec::new();
    book.execute_market_buy(o(100), v(15), b(10_000), &mut fills);
    for price in [10, 15, 20, 25, 35, 40, 45, 50, 60] {
        assert_eq!(
            book.volume_at(p(price)).inner(),
            sum_of(&book.quotes_at(p(price)))
        );
    }
    assert_eq!(book.volume_at(p(40)), v(18));
    assert_eq!(book.quotes_at(p(40)), vec![q(6, 15), q(10, 3)]);
}

#[test]
fn best_bid_stays_below_best_ask() {
    let mut book = sample_book();
    assert!(book.best_bid() < book.best_ask());
    let mut fills = Vec::new();
    book.execute_limit_buy_order(o(100), p(42), v(25), &mut fills);
    assert!(book.best_bid() < book.best_ask());
    book.execute_limit_sell_order(o(101), p(12), v(500), &mut fills);
    assert!(book.best_bid() < book.best_ask());
    book.execute_market_buy(o(102), v(1_000), b(1_000_000), &mut fills);
    assert!(book.best_bid() < book.best_ask());
    book.execute_market_sell(o(103), v(1_000), &mut fills);
    assert!(book.best_bid() < book.best_ask());
    assert_eq!(book.best_bid(), p(0));
    assert_eq!(book.best_ask(), p(u64::MAX));
}

#[test]
fn trades_add_up_to_target_or_to_the_liquidity_in_reach() {
    // the target is the lesser
    let mut book = sample_book();
    let mut fills = Vec::new();
    book.execute_market_buy(o(100), v(55), b(1_000_000), &mut fills);
    assert_eq!(traded(&fills), 55);

    // the side is the lesser
    let mut book = sample_book();
    let mut fills = Vec::new();
    book.execute_market_sell(o(100), v(250), &mut fills);
    assert_eq!(traded(&fills), 100);

    // a limit buy reaches the asks at its price or below: 10 + 20
    let mut book = sample_book();
    let mut fills = Vec::new();
    book.execute_limit_buy_order(o(100), p(40), v(90), &mut fills);
    assert_eq!(traded(&fills), 30);
    assert_eq!(book.volume_at(p(40)), v(60));

    // a limit sell reaches the bids at its price or above: 10 + 20
    let mut book = sample_book();
    let mut fills = Vec::new();
    book.execute_limit_sell_order(o(100), p(20), v(25), &mut fills);
    assert_eq!(traded(&fills), 25);
    assert_eq!(book.volume_at(p(20)), v(5));
}

#[test]
fn trades_follow_price_then_time() {
    let mut book = OrderBook::new();
    book.add_ask(p(12), q(1, 5));
    book.add_ask(p(11), q(2, 5));
    book.add_ask(p(12), q(3, 5));
    book.add_ask(p(11), q(4, 5));
    book.add_ask(p(13), q(5, 5));
    let mut fills = Vec::new();
    let res = book.execute_market_buy(o(100), v(22), b(1_000_000), &mut fills);
    assert_eq!(res, TxnOutcome::Filled { new_best_price: p(13) });
    assert_eq!(
        fills,
        vec![
            trade(2, 100, 11, 5, MatchType::MakerFilled),
            trade(4, 100, 11, 5, MatchType::MakerFilled),
            trade(1, 100, 12, 5, MatchType::MakerFilled),
            trade(3, 100, 12, 5, MatchType::MakerFilled),
            trade(5, 100, 13, 2, MatchType::TakerFilled),
        ]
    );

    let mut book = OrderBook::new();
    book.add_bid(p(11), q(1, 5));
    book.add_bid(p(12), q(2, 5));
    book.add_bid(p(11), q(3, 5));
    book.add_bid(p(12), q(4, 5));
    let mut fills = Vec::new();
    book.execute_market_sell(o(100), v(17), &mut fills);
    assert_eq!(
        fills,
        vec![
            trade(2, 100, 12, 5, MatchType::MakerFilled),
            trade(4, 100, 12, 5, MatchType::MakerFilled),
            trade(1, 100, 11, 5, MatchType::MakerFilled),
            trade(3, 100, 11, 2, MatchType::TakerFilled),
        ]
    );
}

#[test]
fn second_cancellation_finds_nothing() {
    let mut book = sample_book();
    assert_eq!(book.cancel(p(45), o(7)), Cancellation::WasCancelled);
    let best_ask = book.best_ask();
    assert_eq!(book.cancel(p(45), o(7)), Cancellation::NotFound);
    assert_eq!(book.volume_at(p(45)), v(0));
    assert_eq!(book.best_ask(), best_ask);
    // neither a price without a level nor the reserved identifier is found
    assert_eq!(book.cancel(p(46), o(7)), Cancellation::NotFound);
    assert_eq!(book.cancel(p(45), o(u64::MAX)), Cancellation::NotFound);
    assert_eq!(book.tombstones_at(p(45)), 1);
}

#[test]
fn cancellation_leaves_the_best_price_alone() {
    let mut book = sample_book();
    assert_eq!(book.cancel(p(35), o(5)), Cancellation::WasCancelled);
    assert_eq!(book.best_ask(), p(35));
    let mut fills = Vec::new();
    let res = book.execute_market_buy(o(100), v(0), b(0), &mut fills);
    assert_eq!(res, TxnOutcome::Filled { new_best_price: p(35) });
}

#[test]
fn fills_drop_tombstones_at_the_limit() {
    let mut book = OrderBook::new();
    for id in 0..TOMBSTONE_GC_LIMIT {
        book.add_ask(p(30), q(id as u64, 1));
    }
    book.add_ask(p(30), q(5_000, 10));
    {
        // one short of the limit: the tombstones stay
        let mut fills = Vec::new();
        book.execute_market_buy(
            o(9_000),
            v(TOMBSTONE_GC_LIMIT as u64 - 1),
            b(1_000_000),
            &mut fills,
        );
        assert_eq!(fills.len(), TOMBSTONE_GC_LIMIT - 1);
        assert_eq!(book.tombstones_at(p(30)), TOMBSTONE_GC_LIMIT - 1);
        assert_eq!(book.queue_len_at(p(30)), TOMBSTONE_GC_LIMIT + 1);
    }
    {
        // the next fill reaches it: only live quotes are left
        let mut fills = Vec::new();
        book.execute_market_buy(o(9_001), v(1), b(1_000_000), &mut fills);
        assert_eq!(
            fills,
            vec![trade(
                TOMBSTONE_GC_LIMIT as u64 - 1,
                9_001,
                30,
                1,
                MatchType::BothFilled
            )]
        );
        assert_eq!(book.tombstones_at(p(30)), 0);
        assert_eq!(book.queue_len_at(p(30)), 1);
        assert_eq!(book.quotes_at(p(30)), vec![q(5_000, 10)]);
    }
}

#[test]
fn compaction_keeps_the_order_of_live_quotes() {
    let mut book = OrderBook::new();
    book.add_ask(p(30), q(1, 3));
    for id in 0..TOMBSTONE_GC_LIMIT {
        book.add_ask(p(30), q(100 + id as u64, 1));
        if id == 500 {
            book.add_ask(p(30), q(2, 4));
        }
    }
    book.add_ask(p(30), q(3, 5));
    for id in 0..TOMBSTONE_GC_LIMIT {
        book.cancel(p(30), o(100 + id as u64));
    }
    assert_eq!(book.tombstones_at(p(30)), 0);
    assert_eq!(book.quotes_at(p(30)), vec![q(1, 3), q(2, 4), q(3, 5)]);
    assert_eq!(book.queue_len_at(p(30)), 3);
    assert_eq!(book.volume_at(p(30)), v(12));
}

#[test]
fn adding_then_cancelling_restores_the_volume() {
    let mut book = sample_book();
    let before = book.volume_at(p(40));
    assert!(matches!(book.add_ask(p(40), q(77, 13)), Outcome::PlacedExisting));
    assert_eq!(book.volume_at(p(40)), v(33));
    assert_eq!(book.cancel(p(40), o(77)), Cancellation::WasCancelled);
    assert_eq!(book.volume_at(p(40)), before);

    let before = book.volume_at(p(22));
    assert_eq!(before, v(0));
    assert!(matches!(book.add_bid(p(22), q(78, 5)), Outcome::PlacedNew));
    assert_eq!(book.cancel(p(22), o(78)), Cancellation::WasCancelled);
    assert_eq!(book.volume_at(p(22)), before);
}

#[test]
fn buying_nothing_is_filled_without_trades() {
    let mut book = sample_book();
    let mut fills = Vec::new();
    let res = book.execute_market_buy(o(100), v(0), b(0), &mut fills);
    assert_eq!(res, TxnOutcome::Filled { new_best_price: p(35) });
    assert!(fills.is_empty());
    assert_eq!(book.ask_volume(), v(100));
    assert_eq!(book.best_ask(), p(35));

    let mut empty = OrderBook::default();
    let res = empty.execute_market_buy(o(100), v(0), b(0), &mut fills);
    assert_eq!(
        res,
        TxnOutcome::MarketVolumeExhausted {
            volume_transacted: v(0)
        }
    );
}

#[test]
fn a_trade_that_ends_the_taker_completes_both_sides() {
    // the level holds exactly what the taker wants, and another level follows
    let mut book = OrderBook::new();
    book.add_ask(p(10), q(1, 10));
    book.add_ask(p(10), q(2, 10));
    book.add_ask(p(11), q(3, 10));
    let mut fills = Vec::new();
    let res = book.execute_market_buy(o(100), v(20), b(1_000), &mut fills);
    assert_eq!(res, TxnOutcome::Filled { new_best_price: p(11) });
    assert_eq!(
        fills,
        vec![
            trade(1, 100, 10, 10, MatchType::MakerFilled),
            trade(2, 100, 10, 10, MatchType::BothFilled),
        ]
    );
    assert_eq!(book.best_ask(), p(11));
    assert_eq!(book.queue_len_at(p(10)), 0);

    // no level follows: the side has run out
    let mut book = OrderBook::new();
    book.add_bid(p(10), q(1, 10));
    let mut fills = Vec::new();
    let res = book.execute_market_sell(o(100), v(10), &mut fills);
    assert_eq!(
        res,
        TxnOutcome::MarketVolumeExhausted {
            volume_transacted: v(10)
        }
    );
    assert_eq!(fills, vec![trade(1, 100, 10, 10, MatchType::BothFilled)]);
    assert_eq!(book.best_bid(), p(0));
}

#[test]
fn a_buy_that_cannot_be_paid_changes_nothing() {
    let mut book = sample_book();
    let mut fills = Vec::new();
    // 10 * 35 + 20 * 40 + 5 * 45 = 1375
    let res = book.execute_market_buy(o(100), v(35), b(1_374), &mut fills);
    assert_eq!(res, TxnOutcome::FailedInsufficientFunds);
    assert!(fills.is_empty());
    assert_eq!(book.ask_volume(), v(100));
    assert_eq!(book.best_ask(), p(35));
    assert_eq!(book.quotes_at(p(35)), vec![q(5, 10)]);

    let res = book.execute_market_buy(o(101), v(35), b(1_375), &mut fills);
    assert_eq!(res, TxnOutcome::Filled { new_best_price: p(45) });
    assert_eq!(traded(&fills), 35);

    // a cost beyond 64 bits is beyond any balance
    let mut book = OrderBook::new();
    book.add_ask(p(u64::MAX - 1), q(1, u64::MAX));
    let mut fills = Vec::new();
    let res = book.execute_market_buy(o(100), v(u64::MAX), b(u64::MAX), &mut fills);
    assert_eq!(res, TxnOutcome::FailedInsufficientFunds);
}

#[test]
fn a_buy_for_more_than_the_asks_hold_pays_for_what_they_hold() {
    let mut book = sample_book();
    let mut fills = Vec::new();
    // all the asks cost 10 * 35 + 20 * 40 + 30 * 45 + 40 * 50 = 4500
    let res = book.execute_market_buy(o(100), v(1_000), b(4_499), &mut fills);
    assert_eq!(res, TxnOutcome::FailedInsufficientFunds);
    let res = book.execute_market_buy(o(100), v(1_000), b(4_500), &mut fills);
    assert_eq!(
        res,
        TxnOutcome::MarketVolumeExhausted {
            volume_transacted: v(100)
        }
    );
}

#[test]
fn limit_order_rests_what_is_left() {
    let mut book = sample_book();
    let mut fills = Vec::new();
    book.execute_limit_sell_order(o(100), p(22), v(50), &mut fills);
    assert_eq!(fills, vec![trade(4, 100, 25, 10, MatchType::MakerFilled)]);
    assert_eq!(book.quotes_at(p(22)), vec![q(100, 40)]);
    assert_eq!(book.best_ask(), p(22));
    assert_eq!(book.best_bid(), p(20));
    assert_eq!(book.volume_at(p(25)), v(0));

    // against an empty side the whole order rests
    let mut book = OrderBook::new();
    let mut fills = Vec::new();
    book.execute_limit_buy_order(o(7), p(9), v(3), &mut fills);
    assert!(fills.is_empty());
    assert_eq!(book.best_bid(), p(9));
    assert_eq!(book.best_ask(), p(u64::MAX));
    assert_eq!(book.quotes_at(p(9)), vec![q(7, 3)]);
}

#[test]
fn limit_order_that_fills_rests_nothing() {
    let mut book = sample_book();
    let mut fills = Vec::new();
    book.execute_limit_buy_order(o(100), p(45), v(12), &mut fills);
    assert_eq!(
        fills,
        vec![
            trade(5, 100, 35, 10, MatchType::MakerFilled),
            trade(6, 100, 40, 2, MatchType::TakerFilled),
        ]
    );
    assert_eq!(book.best_ask(), p(40));
    assert_eq!(book.best_bid(), p(25));
    assert_eq!(book.volume_at(p(45)), v(30));
    assert_eq!(book.quotes_at(p(45)), vec![q(7, 30)]);
}

#[test]
fn limit_order_stopped_at_its_limit_with_nothing_left_rests_an_empty_quote() {
    let mut book = sample_book();
    let mut fills = Vec::new();
    book.execute_limit_buy_order(o(100), p(37), v(10), &mut fills);
    assert_eq!(fills, vec![trade(5, 100, 35, 10, MatchType::BothFilled)]);
    assert_eq!(book.best_ask(), p(40));
    assert_eq!(book.best_bid(), p(37));
    assert_eq!(book.quotes_at(p(37)), vec![q(100, 0)]);
    assert_eq!(book.volume_at(p(37)), v(0));
}

#[test]
fn sides_are_listed_from_the_best_price_outwards() {
    let book = sample_book();
    assert_eq!(
        book.ask_levels(),
        vec![(p(35), v(10)), (p(40), v(20)), (p(45), v(30)), (p(50), v(40))]
    );
    assert_eq!(
        book.bid_levels(),
        vec![(p(25), v(10)), (p(20), v(20)), (p(15), v(30)), (p(10), v(40))]
    );
    let empty = OrderBook::new();
    assert!(empty.ask_levels().is_empty());
    assert!(empty.bid_levels().is_empty());
    assert_eq!(empty.ask_volume(), v(0));
}

#[test]
fn an_emptied_level_stays_on_the_ladder() {
    let mut book = sample_book();
    let mut fills = Vec::new();
    book.execute_market_buy(o(100), v(10), b(1_000), &mut fills);
    // the level at 35 was consumed whole; the walk ended at the next one
    assert_eq!(book.best_ask(), p(40));
    assert_eq!(book.volume_at(p(35)), v(0));
    // a quote that joins it again opens it anew, as the best ask
    assert!(matches!(book.add_ask(p(35), q(9, 1)), Outcome::PlacedNewBest));
    assert!(matches!(book.add_ask(p(35), q(10, 1)), Outcome::PlacedExisting));
    assert!(matches!(book.add_ask(p(60), q(11, 1)), Outcome::PlacedNew));
    assert_eq!(book.best_ask(), p(35));
}

#[test]
fn a_copy_of_the_book_goes_its_own_way() {
    let mut book = sample_book();
    let copy = book.clone();
    let mut fills = Vec::new();
    book.execute_market_buy(o(100), v(15), b(1_000), &mut fills);
    assert_eq!(copy.best_ask(), p(35));
    assert_eq!(copy.ask_volume(), v(100));
    assert_eq!(copy.quotes_at(p(35)), vec![q(5, 10)]);
    assert_eq!(book.ask_volume(), v(85));
}
