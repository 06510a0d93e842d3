use cambiare::{
    Balance, Cancellation, Match, MatchType, OrderBook, OrderId, Outcome, Price, Quote,
    TxnOutcome, Volume, TOMBSTONE_GC_LIMIT,
};

fn b(v: u64) -> Balance {
    Balance::new(v)
}

fn p(v: u64) -> Price {
    Price::new(v)
}

fn v(v: u64) -> Volume {
    Volume::new(v)
}

fn o(v: u64) -> OrderId {
    OrderId::new(v)
}

fn mm(maker: u64, taker: u64, price: u64, vol: u64) -> Match {
    Match::new(o(maker), o(taker), p(price), v(vol), MatchType::MakerFilled)
}

fn mt(maker: u64, taker: u64, price: u64, vol: u64) -> Match {
    Match::new(o(maker), o(taker), p(price), v(vol), MatchType::TakerFilled)
}

fn mb(maker: u64, taker: u64, price: u64, vol: u64) -> Match {
    Match::new(o(maker), o(taker), p(price), v(vol), MatchType::BothFilled)
}

fn q(q: u64, v: u64) -> Quote {
    Quote::new(OrderId::new(q), Volume::new(v))
}

fn quick_book() -> OrderBook {
    let mut ob = OrderBook::new();
    ob.add_bid(p(10), q(1, 40));
    ob.add_bid(p(15), q(2, 30));
    ob.add_bid(p(20), q(3, 20));
    ob.add_bid(p(25), q(4, 10));

    ob.add_ask(p(35), q(5, 10));
    ob.add_ask(p(40), q(6, 20));
    ob.add_ask(p(45), q(7, 30));
    ob.add_ask(p(50), q(8, 40));
    ob
}

#[test]
fn order_book_test_insert_bids_asks_simple() {
    let mut ob = OrderBook::new();
    assert!(matches!(
        ob.add_bid(p(100), q(1, 200)),
        Outcome::PlacedNewBest
    ));
    assert!(matches!(ob.add_bid(p(50), q(2, 100)), Outcome::PlacedNew));
    assert!(matches!(
        ob.add_bid(p(100), q(3, 300)),
        Outcome::PlacedExisting
    ));
    assert!(matches!(
        ob.add_ask(p(101), q(4, 300)),
        Outcome::PlacedNewBest
    ));
    assert!(matches!(
        ob.add_ask(p(101), q(5, 300)),
        Outcome::PlacedExisting
    ));
    assert_eq!(ob.spread(), p(1));
    assert!(matches!(
        ob.add_bid(p(101), q(6, 100)),
        Outcome::CrossedSpread
    ));
    assert!(matches!(
        ob.add_ask(p(100), q(7, 100)),
        Outcome::CrossedSpread
    ));
}

#[test]
fn test_execute_market_buy() {
    let mut ob = quick_book();

    assert_eq!(ob.spread(), p(10));

    {
        let mut matches = Vec::new();
        ob.execute_market_buy(o(100), v(1), b(10000), &mut matches)
            .filled();
        let expect_fills = &[mt(5, 100, 35, 1)];
        assert_eq!(matches, expect_fills);
        assert_eq!(ob.best_ask(), p(35));
    }
    {
        let mut matches = Vec::new();
        ob.execute_market_buy(o(101), v(24), b(10000), &mut matches)
            .filled();
        let expect_fills = &[mm(5, 101, 35, 9), mt(6, 101, 40, 15)];
        assert_eq!(matches, expect_fills);
        assert_eq!(ob.best_ask(), p(40));
    }
    {
        let mut matches = Vec::new();
        ob.execute_market_buy(o(102), v(5), b(10000), &mut matches)
            .filled();
        let expect_fills = &[mb(6, 102, 40, 5)];
        assert_eq!(matches, expect_fills);
        assert_eq!(ob.best_ask(), p(45));
    }
    {
        let mut matches = Vec::new();
        let filled_vol = ob
            .execute_market_buy(o(103), v(500), b(10000), &mut matches)
            .exhausted();
        assert_eq!(filled_vol, v(70));
        let expect_fills = &[mm(7, 103, 45, 30), mm(8, 103, 50, 40)];
        assert_eq!(matches, expect_fills);
        assert_eq!(ob.best_ask(), p(u64::MAX));
    }
}

#[test]
fn test_execute_market_partial() {
    let mut book = OrderBook::new();
    book.add_ask(p(10), q(1, 10));
    book.add_ask(p(10), q(2, 10));
    book.add_ask(p(10), q(3, 10));

    {
        let mut fills = Vec::new();
        let res = book.execute_market_buy(o(100), v(11), b(10000), &mut fills);
        assert_eq!(
            res,
            TxnOutcome::Filled {
                new_best_price: p(10)
            }
        );
        let expect_fills = &[mm(1, 100, 10, 10), mt(2, 100, 10, 1)];
        assert_eq!(fills, expect_fills);
        assert_eq!(book.ask_volume(), v(19));
    }
    {
        let mut fills = Vec::new();
        let res = book.execute_market_buy(o(101), v(9), b(10000), &mut fills);
        assert_eq!(
            res,
            TxnOutcome::Filled {
                new_best_price: p(10)
            }
        );
        let expect_fills = &[mb(2, 101, 10, 9)];
        assert_eq!(fills, expect_fills);
    }
}

#[test]
fn test_execute_market_sell_simple() {
    let mut ob = quick_book();
    {
        let mut matches = Vec::new();
        let res = ob.execute_market_sell(o(100), v(90), &mut matches);
        assert_eq!(res.filled(), p(10));
        assert_eq!(
            matches,
            &[
                mm(4, 100, 25, 10),
                mm(3, 100, 20, 20),
                mm(2, 100, 15, 30),
                mt(1, 100, 10, 30)
            ]
        )
    }
    {
        let mut fills = Vec::new();
        let res = ob.execute_market_sell(o(101), v(22), &mut fills);
        assert_eq!(res.exhausted(), v(10));
        assert_eq!(fills, &[mm(1, 101, 10, 10)])
    }
}

#[test]
fn test_zero_volume_scenarios() {
    let mut book = OrderBook::new();
    let mut matches = Vec::new();
    {
        book.execute_market_buy(o(100), v(0), b(10000), &mut matches)
            .exhausted();
        book.execute_market_sell(o(101), v(0), &mut matches)
            .exhausted();
    }
    {
        book.execute_market_buy(o(102), v(10), b(10000), &mut matches)
            .exhausted();
        book.execute_market_sell(o(103), v(10), &mut matches)
            .exhausted();
    }
    {
        book.add_ask(p(20), q(1, 10));
        book.add_bid(p(10), q(1, 10));
        book.execute_market_buy(o(104), v(0), b(10000), &mut matches)
            .filled();
        book.execute_market_sell(o(105), v(0), &mut matches)
            .filled();
    }
}

#[test]
fn test_order_cancellation() {
    let mut book = quick_book();
    assert!(matches!(
        book.cancel(p(15), o(2)),
        Cancellation::WasCancelled
    ));
    assert!(matches!(book.cancel(p(15), o(2)), Cancellation::NotFound));
    assert!(matches!(book.cancel(p(20), o(222)), Cancellation::NotFound));
    assert!(matches!(
        book.cancel(p(35), o(5)),
        Cancellation::WasCancelled
    ));
    assert_eq!(book.ask_volume(), v(90));
    let mut fills = Vec::new();
    book.execute_market_buy(o(100), v(1), b(10000), &mut fills)
        .filled();
    assert_eq!(fills, &[mt(6, 100, 40, 1)]);
}

#[test]
fn test_compactify() {
    let mut book = quick_book();
    for id in 0..TOMBSTONE_GC_LIMIT - 1 {
        // build up a load of tombstones
        book.add_ask(p(30), q((id + 20) as u64, 10));
        book.cancel(p(30), o((id + 20) as u64));
    }
    {
        assert_eq!(book.queue_len_at(p(30)), TOMBSTONE_GC_LIMIT - 1);
        assert_eq!(book.tombstones_at(p(30)), TOMBSTONE_GC_LIMIT - 1);
    }
    // trigger a compactification
    book.add_ask(p(30), q(333333, 10));
    book.cancel(p(30), o(333333));
    {
        assert_eq!(book.queue_len_at(p(30)), 0);
        assert_eq!(book.tombstones_at(p(30)), 0);
    }
}

#[test]
fn test_simple_limit_buy() {
    let mut book = quick_book();
    {
        let mut fills = Vec::new();
        book.execute_limit_buy_order(o(100), p(38), v(50), &mut fills);
        assert_eq!(fills, &[mm(5, 100, 35, 10)]);
        assert_eq!(book.best_bid(), p(38));
        assert_eq!(book.best_ask(), p(40));
    }
    {
        let mut fills = Vec::new();
        book.execute_limit_buy_order(o(101), p(40), v(1), &mut fills);
        assert_eq!(fills, &[mt(6, 101, 40, 1)])
    }
}

#[test]
fn test_simple_limit_sell() {
    let mut book = quick_book();
    {
        let mut matches = Vec::new();
        book.execute_limit_sell_order(o(100), p(22), v(50), &mut matches);
        assert_eq!(matches, &[mm(4, 100, 25, 10)]);
        assert_eq!(book.best_bid(), p(20));
        assert_eq!(book.best_ask(), p(22));
    }
    {
        let mut matches = Vec::new();
        book.execute_limit_sell_order(o(101), p(20), v(1), &mut matches);
        assert_eq!(matches, &[mt(3, 101, 20, 1)])
    }
}

#[test]
fn test_market_buy_balance_limited() {
    let mut book = quick_book();
    let mut matches = Vec::new();
    book.execute_market_buy(o(101), v(10), b(1), &mut matches)
        .failed();
    book.execute_market_buy(o(102), v(10), b(349), &mut matches)
        .failed();
    book.execute_market_buy(o(103), v(10), b(350), &mut matches)
        .filled();
    // 20 * 40 + 5 * 45 = 1025
    book.execute_market_buy(o(104), v(25), b(1000), &mut matches)
        .failed();
    book.execute_market_buy(o(105), v(25), b(1050), &mut matches)
        .filled();
    // finish rest
    book.execute_market_buy(o(106), v(500), b(10000), &mut matches)
        .exhausted();
}
