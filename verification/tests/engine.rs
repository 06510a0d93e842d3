use cambiare::{
    Balance, Cancellation, Match, MatchType, Order, OrderBook, OrderId, OrderType, Price,
    Response, TxnOutcome, Volume,
};

fn p(v: u64) -> Price {
    Price::new(v)
}

fn v(v: u64) -> Volume {
    Volume::new(v)
}

fn o(v: u64) -> OrderId {
    OrderId::new(v)
}

fn mm(maker: u64, taker: u64, price: u64, vol: u64) -> Match {
    Match::new(o(maker), o(taker), p(price), v(vol), MatchType::MakerFilled)
}

fn mt(maker: u64, taker: u64, price: u64, vol: u64) -> Match {
    Match::new(o(maker), o(taker), p(price), v(vol), MatchType::TakerFilled)
}

fn olb(id: u64, price: u64, vol: u64) -> Order {
    Order {
        id: o(id),
        typ: OrderType::LimitBuy {
            price: p(price),
            volume: v(vol),
        },
    }
}

fn ols(id: u64, price: u64, vol: u64) -> Order {
    Order {
        id: o(id),
        typ: OrderType::LimitSell {
            price: p(price),
            volume: v(vol),
        },
    }
}

fn omb(id: u64, vol: u64) -> Order {
    Order {
        id: o(id),
        typ: OrderType::MarketBuy {
            target_base_qty: v(vol),
            available_quote_balance: Balance::new(1_000_000),
        },
    }
}

fn oms(id: u64, vol: u64) -> Order {
    Order {
        id: o(id),
        typ: OrderType::MarketSell { base_qty: v(vol) },
    }
}

fn run(book: &mut OrderBook, order: Order) -> (Response, Vec<Match>) {
    assert!(book.admits(&order));
    let mut buffer = Vec::new();
    let response = book.apply(order, &mut buffer);
    (response, buffer)
}

#[test]
fn engine_applies_commands_in_arrival_order() {
    let mut book = OrderBook::new();

    // three limit orders rest
    for order in [olb(101, 10, 10), olb(102, 9, 20), olb(103, 8, 30)] {
        let (response, fills) = run(&mut book, order);
        assert!(matches!(response, Response::Placed));
        assert!(fills.is_empty());
    }
    {
        // market sell
        let (response, fills) = run(&mut book, oms(104, 31));
        assert!(matches!(
            response,
            Response::Executed(TxnOutcome::Filled { new_best_price }) if new_best_price == p(8)
        ));
        assert_eq!(
            fills,
            vec![mm(101, 104, 10, 10), mm(102, 104, 9, 20), mt(103, 104, 8, 1)]
        );
    }
    {
        // limit sell
        let (response, fills) = run(&mut book, ols(201, 5, 100));
        assert!(matches!(response, Response::Placed));
        assert_eq!(fills, vec![mm(103, 201, 8, 29)]);
    }
    {
        // market buy
        let (response, fills) = run(&mut book, omb(301, 200));
        assert!(matches!(
            response,
            Response::Executed(TxnOutcome::MarketVolumeExhausted { volume_transacted })
                if volume_transacted == v(71)
        ));
        assert_eq!(fills, vec![mm(201, 301, 5, 71)]);
    }
}

#[test]
fn engine_appends_to_the_buffer() {
    let mut book = OrderBook::new();
    let mut buffer = vec![mm(1, 2, 3, 4)];
    book.apply(ols(10, 50, 5), &mut buffer);
    book.apply(omb(11, 2), &mut buffer);
    assert_eq!(buffer, vec![mm(1, 2, 3, 4), mt(10, 11, 50, 2)]);
}

#[test]
fn engine_cancels_without_trades() {
    let mut book = OrderBook::new();
    run(&mut book, ols(10, 50, 5));
    let cancel = Order {
        id: o(12),
        typ: OrderType::Cancel {
            price: p(50),
            order_id: o(10),
        },
    };
    let (response, fills) = run(&mut book, cancel);
    assert!(matches!(
        response,
        Response::Cancelled(Cancellation::WasCancelled)
    ));
    assert!(fills.is_empty());
    let (response, fills) = run(&mut book, cancel);
    assert!(matches!(
        response,
        Response::Cancelled(Cancellation::NotFound)
    ));
    assert!(fills.is_empty());
    assert_eq!(book.volume_at(p(50)), v(0));
}

#[test]
fn engine_hands_out_a_copy_of_the_book() {
    let mut book = OrderBook::new();
    run(&mut book, ols(10, 50, 5));
    run(&mut book, olb(11, 40, 7));
    let snapshot = Order {
        id: o(0xbeef),
        typ: OrderType::SendSnapshot,
    };
    let (response, fills) = run(&mut book, snapshot);
    assert!(fills.is_empty());
    let copy = match response {
        Response::Snapshot(copy) => copy,
        other => panic!("expected a snapshot, got {:?}", other),
    };
    run(&mut book, omb(12, 5));
    assert_eq!(copy.best_ask(), p(50));
    assert_eq!(copy.best_bid(), p(40));
    assert_eq!(copy.ask_levels(), vec![(p(50), v(5))]);
    assert_eq!(copy.bid_levels(), vec![(p(40), v(7))]);
    assert_eq!(book.best_ask(), p(u64::MAX));
}

#[test]
fn engine_turns_away_limit_orders_it_cannot_rest() {
    let mut book = OrderBook::new();
    run(&mut book, olb(1, 10, u64::MAX - 5));
    assert!(book.admits(&olb(2, 10, 5)));
    assert!(!book.admits(&olb(2, 10, 6)));
    assert!(!book.admits(&olb(u64::MAX, 9, 1)));
    assert!(!book.admits(&olb(3, u64::MAX, 1)));
    assert!(book.admits(&olb(3, 0, 1)));
    assert!(!book.admits(&ols(4, 0, 1)));
    assert!(book.admits(&ols(4, u64::MAX, 1)));
    assert!(book.admits(&oms(u64::MAX, 1)));
    assert!(book.admits(&omb(5, 0)));
}
