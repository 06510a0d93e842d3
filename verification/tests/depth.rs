use cambiare::depth::DepthBook;
use cambiare::{Outcome, Price, Volume};

fn p(v: u64) -> Price {
    Price::new(v)
}

fn v(v: u64) -> Volume {
    Volume::new(v)
}

#[test]
fn main_test_insert_bids_asks_simple() {
    let mut ob = DepthBook::new();
    assert!(matches!(ob.add_bid(p(100), v(200)), Outcome::PlacedNewBest));
    assert!(matches!(ob.add_bid(p(50), v(100)), Outcome::PlacedNew));
    assert!(matches!(
        ob.add_bid(p(100), v(300)),
        Outcome::PlacedExisting
    ));
    assert!(matches!(ob.add_ask(p(101), v(300)), Outcome::PlacedNewBest));
    assert!(matches!(
        ob.add_ask(p(101), v(300)),
        Outcome::PlacedExisting
    ));
    assert_eq!(ob.spread(), p(1));
    assert!(matches!(ob.add_bid(p(101), v(100)), Outcome::CrossedSpread));
    assert!(matches!(ob.add_ask(p(100), v(100)), Outcome::CrossedSpread));
}

#[test]
fn test_execute_best_price() {
    let mut ob = DepthBook::new();
    ob.add_bid(p(10), v(30));
    ob.add_bid(p(11), v(20));
    ob.add_bid(p(12), v(10));

    ob.add_ask(p(13), v(10));
    ob.add_ask(p(14), v(20));
    ob.add_ask(p(15), v(30));

    assert_eq!(ob.spread(), p(1));

    ob.execute_buy_best_price(v(25)).expect("buy failed");
    assert_eq!(ob.spread(), p(2));
    ob.execute_sell_best_price(v(25)).expect("sell failed");
    assert_eq!(ob.spread(), p(3));

    assert_eq!(ob.execute_buy_best_price(v(100)), Err(v(65)));
    assert_eq!(ob.execute_sell_best_price(v(200)), Err(v(165)));
}

#[test]
fn depth_levels_keep_what_was_not_taken() {
    let mut ob = DepthBook::new();
    ob.add_ask(p(13), v(10));
    ob.add_ask(p(14), v(20));
    assert_eq!(ob.volume_at(p(13)), v(10));
    assert_eq!(ob.volume_at(p(12)), v(0));

    assert_eq!(ob.execute_buy_best_price(v(10)), Ok(()));
    assert_eq!(ob.volume_at(p(13)), v(0));
    assert_eq!(ob.volume_at(p(14)), v(20));

    // an emptied level that is joined again counts as new
    assert!(matches!(ob.add_ask(p(13), v(5)), Outcome::PlacedNew));
    assert_eq!(ob.volume_at(p(13)), v(5));
}

#[test]
fn depth_order_for_nothing() {
    let mut ob = DepthBook::new();
    assert_eq!(ob.execute_buy_best_price(v(0)), Err(v(0)));
    assert_eq!(ob.execute_sell_best_price(v(0)), Err(v(0)));
    ob.add_ask(p(20), v(10));
    ob.add_bid(p(10), v(10));
    assert_eq!(ob.execute_buy_best_price(v(0)), Ok(()));
    assert_eq!(ob.execute_sell_best_price(v(0)), Ok(()));
    assert_eq!(ob.spread(), p(10));
}

#[test]
fn depth_exhausted_side_keeps_its_best_price() {
    let mut ob = DepthBook::new();
    ob.add_bid(p(10), v(5));
    ob.add_ask(p(20), v(5));
    assert_eq!(ob.execute_buy_best_price(v(7)), Err(v(2)));
    assert_eq!(ob.spread(), p(10));
    assert_eq!(ob.volume_at(p(20)), v(0));
}
