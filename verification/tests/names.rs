use cambiare::accounts::{covers, AccountOrderType, Side};
use cambiare::pairs::{BadTradingPairError, Currency, TradingPair};
use cambiare::{Balance, Currency as Code, OrderId, Price, UserId, Volume};

#[test]
fn trading_pairs_are_read_from_their_names() {
    assert_eq!(
        TradingPair::parse("USD_GBP"),
        Some(TradingPair::new(Currency::USD, Currency::GBP))
    );
    assert_eq!(
        TradingPair::parse("eur_Jpy"),
        Some(TradingPair::new(Currency::EUR, Currency::JPY))
    );
    assert_eq!(
        "USD_EUR".parse::<TradingPair>(),
        Ok(TradingPair::new(Currency::USD, Currency::EUR))
    );
}

#[test]
fn names_of_no_trading_pair_are_turned_away() {
    assert_eq!(TradingPair::parse("USDXYZ"), None);
    assert_eq!(TradingPair::parse("USDGBP"), None);
    assert_eq!(TradingPair::parse("USD_XYZ"), None);
    assert_eq!(TradingPair::parse("XYZ_USD"), None);
    assert_eq!(TradingPair::parse("USD_GBP_EUR"), None);
    assert_eq!(TradingPair::parse("_USD"), None);
    assert_eq!(TradingPair::parse("USD_"), None);
    assert_eq!(TradingPair::parse("USD_GB"), None);
    assert_eq!(TradingPair::parse(""), None);
    assert_eq!(TradingPair::parse("U\u{17f}D_GBP"), None);
    assert_eq!("USD-GBP".parse::<TradingPair>(), Err(BadTradingPairError));
}

#[test]
fn orders_take_the_side_of_their_kind() {
    let qty = Volume::new(1);
    let price = Price::new(1);
    assert_eq!(AccountOrderType::MarketBuy { base_qty: qty }.side(), Side::Buy);
    assert_eq!(AccountOrderType::MarketBuyQ { quote_qty: qty }.side(), Side::Buy);
    assert_eq!(
        AccountOrderType::LimitBuy { volume: qty, price }.side(),
        Side::Buy
    );
    assert_eq!(AccountOrderType::MarketSell { base_qty: qty }.side(), Side::Sell);
    assert_eq!(
        AccountOrderType::MarketSellQ { quote_qty: qty }.side(),
        Side::Sell
    );
    assert_eq!(
        AccountOrderType::LimitSell { volume: qty, price }.side(),
        Side::Sell
    );
}

#[test]
fn a_balance_covers_what_it_holds() {
    assert!(covers(Some(Balance::new(10)), 10));
    assert!(covers(Some(Balance::new(10)), 0));
    assert!(!covers(Some(Balance::new(10)), 11));
    assert!(!covers(None, 0));
}

#[test]
fn currencies_carry_their_code() {
    assert_eq!(Code::new("GBP").code(), "GBP");
    assert_eq!(Code::default().code(), "");
    assert!(Code::new("EUR") < Code::new("GBP"));
}

#[test]
fn quantities_add_and_subtract_within_their_kind() {
    assert_eq!(Price::new(7) + Price::new(5), Price::new(12));
    assert_eq!(Volume::new(7) - Volume::new(5), Volume::new(2));
    let mut held = Balance::new(10);
    held += Balance::new(5);
    assert_eq!(held, Balance::new(15));
    held -= Balance::new(15);
    assert_eq!(held, Balance::default());
    assert_eq!(u64::from(OrderId::from(42)), 42);
    assert_eq!(UserId::new(3).inner(), 3);
    assert!(Price::new(1) < Price::new(2));
    assert_eq!(Volume::from(9), Volume::new(9));
}
