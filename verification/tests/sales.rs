use gatetrader::amount::Amount;
use gatetrader::rest::{CurrencyPair, Order, SpotAccount, SpotTicker};
use gatetrader::sale::{
    print_balance, sell, sell_all_pairs, sell_at_market, sell_for, sold, SellError,
};

fn amount(mantissa: i128, scale: u32) -> Amount {
    Amount::new(mantissa, scale).unwrap()
}

fn pair(min_base: Option<Amount>, min_quote: Option<Amount>) -> CurrencyPair {
    CurrencyPair {
        id: "ERG_USDT".to_string(),
        base: "ERG".to_string(),
        quote: "USDT".to_string(),
        fee: "0.2".to_string(),
        min_base_amount: min_base,
        min_quote_amount: min_quote,
        amount_precision: 3,
        precision: 4,
        trade_status: "tradable".to_string(),
        sell_start: 0,
        buy_start: 0,
    }
}

fn ticker(highest_bid: Amount) -> SpotTicker {
    SpotTicker {
        currency_pair: "ERG_USDT".to_string(),
        last: amount(1, 0),
        lowest_ask: amount(2, 0),
        highest_bid,
        change_percentage: amount(3, 0),
        base_volume: amount(4, 0),
        quote_volume: amount(5, 0),
        high_24h: amount(6, 0),
        low_24h: amount(7, 0),
        etf_net_value: amount(8, 0),
        etf_pre_net_value: amount(9, 0),
        etf_pre_timestamp: 10,
        etf_leverage: amount(11, 0),
    }
}

fn order(id: Option<&str>) -> Order {
    Order {
        id: id.map(|i| i.to_string()),
        text: None,
        create_time: 1,
        update_time: 2,
        status: "closed".to_string(),
        currency_pair: "ERG_USDT".to_string(),
        order_type: None,
        account: None,
        side: "sell".to_string(),
        amount: amount(0, 0),
        price: amount(0, 0),
        time_in_force: None,
        iceberg: None,
        auto_borrow: None,
        left: amount(0, 0),
        filled_total: amount(0, 0),
        fee: amount(0, 0),
        fee_currency: "USDT".to_string(),
        point_fee: amount(0, 0),
        gt_fee: amount(0, 0),
        gt_discount: false,
        rebated_fee: amount(0, 0),
        rebated_fee_currency: "USDT".to_string(),
    }
}

fn account(currency: &str, available: Amount, locked: Amount) -> SpotAccount {
    SpotAccount { currency: currency.to_string(), available, locked }
}

fn traded(pairs: &[(&str, &str)]) -> Vec<(String, String)> {
    pairs.iter().map(|p| (p.0.to_string(), p.1.to_string())).collect()
}

#[test]
fn nothing_is_sold_without_funds() {
    let info = pair(None, None);
    assert!(sell(&amount(0, 4), &info).is_none());
    assert!(sell(&amount(-1, 0), &info).is_none());
    assert_eq!(sell(&amount(1, 28), &info).unwrap().currency_pair, "ERG_USDT");
}

#[test]
fn small_amounts_are_kept() {
    let info = pair(Some(amount(5, 1)), None);
    assert!(sell(&amount(49, 2), &info).is_none());
    assert!(sell(&amount(50, 2), &info).is_some());
    assert!(sell(&amount(51, 2), &info).is_some());
}

#[test]
fn order_is_a_limit_order_at_the_highest_bid_of_the_last_ticker() {
    let info = pair(Some(amount(1, 0)), Some(amount(2625, 3)));
    let tickers = vec![ticker(amount(9, 0)), ticker(amount(25, 1))];
    let sale = sell_at_market(&amount(105, 2), &info, &tickers).unwrap().unwrap();
    assert_eq!((sale.total.mantissa(), sale.total.scale()), (2625, 3));
    assert_eq!(sale.order.currency_pair, "ERG_USDT");
    assert_eq!(sale.order.order_type.as_deref(), Some("limit"));
    assert_eq!(sale.order.account.as_deref(), Some("spot"));
    assert_eq!(sale.order.side, "sell");
    assert_eq!(sale.order.amount.text(), "1.05");
    assert_eq!(sale.order.price.text(), "2.5");
    assert!(sale.order.text.is_none());
    assert!(sale.order.time_in_force.is_none());
    assert!(sale.order.iceberg.is_none());
    assert!(sale.order.auto_borrow.is_none());
}

#[test]
fn orders_that_bring_too_little_are_not_placed() {
    let tickers = vec![ticker(amount(25, 1))];
    let info = pair(None, Some(amount(2626, 3)));
    assert!(sell_at_market(&amount(105, 2), &info, &tickers).unwrap().is_none());
    let info = pair(None, Some(amount(262500, 5)));
    assert!(sell_at_market(&amount(105, 2), &info, &tickers).unwrap().is_some());
}

#[test]
fn sale_needs_a_ticker() {
    let info = pair(None, None);
    let error = sell_at_market(&amount(1, 0), &info, &vec![]).unwrap_err();
    assert_eq!(error, SellError::NoTicker);
    assert_eq!(error.message(), "No info about the currency pair");
}

#[test]
fn sale_needs_a_total() {
    let info = pair(None, None);
    let largest = amount(79228162514264337593543950335, 0);
    let error = sell_at_market(&largest, &info, &vec![ticker(amount(2, 0))]).unwrap_err();
    assert_eq!(error, SellError::TotalOverflow);
    assert_eq!(error.message(), "Multiplication overflowed");
}

#[test]
fn rounded_totals_count() {
    let info = pair(None, Some(amount(2, 28)));
    let sale = sell_at_market(&amount(15, 1), &info, &vec![ticker(amount(1, 28))]);
    assert_eq!(sale.unwrap().unwrap().total.text(), "0.0000000000000000000000000002");
}

#[test]
fn given_total_decides() {
    let info = pair(None, Some(amount(10, 0)));
    assert!(sell_for(&amount(1, 0), &info, &amount(2, 0), &amount(99, 1)).is_none());
    let sale = sell_for(&amount(1, 0), &info, &amount(2, 0), &amount(10, 0)).unwrap();
    assert_eq!(sale.total.text(), "10");
    assert_eq!(sale.order.price.text(), "2");
    assert_eq!(sale.order.amount.text(), "1");
}

#[test]
fn sale_note_says_what_went_for_what() {
    let info = pair(None, None);
    let sale = sell_at_market(&amount(105, 2), &info, &vec![ticker(amount(25, 1))]);
    let sale = sale.unwrap().unwrap();
    assert_eq!(
        sold(&order(Some("12332324")), &info, &sale),
        "#12332324 Sell 1.05 ERG => 2.625 USDT @ 2.5 USDT"
    );
    assert_eq!(sold(&order(None), &info, &sale), "#? Sell 1.05 ERG => 2.625 USDT @ 2.5 USDT");
}

#[test]
fn plan_takes_the_first_pair_of_each_coin_with_funds() {
    let accounts = vec![
        account("BTC", amount(0, 8), amount(1, 0)),
        account("ERG", amount(15, 1), amount(0, 0)),
        account("DOGE", amount(9, 0), amount(0, 0)),
        account("ETH", amount(2, 0), amount(0, 0)),
        account("ERG", amount(-1, 0), amount(0, 0)),
    ];
    let pairs = traded(&[("ETH", "USDT"), ("ERG", "USDT"), ("ERG", "BTC"), ("BTC", "USDT")]);
    let plan = sell_all_pairs(&accounts, &pairs);
    let plan: Vec<(String, String)> = plan.into_iter().map(|p| (p.0, p.1.text())).collect();
    assert_eq!(
        plan,
        vec![
            ("spot/currency_pairs/ERG_USDT".to_string(), "1.5".to_string()),
            ("spot/currency_pairs/ETH_USDT".to_string(), "2".to_string()),
        ]
    );
}

#[test]
fn plan_without_pairs_or_accounts_is_empty() {
    let accounts = vec![account("ERG", amount(1, 0), amount(0, 0))];
    assert!(sell_all_pairs(&accounts, &vec![]).is_empty());
    assert!(sell_all_pairs(&vec![], &traded(&[("ERG", "USDT")])).is_empty());
}

#[test]
fn added_pair_keeps_earlier_sales() {
    let accounts = vec![account("ERG", amount(1, 0), amount(0, 0))];
    let before = sell_all_pairs(&accounts, &traded(&[("ERG", "USDT")]));
    let after = sell_all_pairs(&accounts, &traded(&[("ERG", "USDT"), ("ERG", "BTC")]));
    assert_eq!(before[0].0, after[0].0);
    assert_eq!(after.len(), 1);
}

#[test]
fn balances_are_shown_in_a_table() {
    let accounts = vec![
        account("ERG", amount(101174993000000000000, 20), amount(0, 0)),
        account("USDT", amount(123456789019, 10), amount(5, 1)),
    ];
    let rule = "=".repeat(54);
    let thin = "-".repeat(54);
    assert_eq!(
        print_balance(&accounts),
        format!(
            "{}\r\nCoin \t| Available \t| Locked\r\n{}\r\nERG \t| 1.01174993 \t| 0.00000000\r\nUSDT \t| 12.34567890 \t| 0.50000000\r\n{}\r\n",
            rule, thin, rule
        )
    );
    assert_eq!(
        print_balance(&vec![]),
        format!("{}\r\nCoin \t| Available \t| Locked\r\n{}\r\n{}\r\n", rule, thin, rule)
    );
}

#[test]
fn larger_amounts_are_sold_too() {
    let info = pair(Some(amount(1, 0)), Some(amount(2625, 3)));
    let tickers = vec![ticker(amount(25, 1))];
    for (mantissa, scale) in [(105, 2), (1050, 3), (1051, 3), (200, 0)] {
        let larger = amount(mantissa, scale);
        assert!(sell(&larger, &info).is_some());
        let sale = sell_at_market(&larger, &info, &tickers).unwrap().unwrap();
        assert_eq!(sale.order.amount.text(), larger.text());
        assert_eq!(sale.order.price.text(), "2.5");
    }
    assert!(sell_at_market(&amount(1049, 3), &info, &tickers).unwrap().is_none());
}

#[test]
fn total_rounded_to_zero_is_shown_with_its_sign() {
    let info = pair(None, None);
    let sale = sell_at_market(&amount(1 << 33, 28), &info, &vec![ticker(amount(-1, 28))]);
    let sale = sale.unwrap().unwrap();
    assert_eq!(
        sold(&order(None), &info, &sale),
        "#? Sell 0.0000000000000000008589934592 ERG => -0.0000000000000000000000000000 USDT @ -0.0000000000000000000000000001 USDT"
    );
}

#[test]
fn larger_amounts_are_sold_too_where_totals_are_rounded() {
    let info = pair(None, Some(amount(2, 28)));
    let tickers = vec![ticker(amount(1, 28))];
    assert!(sell_at_market(&amount(14, 1), &info, &tickers).unwrap().is_none());
    for (mantissa, scale) in [(15, 1), (151, 2), (16, 1), (2, 0), (24, 1), (3, 0)] {
        let sale = sell_at_market(&amount(mantissa, scale), &info, &tickers).unwrap().unwrap();
        assert_eq!(sale.order.price.text(), "0.0000000000000000000000000001");
    }
}
