use gatetrader::amount::Amount;
use gatetrader::rest::CurrencyPair;
use gatetrader::trader::sell_latest;
use gatetrader::ws::channels::{latest_balance, SpotBalance};
use gatetrader::ws::{ServerMessage, WsError, WsResponse};
use rust_decimal::Decimal;
use serde_json::Value;
use std::str::FromStr;

fn amount(text: &str) -> Amount {
    let decimal = Decimal::from_str(text).unwrap();
    Amount::new(decimal.mantissa(), decimal.scale()).unwrap()
}

fn field(value: &Value, name: &str) -> Option<Value> {
    value.get(name).cloned().filter(|v| !v.is_null())
}

fn text(value: &Value, name: &str) -> String {
    field(value, name).unwrap().as_str().unwrap().to_string()
}

fn response(json: &str) -> WsResponse {
    let value: Value = serde_json::from_str(json).unwrap();
    WsResponse {
        time: field(&value, "time").unwrap().as_u64().unwrap(),
        id: field(&value, "id").map(|v| v.as_u64().unwrap()),
        channel: text(&value, "channel"),
        event: text(&value, "event"),
        error: field(&value, "error").map(|v| WsError {
            code: v["code"].as_u64().unwrap(),
            message: text(&v, "message"),
        }),
        result: field(&value, "result"),
    }
}

fn balances(value: &Value) -> Vec<SpotBalance> {
    let items = value.as_array().unwrap();
    items
        .iter()
        .map(|b| SpotBalance {
            timestamp: u64::from_str(&text(b, "timestamp")).unwrap(),
            currency: text(b, "currency"),
            change: amount(&text(b, "change")),
            total: amount(&text(b, "total")),
            available: amount(&text(b, "available")),
        })
        .collect()
}

fn news(timestamp: u64, currency: &str, available: &str) -> SpotBalance {
    SpotBalance {
        timestamp,
        currency: currency.to_string(),
        change: Amount::zero(),
        total: Amount::zero(),
        available: amount(available),
    }
}

#[test]
fn ws_response_de() {
    const JSON: &str = "{\"time\":1621262774,\"channel\":\"spot.balances\",\"event\":\"update\",\"result\":[{\"timestamp\":\"1621262774\",\"timestamp_ms\":\"1621262774038\",\"user\":\"2851747\",\"currency\":\"ERG\",\"change\":\"1.010939090000\",\"total\":\"1.01174993000000000000\",\"available\":\"1.01174993000000000000\"}]}";
    let resp: ServerMessage = ServerMessage::deserialize(response(JSON)).unwrap();
    println!("{:?}", resp);
    assert_eq!(resp.time, 1621262774);
    assert_eq!(resp.id, None);
    assert_eq!(resp.which.channel, "spot.balances");
    assert_eq!(resp.which.event, "update");
    let content = resp.content.unwrap();
    assert_eq!(balances(&content)[0].available, amount("1.01174993"));
}

#[test]
fn spot_balance_de() {
    const JSON: &str = "[{\"timestamp\":\"1621262774\",\"timestamp_ms\":\"1621262774038\",\"user\":\"2851747\",\"currency\":\"ERG\",\"change\":\"1.010939090000\",\"total\":\"1.01174993000000000000\",\"available\":\"1.01174993000000000000\"}]";
    let value: Value = serde_json::from_str(JSON).unwrap();
    let balances: Vec<SpotBalance> = balances(&value);
    assert_eq!(
        balances,
        vec![SpotBalance {
            timestamp: 1621262774,
            currency: "ERG".into(),
            change: amount("1.010939090000"),
            total: amount("1.01174993000000000000"),
            available: amount("1.01174993000000000000"),
        }]
    );
    let latest = latest_balance(&balances, &"ERG".to_string()).unwrap();
    assert_eq!(latest.available.text(), "1.01174993000000000000");
}

#[test]
fn refused_request_is_an_error() {
    let message = ServerMessage::deserialize(response(
        "{\"time\":5,\"id\":7,\"channel\":\"spot.balances\",\"event\":\"subscribe\",\"error\":{\"code\":2,\"message\":\"invalid\"},\"result\":null}",
    ))
    .unwrap();
    assert_eq!(message.id, Some(7));
    assert_eq!(
        message.content.unwrap_err(),
        WsError { code: 2, message: "invalid".to_string() }
    );
}

#[test]
fn result_comes_before_error() {
    let message = ServerMessage::deserialize(response(
        "{\"time\":5,\"channel\":\"c\",\"event\":\"e\",\"error\":{\"code\":2,\"message\":\"m\"},\"result\":{\"status\":\"success\"}}",
    ))
    .unwrap();
    assert_eq!(message.content.unwrap()["status"], "success");
}

#[test]
fn message_without_result_or_error_is_invalid() {
    let invalid = ServerMessage::deserialize(response(
        "{\"time\":5,\"id\":3,\"channel\":\"c\",\"event\":\"e\",\"error\":null}",
    ))
    .unwrap_err();
    assert_eq!(invalid.expected(), "an object with non-null result or error fields");
    assert_eq!(invalid.response.time, 5);
    assert_eq!(invalid.response.id, Some(3));
    assert_eq!(invalid.response.channel, "c");
    assert_eq!(invalid.response.event, "e");
}

#[test]
fn latest_balance_is_of_the_coin_and_the_greatest_timestamp() {
    let all = vec![
        news(5, "ERG", "1"),
        news(9, "BTC", "2"),
        news(7, "ERG", "3"),
        news(6, "ERG", "4"),
    ];
    assert_eq!(latest_balance(&all, &"ERG".to_string()).unwrap().available.text(), "3");
    assert_eq!(latest_balance(&all, &"BTC".to_string()).unwrap().available.text(), "2");
    assert!(latest_balance(&all, &"ETH".to_string()).is_none());
    assert!(latest_balance(&vec![], &"ERG".to_string()).is_none());
}

#[test]
fn later_news_with_the_same_timestamp_wins() {
    let all = vec![news(5, "ERG", "1"), news(5, "ERG", "2"), news(5, "BTC", "3")];
    assert_eq!(latest_balance(&all, &"ERG".to_string()).unwrap().available.text(), "2");
}

fn pair(min_base: &str) -> CurrencyPair {
    CurrencyPair {
        id: "ERG_USDT".to_string(),
        base: "ERG".to_string(),
        quote: "USDT".to_string(),
        fee: "0.2".to_string(),
        min_base_amount: Some(amount(min_base)),
        min_quote_amount: None,
        amount_precision: 3,
        precision: 4,
        trade_status: "tradable".to_string(),
        sell_start: 0,
        buy_start: 0,
    }
}

#[test]
fn latest_balance_is_sold() {
    let all = vec![news(5, "ERG", "7"), news(6, "ERG", "1.5"), news(9, "BTC", "3")];
    let info = pair("1.50");
    let (amount, params) = sell_latest(&all, &"ERG".to_string(), &info).unwrap();
    assert_eq!(amount.text(), "1.5");
    assert_eq!(params.currency_pair, "ERG_USDT");
}

#[test]
fn latest_balance_is_kept_where_it_is_too_small() {
    let all = vec![news(5, "ERG", "7"), news(6, "ERG", "1.5"), news(9, "BTC", "0")];
    assert!(sell_latest(&all, &"ERG".to_string(), &pair("1.51")).is_none());
    assert!(sell_latest(&all, &"BTC".to_string(), &pair("0")).is_none());
    assert!(sell_latest(&all, &"ETH".to_string(), &pair("0")).is_none());
}
