use gatetrader::rest::{
    currency_pair_path, relative_reference, BaseUrl, Logger, RestError,
};
use gatetrader::trader::{
    subscribed_note, InputEvent, KeyAction, KeyCode, KeyModifiers, Trader, REST_URL,
};
use gatetrader::ws::{MessageLocation, ServerMessage, WsError, WsRequest};
use serde_json::Value;
use surf::Url;

fn trader() -> Trader {
    Trader::spawn("key".to_string(), "secret".to_string()).unwrap().0
}

fn key(code: KeyCode, shift: bool, control: bool, alt: bool) -> InputEvent {
    InputEvent::Key { code, modifiers: KeyModifiers { shift, control, alt } }
}

#[test]
fn keys_do_what_the_help_says() {
    let trader = trader();
    let plain = |c: char| trader.handle_keyboard(key(KeyCode::Char(c), false, false, false));
    assert_eq!(plain('h'), KeyAction::PrintHelp);
    assert_eq!(plain('?'), KeyAction::PrintHelp);
    assert_eq!(plain('p'), KeyAction::PrintBalance);
    assert_eq!(plain('s'), KeyAction::SellAllPairs);
    assert_eq!(plain('c'), KeyAction::Ignore);
    assert_eq!(plain('P'), KeyAction::Ignore);
    assert_eq!(trader.handle_keyboard(InputEvent::Other), KeyAction::Ignore);
    let other = key(KeyCode::Other, false, true, false);
    assert_eq!(trader.handle_keyboard(other), KeyAction::Ignore);
}

#[test]
fn modifiers_matter_for_c_only() {
    let trader = trader();
    let act = |code, shift, control, alt| trader.handle_keyboard(key(code, shift, control, alt));
    assert_eq!(act(KeyCode::Char('c'), false, true, false), KeyAction::Quit);
    assert_eq!(act(KeyCode::Char('c'), true, true, false), KeyAction::Ignore);
    assert_eq!(act(KeyCode::Char('c'), false, true, true), KeyAction::Ignore);
    assert_eq!(act(KeyCode::Esc, true, true, true), KeyAction::Quit);
    assert_eq!(act(KeyCode::Esc, false, false, false), KeyAction::Quit);
    assert_eq!(act(KeyCode::Char('s'), true, true, true), KeyAction::SellAllPairs);
    assert_eq!(act(KeyCode::Char('?'), true, false, false), KeyAction::PrintHelp);
}

#[test]
fn new_trader_knows_where_the_exchange_is() {
    let (trader, shown) = Trader::spawn("key".to_string(), "secret".to_string()).unwrap();
    assert_eq!(shown, "[OK] gate.io REST API\r\n");
    assert_eq!(trader.base_url.as_str(), REST_URL);
    assert_eq!(trader.base_url.as_str(), "https://api.gateio.ws/api/v4/");
    assert!(trader.trading_pairs.is_empty());
    assert!(trader.ws_client.subscriptions().is_empty());
    let other = Url::parse("https://example.net/").unwrap();
    let (trader, shown) = Trader::with_base_url("k".to_string(), "s".to_string(), other);
    assert_eq!(trader.base_url.as_str(), "https://example.net/");
    assert_eq!(shown, "[OK] gate.io REST API\r\n");
}

#[test]
fn traded_pairs_are_remembered() {
    let mut trader = trader();
    let path = trader.trade("ERG".to_string(), "USDT".to_string());
    assert_eq!(path, "spot/currency_pairs/ERG_USDT");
    trader.trade("BTC".to_string(), "USDT".to_string());
    assert_eq!(
        trader.trading_pairs,
        vec![
            ("ERG".to_string(), "USDT".to_string()),
            ("BTC".to_string(), "USDT".to_string())
        ]
    );
    assert_eq!(currency_pair_path("a", "b"), "spot/currency_pairs/a_b");
}

fn message(event: &str, content: Result<Value, WsError>) -> ServerMessage {
    ServerMessage {
        time: 1,
        id: None,
        which: MessageLocation { channel: "spot.balances".to_string(), event: event.to_string() },
        content,
    }
}

#[test]
fn balances_are_watched_and_requested_once() {
    let mut trader = trader();
    let listeners = trader.watch_balances();
    let msg = message("update", Ok(Value::from(1)));
    trader.ws_client.route(&msg).unwrap().try_send(msg).unwrap();
    assert!(listeners.subscribed.try_recv().is_err());
    assert_eq!(listeners.updates.try_recv().unwrap().content.unwrap(), 1);
    let msg = message("subscribe", Ok(Value::from(2)));
    trader.ws_client.route(&msg).unwrap().try_send(msg).unwrap();
    assert!(listeners.updates.try_recv().is_err());
    assert_eq!(listeners.subscribed.try_recv().unwrap().content.unwrap(), 2);
    let requests = trader.ws_client.subscriptions();
    assert_eq!(requests.len(), 1);
    match &requests[0] {
        WsRequest::GateIo { channel, .. } => assert_eq!(channel, "spot.balances"),
        _ => panic!("not a subscription"),
    }
}

#[test]
fn agreement_is_noted() {
    let note = subscribed_note(&message("subscribe", Ok(Value::Null)));
    assert_eq!(note.unwrap(), "[OK] spot.balances subscribed\r\n");
    let refusal = WsError { code: 1, message: "no".to_string() };
    assert!(subscribed_note(&message("subscribe", Err(refusal))).is_none());
}

#[test]
fn requests_are_relative_to_the_base() {
    let base = BaseUrl::new(Url::parse("https://api.gateio.ws/api/v4/").unwrap());
    assert_eq!(
        base.handle("spot/accounts").unwrap().as_str(),
        "https://api.gateio.ws/api/v4/spot/accounts"
    );
    assert_eq!(
        base.handle("spot/tickers?currency_pair=ERG_USDT").unwrap().as_str(),
        "https://api.gateio.ws/api/v4/spot/tickers?currency_pair=ERG_USDT"
    );
    assert!(matches!(base.handle("https://[::1"), Err(RestError::InvalidUrl(_))));
}

#[test]
fn base_is_set_for_all_requests() {
    let base = BaseUrl::new(Url::parse("https://api.gateio.ws/api/v4/").unwrap());
    let at = |uri: &str| base.handle(uri).unwrap().as_str().to_string();
    assert_eq!(at("https://example.net/x"), "https://api.gateio.ws/api/v4/x");
    assert_eq!(at("https://example.net//a:b?q=1#f"), "https://api.gateio.ws/api/v4/a:b?q=1");
    assert_eq!(at("http://api.gateio.ws/api/v4/x"), "https://api.gateio.ws/api/v4/api/v4/x");
    assert_eq!(at("/x"), "https://api.gateio.ws/api/v4/x");
    assert_eq!(at("../x"), "https://api.gateio.ws/api/v4/api/x");
    let spot = "https://api.gateio.ws/api/v4/spot";
    assert_eq!(at(spot), spot);
    let base = BaseUrl::new(Url::parse("https://example.net/api?k=1").unwrap());
    assert_eq!(base.handle("x").unwrap().as_str(), "https://example.net/x");
    assert_eq!(base.handle("https://a.net/y").unwrap().as_str(), "https://example.net/y");
}

#[test]
fn requests_that_leave_the_base_are_refused() {
    let base = BaseUrl::new(Url::parse("https://api.gateio.ws/api/v4/").unwrap());
    assert!(matches!(base.handle("foo://h/..\\..\\x"), Err(RestError::OutsideBase)));
    let mail = BaseUrl::new(Url::parse("mailto:a@b").unwrap());
    assert!(matches!(mail.handle("https://a.net/y"), Err(RestError::InvalidUrl(_))));
}

#[test]
fn references_are_relative() {
    assert_eq!(relative_reference("/a/b", None), "./a/b");
    assert_eq!(relative_reference("///a//b/", Some("q=1")), "./a//b/?q=1");
    assert_eq!(relative_reference("", Some("")), "./?");
    assert_eq!(relative_reference("/", None), "./");
}

#[test]
fn requests_are_noted() {
    assert_eq!(Logger.sending("GET", "https://a/b"), "sending request: GET https://a/b");
    assert_eq!(Logger.completed("200", "0.25"), "request completed: 200 0.25s");
}
