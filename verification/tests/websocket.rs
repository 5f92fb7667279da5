use gatetrader::ws::connection::{ConnectionEvent, ConnectionStep, TaskEnd, WS_URL};
use gatetrader::ws::ping::{PingError, Pinger, PongEvent, PING_PAUSE_SECS, PONG_TIMEOUT_SECS};
use gatetrader::ws::{
    Dispatch, EncodeError, Message, MessageIds, MessageLocation, ServerMessage, WsClient, WsRequest,
};
use serde_json::Value;

fn client() -> WsClient {
    WsClient::new("key".to_string(), "secret".to_string())
}

fn message(channel: &str, event: &str, time: u64) -> ServerMessage {
    ServerMessage {
        time,
        id: None,
        which: MessageLocation { channel: channel.to_string(), event: event.to_string() },
        content: Ok(Value::Null),
    }
}

fn request(channel: &str, event: &str, payload: Value) -> WsRequest {
    WsRequest::GateIo { channel: channel.to_string(), event: event.to_string(), payload }
}

fn text(msg: Message) -> String {
    match msg {
        Message::Text(text) => text,
        other => panic!("not a text: {:?}", other),
    }
}

#[test]
fn messages_reach_their_subscriber() {
    let mut client = client();
    let updates = client.subscribe("spot.balances".to_string(), "update".to_string());
    let orders = client.subscribe("spot.orders".to_string(), "update".to_string());
    let msg = message("spot.balances", "update", 42);
    client.route(&msg).unwrap().try_send(msg).unwrap();
    assert_eq!(updates.try_recv().unwrap().time, 42);
    assert!(orders.try_recv().is_err());
    assert!(client.route(&message("spot.balances", "subscribe", 1)).is_none());
    assert!(client.route(&message("spot", "update", 1)).is_none());
}

#[test]
fn last_subscriber_replaces_the_one_before() {
    let mut client = client();
    let first = client.subscribe("c".to_string(), "e".to_string());
    let other = client.subscribe("c".to_string(), "f".to_string());
    let second = client.subscribe("c".to_string(), "e".to_string());
    let msg = message("c", "e", 1);
    client.route(&msg).unwrap().try_send(msg).unwrap();
    let msg = message("c", "f", 2);
    client.route(&msg).unwrap().try_send(msg).unwrap();
    assert!(first.try_recv().is_err());
    assert!(first.is_closed());
    assert!(!second.is_closed());
    assert_eq!(second.try_recv().unwrap().time, 1);
    assert_eq!(other.try_recv().unwrap().time, 2);
}

#[test]
fn each_channel_is_requested_once_in_order() {
    let mut client = client();
    assert!(client.subscriptions().is_empty());
    for (channel, event) in [("b", "x"), ("a", "y"), ("b", "z"), ("ab", "x"), ("a", "x")] {
        client.subscribe(channel.to_string(), event.to_string());
    }
    let mut channels = Vec::new();
    for req in client.subscriptions() {
        match req {
            WsRequest::GateIo { channel, event, payload } => {
                assert_eq!(event, "subscribe");
                assert!(payload.is_null());
                channels.push(channel);
            }
            _ => panic!("not a subscription"),
        }
    }
    assert_eq!(channels, vec!["a", "ab", "b"]);
}

#[test]
fn requests_are_framed_as_json() {
    let client = client();
    let payload = Value::from(vec!["BTC_USDT"]);
    let auth = Value::from("signature");
    let msg = client.build_message(request("spot.balances", "subscribe", payload), 7, Some(1621262774), auth);
    assert_eq!(
        text(msg.unwrap()),
        "{\"auth\":\"signature\",\"channel\":\"spot.balances\",\"event\":\"subscribe\",\"id\":7,\"payload\":[\"BTC_USDT\"],\"time\":1621262774}"
    );
}

#[test]
fn default_payload_is_null() {
    let mut client = client();
    client.subscribe("c".to_string(), "e".to_string());
    let req = client.subscriptions().pop().unwrap();
    let msg = client.build_message(req, u64::MAX, Some(0), Value::Null).unwrap();
    assert_eq!(
        text(msg),
        "{\"auth\":null,\"channel\":\"c\",\"event\":\"subscribe\",\"id\":18446744073709551615,\"payload\":null,\"time\":0}"
    );
}

#[test]
fn strings_are_escaped() {
    let msg = client().build_message(request("a\"b\\c\n", "\u{e9}\u{7f}", Value::Null), 1, Some(2), Value::Null);
    assert_eq!(
        text(msg.unwrap()),
        "{\"auth\":null,\"channel\":\"a\\\"b\\\\c\\n\",\"event\":\"\u{e9}\u{7f}\",\"id\":1,\"payload\":null,\"time\":2}"
    );
}

#[test]
fn pings_and_pongs_are_passed_on() {
    let client = client();
    match client.build_message(WsRequest::Ping(vec![1, 2]), 1, Some(2), Value::Null).unwrap() {
        Message::Ping(data) => assert_eq!(data, vec![1, 2]),
        other => panic!("not a ping: {:?}", other),
    }
    match client.build_message(WsRequest::Pong(vec![3]), 1, Some(2), Value::Null).unwrap() {
        Message::Pong(data) => assert_eq!(data, vec![3]),
        other => panic!("not a pong: {:?}", other),
    }
}

#[test]
fn only_requests_to_the_exchange_are_signed() {
    let client = client();
    let req = request("spot.balances", "subscribe", Value::Null);
    let params = client.sign_params(&req, Some(99)).unwrap();
    assert_eq!(params.channel, "spot.balances");
    assert_eq!(params.event, "subscribe");
    assert_eq!(params.time, 99);
    assert_eq!(params.key, "key");
    assert_eq!(params.secret, "secret");
    assert!(client.sign_params(&WsRequest::Ping(vec![]), Some(99)).is_none());
    assert!(client.sign_params(&WsRequest::Pong(vec![]), Some(99)).is_none());
}

#[test]
fn requests_are_numbered_from_one() {
    let client = client();
    let mut ids = MessageIds::new();
    client.sending(&mut ids, WsRequest::Ping(vec![]), Some(0), Value::Null).unwrap();
    let msg = client.sending(&mut ids, request("c", "e", Value::Null), Some(0), Value::Null).unwrap();
    assert!(text(msg).contains("\"id\":2"));
    assert_eq!(ids.next(), 3);
    assert_eq!(ids.next(), 4);
}

#[test]
fn incoming_messages_are_sorted_out() {
    let client = client();
    match client.dispatching(Message::Text("{}".to_string())) {
        Dispatch::Parse(text) => assert_eq!(text, "{}"),
        other => panic!("{:?}", other),
    }
    match client.dispatching(Message::Binary("caf\u{e9}".as_bytes().to_vec())) {
        Dispatch::Parse(text) => assert_eq!(text, "caf\u{e9}"),
        other => panic!("{:?}", other),
    }
    match client.dispatching(Message::Binary(vec![0xff, 0x00])) {
        Dispatch::NotText(bytes) => assert_eq!(bytes, vec![0xff, 0x00]),
        other => panic!("{:?}", other),
    }
    match client.dispatching(Message::Ping(vec![1, 2, 3])) {
        Dispatch::Reply(WsRequest::Pong(data)) => assert_eq!(data, vec![1, 2, 3]),
        other => panic!("{:?}", other),
    }
    match client.dispatching(Message::Pong(vec![4])) {
        Dispatch::Pong(data) => assert_eq!(data, vec![4]),
        other => panic!("{:?}", other),
    }
    match client.dispatching(Message::Other("Close".to_string())) {
        Dispatch::Unhandled(what) => assert_eq!(what, "Close"),
        other => panic!("{:?}", other),
    }
}

fn ping_data(pinger: &Pinger) -> Vec<u8> {
    match pinger.ping() {
        WsRequest::Ping(data) => data,
        _ => panic!("not a ping"),
    }
}

#[test]
fn pings_hold_the_counter() {
    let mut pinger = Pinger::new();
    for i in 0..600usize {
        let data = ping_data(&pinger);
        assert_eq!(data, i.to_be_bytes().to_vec());
        assert_eq!(pinger.pong(PongEvent::Answer(data)), Ok(i));
    }
}

#[test]
fn any_long_enough_answer_counts() {
    let mut pinger = Pinger::new();
    let mut data = usize::MAX.to_be_bytes().to_vec();
    data.push(7);
    assert_eq!(pinger.pong(PongEvent::Answer(data)), Ok(usize::MAX));
    assert_eq!(ping_data(&pinger), 1usize.to_be_bytes().to_vec());
}

#[test]
fn lost_answers_end_the_connection() {
    let mut pinger = Pinger::new();
    let short = vec![0u8; std::mem::size_of::<usize>() - 1];
    assert_eq!(pinger.pong(PongEvent::Answer(short)), Err(PingError::Incorrect));
    assert_eq!(pinger.pong(PongEvent::Answer(vec![])), Err(PingError::Incorrect));
    assert_eq!(pinger.pong(PongEvent::Closed), Err(PingError::StreamClosed));
    assert_eq!(pinger.pong(PongEvent::TimedOut), Err(PingError::NoResponse));
    assert_eq!(ping_data(&pinger), 0usize.to_be_bytes().to_vec());
    assert_eq!(PingError::Incorrect.message(), "Pong data incorrect");
    assert_eq!(PingError::StreamClosed.message(), "Pong data stream closed");
    assert_eq!(PingError::NoResponse.message(), "Server did not respond to ping");
    assert_eq!((PONG_TIMEOUT_SECS, PING_PAUSE_SECS), (5, 2));
}

#[test]
fn client_stays_connected() {
    let client = client();
    assert_eq!(WS_URL, "wss://api.gateio.ws/ws/v4/");
    let action = client.run_forever(ConnectionEvent::Connected);
    assert_eq!(action.out, "[OK] gate.io websocket API\r\n");
    assert_eq!(action.err, "");
    assert!(matches!(action.step, ConnectionStep::Run));

    let end = TaskEnd::Ping("Server did not respond to ping".to_string());
    let action = client.run_forever(ConnectionEvent::Ended(end));
    assert_eq!(action.err, "[Er] Server connection lost: Server did not respond to ping\r\n");
    assert_eq!(action.out, "[ -] Reconnecting...\r\n");
    assert!(matches!(action.step, ConnectionStep::Connect));

    let end = TaskEnd::Dispatching(Err("Error receiving ws message: reset".to_string()));
    let action = client.run_forever(ConnectionEvent::Ended(end));
    assert_eq!(action.err, "[Er] Server connection lost: Error receiving ws message: reset\r\n");
    assert_eq!(action.out, "[ -] Reconnecting...\r\n");
    assert!(matches!(action.step, ConnectionStep::Connect));

    let action = client.run_forever(ConnectionEvent::Ended(TaskEnd::Dispatching(Ok(()))));
    assert_eq!(action.err, "[Er] Server connection lost: Server closed the connection\r\n");
    assert_eq!(action.out, "[ -] Reconnecting...\r\n");
    assert!(matches!(action.step, ConnectionStep::Connect));

    let action = client.run_forever(ConnectionEvent::Ended(TaskEnd::Sending(Ok(()))));
    assert_eq!((action.out.as_str(), action.err.as_str()), ("", ""));
    assert!(matches!(action.step, ConnectionStep::Connect));

    let action = client.run_forever(ConnectionEvent::ConnectFailed("no route".to_string()));
    assert_eq!((action.out.as_str(), action.err.as_str()), ("", ""));
    match action.step {
        ConnectionStep::Fail(why) => assert_eq!(why, "no route"),
        other => panic!("{:?}", other),
    }
}

#[test]
fn connection_ends_as_its_first_task_does() {
    let client = client();
    assert_eq!(client.run(TaskEnd::Sending(Ok(()))), Ok(()));
    assert_eq!(client.run(TaskEnd::Sending(Err("broken".to_string()))), Err("broken".to_string()));
    assert_eq!(client.run(TaskEnd::Ping("lost".to_string())), Err("lost".to_string()));
}

#[test]
fn connection_is_lost_where_the_incoming_messages_end() {
    let client = client();
    let reset = TaskEnd::Dispatching(Err("reset".to_string()));
    assert_eq!(client.run(reset), Err("reset".to_string()));
    let closed = client.run(TaskEnd::Dispatching(Ok(())));
    assert_eq!(closed, Err("Server closed the connection".to_string()));
}

#[test]
fn nothing_is_sent_without_a_time() {
    let client = client();
    let mut ids = MessageIds::new();
    let requests = vec![
        request("c", "e", Value::Null),
        WsRequest::Ping(vec![1]),
        WsRequest::Pong(vec![2]),
    ];
    for req in requests {
        assert!(client.sign_params(&req, None).is_none());
        let res = client.sending(&mut ids, req, None, Value::Null);
        assert!(matches!(res, Err(EncodeError::Clock)));
    }
    assert_eq!(ids.next(), 4);
    let res = client.build_message(WsRequest::Ping(vec![]), 1, None, Value::Null);
    assert!(matches!(res, Err(EncodeError::Clock)));
}

#[test]
fn subscribers_get_their_own_messages_in_order() {
    let mut client = client();
    let updates = client.subscribe("c".to_string(), "update".to_string());
    let answers = client.subscribe("c".to_string(), "subscribe".to_string());
    for (event, time) in [("update", 1), ("subscribe", 2), ("other", 3), ("update", 4)] {
        let msg = message("c", event, time);
        if let Some(sender) = client.route(&msg) {
            sender.try_send(msg).unwrap();
        }
    }
    assert_eq!(updates.try_recv().unwrap().time, 1);
    assert_eq!(updates.try_recv().unwrap().time, 4);
    assert!(updates.try_recv().is_err());
    assert_eq!(answers.try_recv().unwrap().time, 2);
    assert!(answers.try_recv().is_err());
}
