//! The websocket side of the exchange.

use crate::amount::decimal;
use crate::json::{
    in_order, is_plain, json_number, json_string, json_text, members_text, members_view, null,
    number, object, quoted, string, to_text,
};
use crate::text::{
    comes_before, law_order_is_irreflexive, law_order_is_total, law_order_is_transitive, precedes,
};
use async_channel::{Receiver, Sender};
use serde_json::Value;
use vstd::prelude::*;
use vstd::utf8::{decode_utf8, encode_utf8, valid_utf8};

pub mod channels;
pub mod connection;
pub mod ping;

verus! {

/// What a message is about: the channel, and the event on it.
#[derive(Debug, Eq, PartialEq, Hash)]
pub struct MessageLocation {
    pub channel: String,
    pub event: String,
}

impl View for MessageLocation {
    type V = (Seq<char>, Seq<char>);

    open spec fn view(&self) -> (Seq<char>, Seq<char>) {
        (self.channel@, self.event@)
    }
}

/// Why the exchange refused a request.
#[derive(Debug, Eq, PartialEq)]
pub struct WsError {
    pub code: u64,
    pub message: String,
}

/// data sent by server in ws socket
#[derive(Debug)]
pub struct ServerMessage {
    pub time: u64,
    pub id: Option<u64>,
    pub which: MessageLocation,
    pub content: Result<Value, WsError>,
}

/// The fields of a message as they stand in its text.
#[derive(Debug)]
pub struct WsResponse {
    pub time: u64,
    pub id: Option<u64>,
    pub channel: String,
    pub event: String,
    pub error: Option<WsError>,
    pub result: Option<Value>,
}

/// A message with neither a result nor an error.
#[derive(Debug)]
pub struct InvalidMessage {
    pub response: WsResponse,
}

impl InvalidMessage {
    /// What would have been valid.
    pub fn expected(&self) -> (res: &'static str)
        ensures
            res@ == "an object with non-null result or error fields"@,
    {
        "an object with non-null result or error fields"
    }
}

impl ServerMessage {
    /// The message with these fields: its content is the result where there is one, and the
    /// error where there is none.
    pub fn deserialize(msg: WsResponse) -> (res: Result<ServerMessage, InvalidMessage>)
        ensures
            res is Err <==> msg.result is None && msg.error is None,
            match res {
                Ok(message) => {
                    &&& message.time == msg.time
                    &&& message.id == msg.id
                    &&& message.which.channel == msg.channel
                    &&& message.which.event == msg.event
                    &&& message.content == (match msg.result {
                        Some(result) => Ok::<Value, WsError>(result),
                        None => Err::<Value, WsError>(msg.error->0),
                    })
                },
                Err(invalid) => invalid.response == msg,
            },
    {
        match (msg.result, msg.error) {
            (Some(result), _) => Ok(
                ServerMessage {
                    time: msg.time,
                    id: msg.id,
                    which: MessageLocation { channel: msg.channel, event: msg.event },
                    content: Ok(result),
                },
            ),
            (None, Some(error)) => Ok(
                ServerMessage {
                    time: msg.time,
                    id: msg.id,
                    which: MessageLocation { channel: msg.channel, event: msg.event },
                    content: Err(error),
                },
            ),
            (None, None) => Err(
                InvalidMessage {
                    response: WsResponse {
                        time: msg.time,
                        id: msg.id,
                        channel: msg.channel,
                        event: msg.event,
                        error: None,
                        result: None,
                    },
                },
            ),
        }
    }
}

/// data sent to server by client in ws socket
#[derive(Debug)]
pub enum WsRequest {
    GateIo { channel: String, event: String, payload: Value },
    Pong(Vec<u8>),
    Ping(Vec<u8>),
}

/// A websocket message.
#[derive(Debug)]
pub enum Message {
    Text(String),
    Binary(Vec<u8>),
    Ping(Vec<u8>),
    Pong(Vec<u8>),
    /// Any other message, described for the user.
    Other(String),
}

/// `async_channel::Sender`, the sending side of a channel.
#[verifier::external_type_specification]
#[verifier::external_body]
#[verifier::reject_recursive_types(T)]
pub struct ExSender<T>(Sender<T>);

/// `async_channel::Receiver`, the receiving side of a channel.
#[verifier::external_type_specification]
#[verifier::external_body]
#[verifier::reject_recursive_types(T)]
pub struct ExReceiver<T>(Receiver<T>);

/// Which channel a sender puts messages into.
pub uninterp spec fn sender_channel(sender: Sender<ServerMessage>) -> int;

/// Which channel a receiver takes messages from.
pub uninterp spec fn receiver_channel(receiver: Receiver<ServerMessage>) -> int;

/// `async_channel::unbounded`: the two sides of one new channel, which is none of those that
/// `others` send into. What the channel holds, and when it closes, is left open.
#[verifier::external_body]
#[allow(unused_variables)]
fn unbounded(others: &Vec<(MessageLocation, Sender<ServerMessage>)>) -> (res: (
    Sender<ServerMessage>,
    Receiver<ServerMessage>,
))
    ensures
        sender_channel(res.0) == receiver_channel(res.1),
        forall|i: int|
            0 <= i < others@.len() ==> sender_channel((#[trigger] others@[i]).1) != sender_channel(
                res.0,
            ),
{
    async_channel::unbounded()
}

/// The client of the websocket API: who it is, and who wants which messages.
#[derive(Debug)]
pub struct WsClient {
    key: String,
    secret: String,
    /// dispatcher
    subscribers: Vec<(MessageLocation, Sender<ServerMessage>)>,
}

/// Whether no location occurs twice, and no channel.
spec fn distinct(subscribers: Seq<(MessageLocation, Sender<ServerMessage>)>) -> bool {
    forall|i: int, j: int|
        0 <= i < j < subscribers.len() ==> (#[trigger] subscribers[i]).0@ != (
        #[trigger] subscribers[j]).0@ && sender_channel(subscribers[i].1) != sender_channel(
            subscribers[j].1,
        )
}

/// Whether the subscriber at `i` wants the messages at `location`.
spec fn wants(
    subscribers: Seq<(MessageLocation, Sender<ServerMessage>)>,
    location: (Seq<char>, Seq<char>),
    i: int,
) -> bool {
    0 <= i < subscribers.len() && subscribers[i].0@ == location
}

/// Which channel the messages at each location go to.
spec fn routing(subscribers: Seq<(MessageLocation, Sender<ServerMessage>)>) -> Map<
    (Seq<char>, Seq<char>),
    int,
> {
    Map::new(
        |location: (Seq<char>, Seq<char>)| exists|i: int| wants(subscribers, location, i),
        |location: (Seq<char>, Seq<char>)|
            sender_channel(subscribers[choose|i: int| wants(subscribers, location, i)].1),
    )
}

proof fn lemma_routing(
    subscribers: Seq<(MessageLocation, Sender<ServerMessage>)>,
    location: (Seq<char>, Seq<char>),
    i: int,
)
    requires
        distinct(subscribers),
        wants(subscribers, location, i),
    ensures
        routing(subscribers).contains_key(location),
        routing(subscribers)[location] == sender_channel(subscribers[i].1),
{
    let k = choose|k: int| wants(subscribers, location, k);
    assert(wants(subscribers, location, k));
    if k < i {
        assert(subscribers[k].0@ != subscribers[i].0@);
    } else if i < k {
        assert(subscribers[i].0@ != subscribers[k].0@);
    }
}

/// Whether the messages of any location go to this channel.
pub open spec fn leads_to(routes: Map<(Seq<char>, Seq<char>), int>, channel: int) -> bool {
    exists|location: (Seq<char>, Seq<char>)| #[trigger]
        routes.contains_key(location) && routes[location] == channel
}

/// Whether the messages of different locations go to different channels.
pub open spec fn has_own_channels(routes: Map<(Seq<char>, Seq<char>), int>) -> bool {
    forall|a: (Seq<char>, Seq<char>), b: (Seq<char>, Seq<char>)| #[trigger]
        routes.contains_key(a) && #[trigger] routes.contains_key(b) && a != b ==> routes[a]
            != routes[b]
}

proof fn lemma_own_channels(subscribers: Seq<(MessageLocation, Sender<ServerMessage>)>)
    requires
        distinct(subscribers),
    ensures
        has_own_channels(routing(subscribers)),
{
    let routes = routing(subscribers);
    assert forall|a: (Seq<char>, Seq<char>), b: (Seq<char>, Seq<char>)| #[trigger]
        routes.contains_key(a) && #[trigger] routes.contains_key(b) && a != b implies routes[a]
        != routes[b] by {
        let i = choose|i: int| wants(subscribers, a, i);
        let j = choose|j: int| wants(subscribers, b, j);
        assert(wants(subscribers, a, i) && wants(subscribers, b, j));
        lemma_routing(subscribers, a, i);
        lemma_routing(subscribers, b, j);
        if i < j {
            assert(sender_channel(subscribers[i].1) != sender_channel(subscribers[j].1));
        } else {
            assert(sender_channel(subscribers[j].1) != sender_channel(subscribers[i].1));
        }
    }
}

impl WsClient {
    #[verifier::type_invariant]
    spec fn valid(self) -> bool {
        distinct(self.subscribers@)
    }

    /// The API key.
    pub closed spec fn key(self) -> Seq<char> {
        self.key@
    }

    /// The API secret.
    pub closed spec fn secret(self) -> Seq<char> {
        self.secret@
    }

    /// Which channel the messages at each location go to.
    pub closed spec fn routes(self) -> Map<(Seq<char>, Seq<char>), int> {
        routing(self.subscribers@)
    }

    /// A client with no subscribers.
    pub fn new(key: String, secret: String) -> (res: WsClient)
        ensures
            res.key() == key@,
            res.secret() == secret@,
            res.routes() == Map::<(Seq<char>, Seq<char>), int>::empty(),
    {
        let res = WsClient { key, secret, subscribers: Vec::new() };
        assert(res.routes() =~= Map::<(Seq<char>, Seq<char>), int>::empty());
        res
    }

    /// Where in the list of subscribers the one for this location is.
    fn find(&self, channel: &String, event: &String) -> (res: Option<usize>)
        ensures
            match res {
                Some(i) => wants(self.subscribers@, (channel@, event@), i as int),
                None => forall|i: int| !wants(self.subscribers@, (channel@, event@), i),
            },
    {
        let mut i: usize = 0;
        while i < self.subscribers.len()
            invariant
                i <= self.subscribers@.len(),
                forall|j: int| j < i ==> !wants(self.subscribers@, (channel@, event@), j),
            decreases self.subscribers@.len() - i,
        {
            if self.subscribers[i].0.channel == *channel && self.subscribers[i].0.event == *event {
                return Some(i);
            }
            i = i + 1;
        }
        None
    }

    /// Has the messages at this location go to the receiver that is returned, in place of
    /// where they went before.
    pub fn subscribe(&mut self, channel: String, event: String) -> (res: Receiver<ServerMessage>)
        ensures
            final(self).key() == old(self).key(),
            final(self).secret() == old(self).secret(),
            final(self).routes() == old(self).routes().insert(
                (channel@, event@),
                receiver_channel(res),
            ),
            !leads_to(old(self).routes(), receiver_channel(res)),
            has_own_channels(old(self).routes()),
            has_own_channels(final(self).routes()),
    {
        proof {
            use_type_invariant(&*self);
        }
        let (tx, rx) = unbounded(&self.subscribers);
        let found = self.find(&channel, &event);
        let ghost location = (channel@, event@);
        let ghost before = self.subscribers@;
        let ghost target = sender_channel(tx);
        let mut subscribers: Vec<(MessageLocation, Sender<ServerMessage>)> = Vec::new();
        std::mem::swap(&mut self.subscribers, &mut subscribers);
        let entry = (MessageLocation { channel, event }, tx);
        match found {
            Some(i) => {
                subscribers.set(i, entry);
                proof {
                    assert(wants(subscribers@, location, i as int));
                }
            },
            None => {
                subscribers.push(entry);
                proof {
                    assert(wants(subscribers@, location, before.len() as int));
                    assert forall|j: int| 0 <= j < before.len() implies (#[trigger] before[j]).0@
                        != location by {
                        assert(!wants(before, location, j));
                    }
                }
            },
        }
        proof {
            let after = subscribers@;
            assert(distinct(after));
            let place = if found is Some {
                found->0 as int
            } else {
                before.len() as int
            };
            lemma_routing(after, location, place);
            let expected = routing(before).insert(location, target);
            assert forall|other: (Seq<char>, Seq<char>)|
                #![trigger routing(after).dom().contains(other)]
                #![trigger expected.dom().contains(other)]
                (routing(after).dom().contains(other) <==> expected.dom().contains(other)) && (
                expected.dom().contains(other) ==> routing(after)[other] == expected[other]) by {
                if other != location && routing(before).contains_key(other) {
                    let k = choose|k: int| wants(before, other, k);
                    assert(wants(before, other, k));
                    assert(wants(after, other, k));
                    lemma_routing(before, other, k);
                    lemma_routing(after, other, k);
                }
                if other != location && routing(after).contains_key(other) {
                    let k = choose|k: int| wants(after, other, k);
                    assert(wants(after, other, k));
                    assert(wants(before, other, k));
                }
            }
            assert(routing(after) =~= expected);
            lemma_own_channels(before);
            lemma_own_channels(after);
            assert forall|other: (Seq<char>, Seq<char>)| #[trigger]
                routing(before).contains_key(other) implies routing(before)[other] != target by {
                let k = choose|k: int| wants(before, other, k);
                assert(wants(before, other, k));
                lemma_routing(before, other, k);
            }
        }
        self.subscribers = subscribers;
        rx
    }

    /// Who wants this message, if anyone does.
    pub fn route(&self, msg: &ServerMessage) -> (res: Option<&Sender<ServerMessage>>)
        ensures
            has_own_channels(self.routes()),
            res is Some <==> self.routes().contains_key(msg.which@),
            res matches Some(sender) ==> sender_channel(*sender) == self.routes()[msg.which@],
    {
        proof {
            use_type_invariant(self);
            lemma_own_channels(self.subscribers@);
        }
        match self.find(&msg.which.channel, &msg.which.event) {
            Some(i) => {
                proof {
                    lemma_routing(self.subscribers@, msg.which@, i as int);
                }
                Some(&self.subscribers[i].1)
            },
            None => None,
        }
    }
}

/// Why a request was not made into a message.
#[derive(Debug)]
pub enum EncodeError {
    /// The clock stands before the epoch.
    Clock,
    /// The request has no JSON text. Every request has one, so this never comes.
    Json(serde_json::Error),
}

/// What a request is signed with.
#[derive(Debug)]
pub struct SignParams<'a> {
    pub channel: &'a str,
    pub event: &'a str,
    pub time: u64,
    pub key: &'a str,
    pub secret: &'a str,
}

/// The members of a request to the exchange.
pub open spec fn frame(
    channel: Seq<char>,
    event: Seq<char>,
    payload: Value,
    id: u64,
    time: u64,
    auth: Value,
) -> Seq<(Seq<char>, Value)> {
    seq![
        ("auth"@, auth),
        ("channel"@, json_string(channel)),
        ("event"@, json_string(event)),
        ("id"@, json_number(id)),
        ("payload"@, payload),
        ("time"@, json_number(time)),
    ]
}

/// The text of a request to the exchange, given those of its channel, of its event, of its payload
/// and of its signature.
pub open spec fn frame_text(
    channel: Seq<char>,
    event: Seq<char>,
    payload: Seq<char>,
    id: u64,
    time: u64,
    auth: Seq<char>,
) -> Seq<char> {
    "{\"auth\":"@ + auth + ",\"channel\":"@ + channel + ",\"event\":"@ + event
        + ",\"id\":"@ + decimal(id as nat) + ",\"payload\":"@ + payload + ",\"time\":"@ + decimal(
        time as nat,
    ) + "}"@
}

/// Whether `res` is what comes of `req`, numbered `id` and signed with `auth` at `time`, the
/// seconds since the epoch: without that time nothing is sent, not even a ping or a pong.
pub open spec fn is_built_from(
    req: WsRequest,
    id: u64,
    time: Option<u64>,
    auth: Value,
    res: Result<Message, EncodeError>,
) -> bool {
    match time {
        Some(seconds) => is_message_for(req, id, seconds, auth, res),
        None => res matches Err(EncodeError::Clock),
    }
}

/// Whether `res` is the message for `req`, numbered `id` and signed with `auth` at `time`:
/// pings and pongs are passed on, requests to the exchange become JSON text.
pub open spec fn is_message_for(
    req: WsRequest,
    id: u64,
    time: u64,
    auth: Value,
    res: Result<Message, EncodeError>,
) -> bool {
    match req {
        WsRequest::GateIo { channel, event, payload } => {
            &&& res matches Ok(Message::Text(text)) && text@ == frame_text(
                json_text(json_string(channel@)),
                json_text(json_string(event@)),
                json_text(payload),
                id,
                time,
                json_text(auth),
            )
            &&& is_plain(channel@) ==> json_text(json_string(channel@)) == quoted(channel@)
            &&& is_plain(event@) ==> json_text(json_string(event@)) == quoted(event@)
        },
        WsRequest::Pong(data) => res == Ok::<Message, EncodeError>(Message::Pong(data)),
        WsRequest::Ping(data) => res == Ok::<Message, EncodeError>(Message::Ping(data)),
    }
}

proof fn lemma_frame_in_order(members: Seq<(Seq<char>, Value)>)
    requires
        members.len() == 6,
        members[0].0 == "auth"@,
        members[1].0 == "channel"@,
        members[2].0 == "event"@,
        members[3].0 == "id"@,
        members[4].0 == "payload"@,
        members[5].0 == "time"@,
    ensures
        in_order(members),
{
    reveal_strlit("auth");
    reveal_strlit("channel");
    reveal_strlit("event");
    reveal_strlit("id");
    reveal_strlit("payload");
    reveal_strlit("time");
}

/// Appending one more member to what is written already.
proof fn lemma_one_more_member(
    open: Seq<char>,
    members: Seq<char>,
    written: Seq<char>,
    key: Seq<char>,
    value: Seq<char>,
)
    requires
        open + members == written,
    ensures
        open + (members + seq![','] + key + seq![':'] + value) == written + (seq![','] + key
            + seq![':']) + value,
{
    assert(open + (members + seq![','] + key + seq![':'] + value) =~= (open + members) + (seq![',']
        + key + seq![':']) + value);
}

proof fn lemma_frame_text(
    channel: Seq<char>,
    event: Seq<char>,
    payload: Value,
    id: u64,
    time: u64,
    auth: Value,
)
    requires
        json_text(json_number(id)) == decimal(id as nat),
        json_text(json_number(time)) == decimal(time as nat),
    ensures
        seq!['{'] + members_text(frame(channel, event, payload, id, time, auth)) + seq!['}']
            == frame_text(
            json_text(json_string(channel)),
            json_text(json_string(event)),
            json_text(payload),
            id,
            time,
            json_text(auth),
        ),
{
    let members = frame(channel, event, payload, id, time, auth);
    let open = seq!['{'];
    let channel_text = json_text(json_string(channel));
    let event_text = json_text(json_string(event));
    let m5 = members.drop_last();
    let m4 = m5.drop_last();
    let m3 = m4.drop_last();
    let m2 = m3.drop_last();
    let m1 = m2.drop_last();
    assert(m1.drop_last() =~= seq![]);
    let f1 = "{\"auth\":"@ + json_text(auth);
    let f2 = f1 + ",\"channel\":"@ + channel_text;
    let f3 = f2 + ",\"event\":"@ + event_text;
    let f4 = f3 + ",\"id\":"@ + decimal(id as nat);
    let f5 = f4 + ",\"payload\":"@ + json_text(payload);
    let f6 = f5 + ",\"time\":"@ + decimal(time as nat);
    assert(open + members_text(m1) == f1) by {
        reveal_strlit("auth");
        reveal_strlit("{\"auth\":");
        assert("{\"auth\":"@ =~= open + quoted("auth"@) + seq![':']);
        assert(members_text(m1.drop_last()) =~= seq![]);
        assert(open + members_text(m1) =~= f1);
    }
    assert(open + members_text(m2) == f2) by {
        reveal_strlit("channel");
        reveal_strlit(",\"channel\":");
        assert(",\"channel\":"@ =~= seq![','] + quoted("channel"@) + seq![':']);
        lemma_one_more_member(open, members_text(m1), f1, quoted("channel"@), channel_text);
    }
    assert(open + members_text(m3) == f3) by {
        reveal_strlit("event");
        reveal_strlit(",\"event\":");
        assert(",\"event\":"@ =~= seq![','] + quoted("event"@) + seq![':']);
        lemma_one_more_member(open, members_text(m2), f2, quoted("event"@), event_text);
    }
    assert(open + members_text(m4) == f4) by {
        reveal_strlit("id");
        reveal_strlit(",\"id\":");
        assert(",\"id\":"@ =~= seq![','] + quoted("id"@) + seq![':']);
        lemma_one_more_member(open, members_text(m3), f3, quoted("id"@), decimal(id as nat));
    }
    assert(open + members_text(m5) == f5) by {
        reveal_strlit("payload");
        reveal_strlit(",\"payload\":");
        assert(",\"payload\":"@ =~= seq![','] + quoted("payload"@) + seq![':']);
        lemma_one_more_member(open, members_text(m4), f4, quoted("payload"@), json_text(payload));
    }
    assert(open + members_text(members) == f6) by {
        reveal_strlit("time");
        reveal_strlit(",\"time\":");
        assert(",\"time\":"@ =~= seq![','] + quoted("time"@) + seq![':']);
        lemma_one_more_member(open, members_text(m5), f5, quoted("time"@), decimal(time as nat));
    }
    reveal_strlit("}");
    assert("}"@ =~= seq!['}']);
}

impl WsClient {
    /// What the request is signed with at `time`, where it is one that is signed.
    pub fn sign_params<'a>(&'a self, req: &'a WsRequest, time: Option<u64>) -> (res: Option<
        SignParams<'a>,
    >)
        ensures
            res is Some <==> req is GateIo && time is Some,
            res matches Some(params) ==> {
                &&& params.channel@ == req->channel@
                &&& params.event@ == req->event@
                &&& Some(params.time) == time
                &&& params.key@ == self.key()
                &&& params.secret@ == self.secret()
            },
    {
        match (req, time) {
            (WsRequest::GateIo { channel, event, .. }, Some(seconds)) => Some(
                SignParams {
                    channel: channel.as_str(),
                    event: event.as_str(),
                    time: seconds,
                    key: self.key.as_str(),
                    secret: self.secret.as_str(),
                },
            ),
            _ => None,
        }
    }

    /// The message for a request, numbered `id` and signed with `auth` at `time`, the seconds
    /// since the epoch. A clock that stands before the epoch gives no time, and then no message.
    pub fn build_message(&self, req: WsRequest, id: u64, time: Option<u64>, auth: Value) -> (res:
        Result<Message, EncodeError>)
        ensures
            is_built_from(req, id, time, auth, res),
            res is Err <==> time is None,
    {
        let time: u64 = match time {
            Some(seconds) => seconds,
            None => {
                return Err(EncodeError::Clock);
            },
        };
        match req {
            WsRequest::GateIo { channel, event, payload } => {
                let ghost (c, e) = (channel@, event@);
                let mut members: Vec<(String, Value)> = Vec::new();
                members.push(("auth".to_owned(), auth));
                members.push(("channel".to_owned(), string(channel)));
                members.push(("event".to_owned(), string(event)));
                members.push(("id".to_owned(), number(id)));
                members.push(("payload".to_owned(), payload));
                members.push(("time".to_owned(), number(time)));
                let ghost view = members_view(members@);
                proof {
                    lemma_frame_in_order(view);
                }
                let obj = object(members);
                proof {
                    assert(view =~= frame(c, e, payload, id, time, auth));
                    lemma_frame_text(c, e, payload, id, time, auth);
                }
                match to_text(&obj) {
                    Ok(text) => Ok(Message::Text(text)),
                    Err(cause) => Err(EncodeError::Json(cause)),
                }
            },
            WsRequest::Pong(data) => Ok(Message::Pong(data)),
            WsRequest::Ping(data) => Ok(Message::Ping(data)),
        }
    }
}

/// The number of the request after the one numbered `n`.
pub open spec fn next_id(n: nat) -> nat {
    (n + 1) % 0x1_0000_0000_0000_0000
}

/// A wrapping counter for the purpose of message id: the number of the last request.
#[derive(Debug)]
pub struct MessageIds {
    last: u64,
}

impl View for MessageIds {
    type V = nat;

    closed spec fn view(&self) -> nat {
        self.last as nat
    }
}

impl MessageIds {
    /// The counter of a new connection, on which nothing has been sent.
    pub fn new() -> (res: MessageIds)
        ensures
            res@ == 0,
    {
        MessageIds { last: 0 }
    }

    /// The number of the next request.
    pub fn next(&mut self) -> (res: u64)
        ensures
            final(self)@ == next_id(old(self)@),
            res == final(self)@,
    {
        self.last = self.last.wrapping_add(1);
        self.last
    }
}

/// The number of the `n`-th request of a connection.
pub open spec fn nth_id(n: nat) -> nat
    decreases n,
{
    if n == 0 {
        0
    } else {
        next_id(nth_id((n - 1) as nat))
    }
}

/// Requests are numbered from one on, and start over after the largest number.
pub proof fn law_requests_are_numbered_in_order(n: nat)
    ensures
        nth_id(n) == n % 0x1_0000_0000_0000_0000,
    decreases n,
{
    if n > 0 {
        law_requests_are_numbered_in_order((n - 1) as nat);
    }
}

/// Two requests of a connection have different numbers, unless a whole round lies between.
pub proof fn law_request_numbers_differ(m: nat, n: nat)
    requires
        m < n < m + 0x1_0000_0000_0000_0000,
    ensures
        nth_id(m) != nth_id(n),
{
    law_requests_are_numbered_in_order(m);
    law_requests_are_numbered_in_order(n);
}

impl WsClient {
    /// The message for the next request of a connection, signed with `auth` at `time`. A
    /// request that cannot be made into a message uses up its number all the same.
    pub fn sending(
        &self,
        ids: &mut MessageIds,
        req: WsRequest,
        time: Option<u64>,
        auth: Value,
    ) -> (res: Result<Message, EncodeError>)
        ensures
            final(ids)@ == next_id(old(ids)@),
            is_built_from(req, final(ids)@ as u64, time, auth, res),
            res is Err <==> time is None,
    {
        let id = ids.next();
        self.build_message(req, id, time, auth)
    }
}

/// What to do with an incoming message.
#[derive(Debug)]
pub enum Dispatch {
    /// Read this text as a message of the exchange, and pass it to its subscriber.
    Parse(String),
    /// directly send back pong
    Reply(WsRequest),
    /// Tell the pinger that the server answered.
    Pong(Vec<u8>),
    /// Report bytes that are no text.
    NotText(Vec<u8>),
    /// Report a message that nothing is done with.
    Unhandled(String),
}

/// The text of a message, where it has one: that of a text message, or what the bytes of a
/// binary message encode.
pub open spec fn text_of(msg: Message) -> Option<Seq<char>> {
    match msg {
        Message::Text(text) => Some(text@),
        Message::Binary(data) => if valid_utf8(data@) {
            Some(decode_utf8(data@))
        } else {
            None
        },
        _ => None,
    }
}

/// `String::from_utf8`: the text that the bytes encode, or the bytes back where they encode
/// none.
#[verifier::external_body]
fn text_from_utf8(data: Vec<u8>) -> (res: Result<String, Vec<u8>>)
    ensures
        match res {
            Ok(text) => valid_utf8(data@) && text@ == decode_utf8(data@),
            Err(bytes) => !valid_utf8(data@) && bytes@ == data@,
        },
{
    String::from_utf8(data).map_err(|e| e.into_bytes())
}

impl WsClient {
    /// What to do with an incoming message.
    pub fn dispatching(&self, msg: Message) -> (res: Dispatch)
        ensures
            text_of(msg) is Some <==> res is Parse,
            res matches Dispatch::Parse(text) ==> Some(text@) == text_of(msg),
            match msg {
                Message::Text(_) => true,
                Message::Binary(data) => !valid_utf8(data@) ==> (res matches Dispatch::NotText(
                    bytes,
                ) && bytes@ == data@),
                Message::Ping(data) => res == Dispatch::Reply(WsRequest::Pong(data)),
                Message::Pong(data) => res == Dispatch::Pong(data),
                Message::Other(what) => res == Dispatch::Unhandled(what),
            },
    {
        match msg {
            Message::Text(text) => Dispatch::Parse(text),
            Message::Binary(data) => match text_from_utf8(data) {
                Ok(text) => Dispatch::Parse(text),
                Err(bytes) => Dispatch::NotText(bytes),
            },
            Message::Ping(data) => Dispatch::Reply(WsRequest::Pong(data)),
            Message::Pong(data) => Dispatch::Pong(data),
            Message::Other(what) => Dispatch::Unhandled(what),
        }
    }
}

/// Text is read the same whether it comes as text or as bytes.
pub proof fn law_binary_text_is_text(text: String, data: Vec<u8>)
    requires
        data@ == encode_utf8(text@),
    ensures
        text_of(Message::Binary(data)) == text_of(Message::Text(text)),
{
    vstd::utf8::encode_utf8_valid_utf8(text@);
    vstd::utf8::encode_utf8_decode_utf8(text@);
}

/// Whether each string comes before those after it: sorted, and nothing twice.
pub open spec fn ascending(names: Seq<Seq<char>>) -> bool {
    forall|i: int, j: int|
        0 <= i < j < names.len() ==> precedes(#[trigger] names[i], #[trigger] names[j])
}

/// Whether anyone wants messages on this channel.
pub open spec fn has_channel(routes: Map<(Seq<char>, Seq<char>), int>, channel: Seq<char>) -> bool {
    exists|event: Seq<char>| routes.contains_key((channel, event))
}

/// Whether `names` lists the channels that anyone wants messages on.
pub open spec fn lists_channels(
    names: Seq<Seq<char>>,
    routes: Map<(Seq<char>, Seq<char>), int>,
) -> bool {
    &&& ascending(names)
    &&& forall|name: Seq<char>| names.contains(name) <==> #[trigger] has_channel(routes, name)
}

/// The view of a list of strings.
pub open spec fn texts(strings: Seq<String>) -> Seq<Seq<char>> {
    Seq::new(strings.len(), |i: int| strings[i]@)
}

/// Whether `req` asks for the messages on `channel`.
pub open spec fn is_subscription(req: WsRequest, channel: Seq<char>) -> bool {
    &&& req is GateIo
    &&& req->channel@ == channel
    &&& req->event@ == "subscribe"@
    &&& json_text(req->payload) == "null"@
}

/// The channels that requests are on.
pub open spec fn requested(requests: Seq<WsRequest>) -> Seq<Seq<char>> {
    Seq::new(requests.len(), |i: int| requests[i]->channel@)
}

/// Puts `name` into its place in a sorted list, unless it is there already.
fn insert_sorted(names: &mut Vec<String>, name: String)
    requires
        ascending(texts(old(names)@)),
    ensures
        ascending(texts(final(names)@)),
        forall|other: Seq<char>| #[trigger]
            texts(final(names)@).contains(other) <==> other == name@ || texts(
                old(names)@,
            ).contains(other),
{
    let ghost before = texts(names@);
    let ghost added = name@;
    let mut p: usize = 0;
    while p < names.len() && comes_before(names[p].as_str(), name.as_str())
        invariant
            p <= names@.len(),
            before == texts(names@),
            added == name@,
            forall|i: int| 0 <= i < p ==> precedes(#[trigger] before[i], added),
        decreases names@.len() - p,
    {
        p = p + 1;
    }
    if p < names.len() && names[p] == name {
        proof {
            assert(before[p as int] == added);
            assert(before.contains(added));
        }
        return;
    }
    proof {
        assert forall|i: int| p <= i < before.len() implies precedes(
            added,
            #[trigger] before[i],
        ) by {
            law_order_is_total(added, before[p as int]);
            if i > p {
                law_order_is_transitive(added, before[p as int], before[i]);
            }
        }
    }
    names.insert(p, name);
    proof {
        let after = texts(names@);
        assert(after =~= before.insert(p as int, added));
        assert forall|i: int, j: int| 0 <= i < j < after.len() implies precedes(
            #[trigger] after[i],
            #[trigger] after[j],
        ) by {
            let a = if i < p {
                i
            } else {
                i - 1
            };
            let b = if j < p {
                j
            } else {
                j - 1
            };
            if i != p && j != p {
                assert(precedes(before[a], before[b]));
            } else if i == p {
                assert(precedes(added, before[b]));
            } else {
                assert(precedes(before[a], added));
            }
        }
        assert forall|other: Seq<char>| #[trigger]
            after.contains(other) <==> other == added || before.contains(other) by {
            if after.contains(other) {
                let i = choose|i: int| 0 <= i < after.len() && after[i] == other;
                if i < p {
                    assert(before[i] == other);
                } else if i > p {
                    assert(before[i - 1] == other);
                }
            }
            if other == added {
                assert(after[p as int] == other);
            }
            if before.contains(other) {
                let i = choose|i: int| 0 <= i < before.len() && before[i] == other;
                if i < p {
                    assert(after[i] == other);
                } else {
                    assert(after[i + 1] == other);
                }
            }
        }
    }
}

impl WsClient {
    /// The channels that anyone wants messages on: sorted, each once.
    fn channels(&self) -> (res: Vec<String>)
        ensures
            lists_channels(texts(res@), self.routes()),
    {
        let mut names: Vec<String> = Vec::new();
        let mut i: usize = 0;
        while i < self.subscribers.len()
            invariant
                i <= self.subscribers@.len(),
                ascending(texts(names@)),
                forall|name: Seq<char>| #[trigger]
                    texts(names@).contains(name) <==> exists|k: int|
                        0 <= k < i && (#[trigger] self.subscribers@[k]).0.channel@ == name,
            decreases self.subscribers@.len() - i,
        {
            let ghost before = texts(names@);
            insert_sorted(&mut names, self.subscribers[i].0.channel.clone());
            proof {
                let here = self.subscribers@[i as int].0.channel@;
                assert forall|name: Seq<char>| #[trigger]
                    texts(names@).contains(name) <==> exists|k: int|
                        0 <= k < i + 1 && (#[trigger] self.subscribers@[k]).0.channel@ == name by {
                    if name == here {
                        assert(self.subscribers@[i as int].0.channel@ == name);
                    }
                    assert(texts(names@).contains(name) <==> name == here || before.contains(name));
                }
            }
            i = i + 1;
        }
        proof {
            let routes = self.routes();
            assert forall|name: Seq<char>|
                texts(names@).contains(name) <==> #[trigger] has_channel(routes, name) by {
                if texts(names@).contains(name) {
                    let k = choose|k: int|
                        0 <= k < self.subscribers@.len() && (
                        #[trigger] self.subscribers@[k]).0.channel@ == name;
                    let event = self.subscribers@[k].0.event@;
                    assert(wants(self.subscribers@, (name, event), k));
                    assert(routes.contains_key((name, event)));
                }
                if has_channel(routes, name) {
                    let event = choose|event: Seq<char>| routes.contains_key((name, event));
                    let k = choose|k: int| wants(self.subscribers@, (name, event), k);
                    assert(wants(self.subscribers@, (name, event), k));
                    assert(self.subscribers@[k].0.channel@ == name);
                }
            }
        }
        names
    }

    /// The requests that begin a connection: one for each channel that anyone wants messages
    /// on, in the order of their names.
    pub fn subscriptions(&self) -> (res: Vec<WsRequest>)
        ensures
            lists_channels(requested(res@), self.routes()),
            forall|i: int|
                0 <= i < res@.len() ==> is_subscription(#[trigger] res@[i], requested(res@)[i]),
    {
        let names = self.channels();
        let mut requests: Vec<WsRequest> = Vec::new();
        let mut i: usize = 0;
        while i < names.len()
            invariant
                i <= names@.len(),
                requests@.len() == i,
                forall|k: int|
                    0 <= k < i ==> is_subscription(#[trigger] requests@[k], names@[k]@),
            decreases names@.len() - i,
        {
            requests.push(
                WsRequest::GateIo {
                    channel: names[i].clone(),
                    event: "subscribe".to_owned(),
                    payload: null(),
                },
            );
            i = i + 1;
        }
        assert(requested(requests@) =~= texts(names@));
        requests
    }
}

/// What a client asks for at the begin of a connection is determined by who wants what.
pub proof fn law_channel_list_is_determined(
    names: Seq<Seq<char>>,
    others: Seq<Seq<char>>,
    routes: Map<(Seq<char>, Seq<char>), int>,
)
    requires
        lists_channels(names, routes),
        lists_channels(others, routes),
    ensures
        names == others,
{
    assert forall|name: Seq<char>| #[trigger] names.contains(name) <==> others.contains(name) by {
        assert(names.contains(name) <==> has_channel(routes, name));
    }
    lemma_ascending_determined(names, others);
}

proof fn lemma_ascending_determined(a: Seq<Seq<char>>, b: Seq<Seq<char>>)
    requires
        ascending(a),
        ascending(b),
        forall|x: Seq<char>| #[trigger] a.contains(x) <==> b.contains(x),
    ensures
        a == b,
    decreases a.len(),
{
    if a.len() == 0 {
        if b.len() > 0 {
            assert(b.contains(b[0]));
            assert(a.contains(b[0]));
        }
        assert(a =~= b);
    } else {
        assert(a.contains(a.last()));
        assert(b.contains(a.last()));
        let k = choose|k: int| 0 <= k < b.len() && b[k] == a.last();
        assert(b.contains(b.last()));
        assert(a.contains(b.last()));
        let m = choose|m: int| 0 <= m < a.len() && a[m] == b.last();
        if a.last() != b.last() {
            assert(precedes(b[k], b[b.len() - 1]));
            assert(precedes(a[m], a[a.len() - 1]));
            law_order_is_transitive(a.last(), b.last(), a.last());
            law_order_is_irreflexive(a.last());
        }
        let (a1, b1) = (a.drop_last(), b.drop_last());
        assert forall|x: Seq<char>| #[trigger] a1.contains(x) <==> b1.contains(x) by {
            if a1.contains(x) {
                let i = choose|i: int| 0 <= i < a1.len() && a1[i] == x;
                assert(precedes(a[i], a[a.len() - 1]));
                law_order_is_irreflexive(x);
                assert(a.contains(x));
                let j = choose|j: int| 0 <= j < b.len() && b[j] == x;
                assert(b1[j] == x);
            }
            if b1.contains(x) {
                let i = choose|i: int| 0 <= i < b1.len() && b1[i] == x;
                assert(precedes(b[i], b[b.len() - 1]));
                law_order_is_irreflexive(x);
                assert(b.contains(x));
                assert(a.contains(x));
                let j = choose|j: int| 0 <= j < a.len() && a[j] == x;
                assert(a1[j] == x);
            }
        }
        lemma_ascending_determined(a1, b1);
        assert(a =~= a1.push(a.last()));
        assert(b =~= b1.push(b.last()));
    }
}

/// Which messages go to a channel.
pub open spec fn going_to(
    routes: Map<(Seq<char>, Seq<char>), int>,
    channel: int,
) -> spec_fn(ServerMessage) -> bool {
    |msg: ServerMessage| routes.contains_key(msg.which@) && routes[msg.which@] == channel
}

/// Which messages are at a location.
pub open spec fn being_at(location: (Seq<char>, Seq<char>)) -> spec_fn(ServerMessage) -> bool {
    |msg: ServerMessage| msg.which@ == location
}

/// What a channel gets of the messages that arrive: those whose location leads to it, in the order
/// of their arrival.
pub open spec fn delivered(
    routes: Map<(Seq<char>, Seq<char>), int>,
    messages: Seq<ServerMessage>,
    channel: int,
) -> Seq<ServerMessage> {
    messages.filter(going_to(routes, channel))
}

/// The messages at a location, in the order of their arrival.
pub open spec fn messages_at(
    messages: Seq<ServerMessage>,
    location: (Seq<char>, Seq<char>),
) -> Seq<ServerMessage> {
    messages.filter(being_at(location))
}

/// A subscriber gets the messages at its location, in the order of their arrival: none lost, none
/// twice, and none of another location.
pub proof fn law_subscribers_get_their_own_messages(
    routes: Map<(Seq<char>, Seq<char>), int>,
    messages: Seq<ServerMessage>,
    location: (Seq<char>, Seq<char>),
)
    requires
        has_own_channels(routes),
        routes.contains_key(location),
    ensures
        delivered(routes, messages, routes[location]) == messages_at(messages, location),
{
    lemma_same_filter(messages, going_to(routes, routes[location]), being_at(location));
}

proof fn lemma_same_filter(
    messages: Seq<ServerMessage>,
    f: spec_fn(ServerMessage) -> bool,
    g: spec_fn(ServerMessage) -> bool,
)
    requires
        forall|msg: ServerMessage| #[trigger] f(msg) <==> g(msg),
    ensures
        messages.filter(f) == messages.filter(g),
    decreases messages.len(),
{
    reveal(Seq::filter);
    if messages.len() > 0 {
        lemma_same_filter(messages.drop_last(), f, g);
    }
}

proof fn lemma_empty_filter(messages: Seq<ServerMessage>, f: spec_fn(ServerMessage) -> bool)
    requires
        forall|msg: ServerMessage| !#[trigger] f(msg),
    ensures
        messages.filter(f).len() == 0,
    decreases messages.len(),
{
    reveal(Seq::filter);
    if messages.len() > 0 {
        lemma_empty_filter(messages.drop_last(), f);
    }
}

/// Who subscribed last to a location gets its messages, who was subscribed to it before gets
/// nothing more, and nobody else is affected.
pub proof fn law_last_subscriber_gets_the_messages(
    routes: Map<(Seq<char>, Seq<char>), int>,
    location: (Seq<char>, Seq<char>),
    channel: int,
    messages: Seq<ServerMessage>,
    other: (Seq<char>, Seq<char>),
)
    requires
        has_own_channels(routes),
        !leads_to(routes, channel),
    ensures
        has_own_channels(routes.insert(location, channel)),
        routes.insert(location, channel)[location] == channel,
        delivered(routes.insert(location, channel), messages, channel) == messages_at(
            messages,
            location,
        ),
        routes.contains_key(location) ==> !leads_to(
            routes.insert(location, channel),
            routes[location],
        ) && delivered(routes.insert(location, channel), messages, routes[location]).len() == 0,
        other != location ==> (routes.insert(location, channel).contains_key(other)
            <==> routes.contains_key(other)),
        other != location && routes.contains_key(other) ==> {
            &&& routes.insert(location, channel)[other] == routes[other]
            &&& delivered(routes.insert(location, channel), messages, routes[other])
                == messages_at(messages, other)
        },
{
    let after = routes.insert(location, channel);
    assert forall|a: (Seq<char>, Seq<char>), b: (Seq<char>, Seq<char>)| #[trigger]
        after.contains_key(a) && #[trigger] after.contains_key(b) && a != b implies after[a]
        != after[b] by {
        assert(a != location ==> routes.contains_key(a));
        assert(b != location ==> routes.contains_key(b));
    }
    law_subscribers_get_their_own_messages(after, messages, location);
    if routes.contains_key(location) {
        let replaced = routes[location];
        assert forall|k: (Seq<char>, Seq<char>)| #[trigger] after.contains_key(k) implies after[k]
            != replaced by {
            assert(k != location ==> routes.contains_key(k));
        }
        lemma_empty_filter(messages, going_to(after, replaced));
    }
    if other != location && routes.contains_key(other) {
        law_subscribers_get_their_own_messages(after, messages, other);
    }
}

/// Whoever wants messages, their channel is asked for, and only once.
pub proof fn law_wanted_channel_is_requested_once(
    requests: Seq<WsRequest>,
    routes: Map<(Seq<char>, Seq<char>), int>,
    location: (Seq<char>, Seq<char>),
)
    requires
        lists_channels(requested(requests), routes),
        routes.contains_key(location),
    ensures
        exists|i: int|
            0 <= i < requests.len() && requested(requests)[i] == location.0,
        forall|i: int, j: int|
            0 <= i < requests.len() && 0 <= j < requests.len() && #[trigger] requested(requests)[i]
                == location.0 && #[trigger] requested(requests)[j] == location.0 ==> i == j,
{
    let names = requested(requests);
    assert(routes.contains_key((location.0, location.1)));
    assert(has_channel(routes, location.0));
    assert(names.contains(location.0));
    law_order_is_irreflexive(location.0);
    assert forall|i: int, j: int|
        0 <= i < requests.len() && 0 <= j < requests.len() && #[trigger] names[i] == location.0
            && #[trigger] names[j] == location.0 implies i == j by {
        if i < j {
            assert(precedes(names[i], names[j]));
        } else if j < i {
            assert(precedes(names[j], names[i]));
        }
    }
}

/// What a message is made of: everything in it is as it was received; its content is the result
/// where there is one, else the error, and without both there is no message.
pub proof fn law_messages_keep_what_was_received(
    msg: WsResponse,
    res: Result<ServerMessage, InvalidMessage>,
)
    requires
        call_ensures(ServerMessage::deserialize, (msg,), res),
    ensures
        res is Err <==> msg.result is None && msg.error is None,
        res matches Err(invalid) ==> invalid.response == msg,
        res matches Ok(message) ==> {
            &&& message.time == msg.time
            &&& message.id == msg.id
            &&& message.which.channel@ == msg.channel@
            &&& message.which.event@ == msg.event@
        },
        msg.result matches Some(result) ==> (res matches Ok(message) && (message.content matches Ok(
            value,
        ) && value == result)),
        msg.result is None ==> (msg.error matches Some(error) ==> (res matches Ok(message) && (
        message.content matches Err(refusal) && refusal == error))),
{
}

/// What the user is told of a message without content.
pub proof fn law_invalid_messages_are_told(invalid: InvalidMessage, res: &'static str)
    requires
        call_ensures(InvalidMessage::expected, (&invalid,), res),
    ensures
        res@ == "an object with non-null result or error fields"@,
{
}

/// A new client has no subscriber, whatever the message.
pub proof fn law_new_clients_have_no_subscribers(
    key: String,
    secret: String,
    client: WsClient,
    msg: ServerMessage,
    route: Option<&Sender<ServerMessage>>,
    requests: Vec<WsRequest>,
)
    requires
        call_ensures(WsClient::new, (key, secret), client),
        call_ensures(WsClient::route, (&client, &msg), route),
        call_ensures(WsClient::subscriptions, (&client,), requests),
    ensures
        route is None,
        requests@.len() == 0,
{
    if requests@.len() > 0 {
        let names = requested(requests@);
        assert(names.contains(names[0]));
        assert(has_channel(client.routes(), names[0]));
    }
}

/// After subscribing, the messages at that channel and event go to the receiver that was given out,
/// and no other message does; every other message goes where it went.
pub proof fn law_messages_go_to_their_subscriber(
    client: &mut WsClient,
    before: WsClient,
    after: WsClient,
    channel: String,
    event: String,
    receiver: Receiver<ServerMessage>,
    msg: ServerMessage,
    old_route: Option<&Sender<ServerMessage>>,
    new_route: Option<&Sender<ServerMessage>>,
)
    requires
        before == *client,
        after == *final(client),
        call_ensures(WsClient::subscribe, (client, channel, event), receiver),
        call_ensures(WsClient::route, (&before, &msg), old_route),
        call_ensures(WsClient::route, (&after, &msg), new_route),
    ensures
        old_route matches Some(sender) ==> sender_channel(*sender) != receiver_channel(receiver),
        msg.which.channel@ == channel@ && msg.which.event@ == event@ ==> (new_route matches Some(
            sender,
        ) && sender_channel(*sender) == receiver_channel(receiver)),
        !(msg.which.channel@ == channel@ && msg.which.event@ == event@) ==> {
            &&& new_route is Some <==> old_route is Some
            &&& new_route matches Some(sender) ==> sender_channel(*sender) == sender_channel(
                *old_route->0,
            ) && sender_channel(*sender) != receiver_channel(receiver)
        },
{
}

/// Messages at different channels or events never go to the same receiver, and those at the same
/// channel and event always do.
pub proof fn law_locations_do_not_mix(
    client: WsClient,
    msg: ServerMessage,
    route: Option<&Sender<ServerMessage>>,
    other: ServerMessage,
    other_route: Option<&Sender<ServerMessage>>,
)
    requires
        call_ensures(WsClient::route, (&client, &msg), route),
        call_ensures(WsClient::route, (&client, &other), other_route),
    ensures
        msg.which.channel@ == other.which.channel@ && msg.which.event@ == other.which.event@ ==> (
        route is Some <==> other_route is Some) && (route matches Some(sender) ==> sender_channel(
            *sender,
        ) == sender_channel(*other_route->0)),
        !(msg.which.channel@ == other.which.channel@ && msg.which.event@ == other.which.event@) ==> (
        route matches Some(sender) ==> (other_route matches Some(another) ==> sender_channel(
            *sender,
        ) != sender_channel(*another))),
{
    if msg.which@ != other.which@ && route is Some && other_route is Some {
        assert(client.routes().contains_key(msg.which@));
        assert(client.routes().contains_key(other.which@));
    }
}

/// A connection begins with a request for each channel that anyone wants messages on, and for no
/// other: in strictly ascending order, so each once, to subscribe, and without a payload.
pub proof fn law_wanted_channels_are_requested(
    client: WsClient,
    requests: Vec<WsRequest>,
    msg: ServerMessage,
    route: Option<&Sender<ServerMessage>>,
)
    requires
        call_ensures(WsClient::subscriptions, (&client,), requests),
        call_ensures(WsClient::route, (&client, &msg), route),
    ensures
        forall|i: int|
            0 <= i < requests@.len() ==> (#[trigger] requests@[i] matches WsRequest::GateIo {
                channel,
                event,
                payload,
            } && event@ == "subscribe"@ && json_text(payload) == "null"@ && exists|wanted: Seq<char>|
                client.routes().contains_key((channel@, wanted))),
        forall|i: int, j: int|
            0 <= i < j < requests@.len() ==> precedes(
                (#[trigger] requests@[i])->channel@,
                (#[trigger] requests@[j])->channel@,
            ),
        route is Some ==> exists|i: int|
            0 <= i < requests@.len() && (#[trigger] requests@[i])->channel@ == msg.which.channel@,
{
    let names = requested(requests@);
    let routes = client.routes();
    assert forall|i: int| 0 <= i < requests@.len() implies (
    #[trigger] requests@[i] matches WsRequest::GateIo { channel, event, payload } && event@
        == "subscribe"@ && json_text(payload) == "null"@ && exists|wanted: Seq<char>|
        routes.contains_key((channel@, wanted))) by {
        assert(is_subscription(requests@[i], names[i]));
        assert(names.contains(names[i]));
        assert(has_channel(routes, names[i]));
    }
    assert forall|i: int, j: int| 0 <= i < j < requests@.len() implies precedes(
        (#[trigger] requests@[i])->channel@,
        (#[trigger] requests@[j])->channel@,
    ) by {
        assert(precedes(names[i], names[j]));
    }
    if route is Some {
        assert(routes.contains_key((msg.which.channel@, msg.which.event@)));
        assert(has_channel(routes, msg.which.channel@));
        assert(names.contains(msg.which.channel@));
        let i = choose|i: int| 0 <= i < names.len() && names[i] == msg.which.channel@;
        assert(requests@[i]->channel@ == msg.which.channel@);
    }
}

/// A request to the exchange is signed for its own channel and event, at the time that was given,
/// with the credentials of the client; nothing else is signed.
pub proof fn law_requests_are_signed(
    key: String,
    secret: String,
    client: WsClient,
    req: WsRequest,
    time: Option<u64>,
    res: Option<SignParams<'_>>,
)
    requires
        call_ensures(WsClient::new, (key, secret), client),
        call_ensures(WsClient::sign_params, (&client, &req, time), res),
    ensures
        req matches WsRequest::GateIo { channel, event, payload } ==> match time {
            Some(seconds) => res matches Some(params) && {
                &&& params.channel@ == channel@
                &&& params.event@ == event@
                &&& params.time == seconds
                &&& params.key@ == key@
                &&& params.secret@ == secret@
            },
            None => res is None,
        },
        !(req is GateIo) ==> res is None,
{
}

/// Subscribing does not change what requests are signed with.
pub proof fn law_credentials_stay(
    client: &mut WsClient,
    before: WsClient,
    after: WsClient,
    channel: String,
    event: String,
    receiver: Receiver<ServerMessage>,
    req: WsRequest,
    time: Option<u64>,
    old_res: Option<SignParams<'_>>,
    new_res: Option<SignParams<'_>>,
)
    requires
        before == *client,
        after == *final(client),
        call_ensures(WsClient::subscribe, (client, channel, event), receiver),
        call_ensures(WsClient::sign_params, (&before, &req, time), old_res),
        call_ensures(WsClient::sign_params, (&after, &req, time), new_res),
    ensures
        old_res is Some <==> new_res is Some,
        old_res matches Some(params) ==> params.key@ == (new_res->0).key@ && params.secret@ == (
        new_res->0).secret@,
{
}

/// What a request becomes. Without a time there is no message, whatever the request. Pings and
/// pongs keep their data. A request to the exchange becomes text that gives, in this order, the
/// signature, the channel, the event, the number, the payload and the time that were given, each
/// exactly as given and whatever the others are; texts that need no escape stand in quotes.
pub proof fn law_requests_become_messages(
    client: WsClient,
    req: WsRequest,
    id: u64,
    time: Option<u64>,
    auth: Value,
    res: Result<Message, EncodeError>,
)
    requires
        call_ensures(WsClient::build_message, (&client, req, id, time, auth), res),
    ensures
        res is Err <==> time is None,
        time matches Some(seconds) ==> match req {
            WsRequest::Ping(data) => res matches Ok(Message::Ping(sent)) && sent@ == data@,
            WsRequest::Pong(data) => res matches Ok(Message::Pong(sent)) && sent@ == data@,
            WsRequest::GateIo { channel, event, payload } => {
                &&& res matches Ok(Message::Text(text)) && text@ == "{\"auth\":"@ + json_text(auth)
                    + ",\"channel\":"@ + json_text(json_string(channel@)) + ",\"event\":"@
                    + json_text(json_string(event@)) + ",\"id\":"@ + decimal(id as nat)
                    + ",\"payload\":"@ + json_text(payload) + ",\"time\":"@ + decimal(
                    seconds as nat,
                ) + "}"@
                &&& (forall|i: int|
                    0 <= i < channel@.len() ==> #[trigger] channel@[i] != '"' && channel@[i] != '\\'
                        && channel@[i] as int >= 32) ==> json_text(json_string(channel@)) == seq![
                    '"',
                ] + channel@ + seq!['"']
                &&& (forall|i: int|
                    0 <= i < event@.len() ==> #[trigger] event@[i] != '"' && event@[i] != '\\'
                        && event@[i] as int >= 32) ==> json_text(json_string(event@)) == seq!['"']
                    + event@ + seq!['"']
            },
        },
{
}

/// Every request to the exchange begins with its signature, also where two differ in all else.
pub proof fn law_every_request_carries_its_signature(
    client: WsClient,
    req: WsRequest,
    id: u64,
    seconds: u64,
    auth: Value,
    res: Result<Message, EncodeError>,
    other_req: WsRequest,
    other_id: u64,
    other_seconds: u64,
    other_res: Result<Message, EncodeError>,
)
    requires
        call_ensures(WsClient::build_message, (&client, req, id, Some(seconds), auth), res),
        call_ensures(
            WsClient::build_message,
            (&client, other_req, other_id, Some(other_seconds), auth),
            other_res,
        ),
        req is GateIo,
        other_req is GateIo,
    ensures
        res matches Ok(Message::Text(text)) && ("{\"auth\":"@ + json_text(auth)
            + ",\"channel\":"@).is_prefix_of(text@),
        other_res matches Ok(Message::Text(text)) && ("{\"auth\":"@ + json_text(auth)
            + ",\"channel\":"@).is_prefix_of(text@),
{
    law_requests_become_messages(client, req, id, Some(seconds), auth, res);
    law_requests_become_messages(client, other_req, other_id, Some(other_seconds), auth, other_res);
    let begin = "{\"auth\":"@ + json_text(auth) + ",\"channel\":"@;
    if let Ok(Message::Text(text)) = res {
        assert(begin =~= text@.subrange(0, begin.len() as int));
    }
    if let Ok(Message::Text(text)) = other_res {
        assert(begin =~= text@.subrange(0, begin.len() as int));
    }
}

/// The first request of a connection has number one, each further one the next number, and zero
/// follows the largest.
pub proof fn law_numbers_count_on(fresh: MessageIds, ids: &mut MessageIds, res: u64)
    requires
        call_ensures(MessageIds::new, (), fresh),
        call_ensures(MessageIds::next, (ids,), res),
    ensures
        *old(ids) == fresh ==> res == 1,
        res == if old(ids)@ == 0xFFFF_FFFF_FFFF_FFFF {
            0
        } else {
            old(ids)@ + 1
        },
        final(ids)@ == res,
{
}

/// A connection sends each request as the message that it becomes under its next number, and uses
/// that number up also where no message comes of it.
pub proof fn law_requests_are_sent_under_the_next_number(
    client: WsClient,
    ids: &mut MessageIds,
    counter: &mut MessageIds,
    id: u64,
    req: WsRequest,
    time: Option<u64>,
    auth: Value,
    sent: Result<Message, EncodeError>,
)
    requires
        call_ensures(WsClient::sending, (&client, ids, req, time, auth), sent),
        call_ensures(MessageIds::next, (counter,), id),
        *ids == *counter,
    ensures
        final(ids)@ == id,
        sent is Err <==> time is None,
        time matches Some(seconds) ==> match req {
            WsRequest::Ping(data) => sent matches Ok(Message::Ping(bytes)) && bytes@ == data@,
            WsRequest::Pong(data) => sent matches Ok(Message::Pong(bytes)) && bytes@ == data@,
            WsRequest::GateIo { channel, event, payload } => sent matches Ok(Message::Text(text))
                && text@ == "{\"auth\":"@ + json_text(auth) + ",\"channel\":"@ + json_text(
                json_string(channel@),
            ) + ",\"event\":"@ + json_text(json_string(event@)) + ",\"id\":"@ + decimal(id as nat)
                + ",\"payload\":"@ + json_text(payload) + ",\"time\":"@ + decimal(seconds as nat)
                + "}"@,
        },
{
}

/// What is done with each message: text is read, also where it comes as bytes; other bytes are
/// handed back; a ping is answered with its data; a pong is passed on with its data; anything else
/// is only reported.
pub proof fn law_every_message_is_handled(client: WsClient, msg: Message, res: Dispatch)
    requires
        call_ensures(WsClient::dispatching, (&client, msg), res),
    ensures
        msg matches Message::Text(text) ==> (res matches Dispatch::Parse(read) && read@ == text@),
        msg matches Message::Binary(data) ==> if exists|text: Seq<char>|
            data@ == #[trigger] encode_utf8(text) {
            res matches Dispatch::Parse(read) && data@ == encode_utf8(read@)
        } else {
            res matches Dispatch::NotText(bytes) && bytes@ == data@
        },
        msg matches Message::Ping(data) ==> (res matches Dispatch::Reply(WsRequest::Pong(answer))
            && answer@ == data@),
        msg matches Message::Pong(data) ==> (res matches Dispatch::Pong(answer) && answer@ == data@),
        msg matches Message::Other(what) ==> (res matches Dispatch::Unhandled(report) && report@
            == what@),
{
    if let Message::Binary(data) = msg {
        if valid_utf8(data@) {
            vstd::utf8::decode_utf8_encode_utf8(data@);
            assert(data@ == encode_utf8(decode_utf8(data@)));
        }
        if exists|text: Seq<char>| data@ == #[trigger] encode_utf8(text) {
            let text = choose|text: Seq<char>| data@ == #[trigger] encode_utf8(text);
            vstd::utf8::encode_utf8_valid_utf8(text);
        }
    }
}

} // verus!
