//! Staying connected.

use crate::console::{eprint_msg, line, print_msg};
use crate::ws::WsClient;
use vstd::prelude::*;
use vstd::string::StringExecFns;

verus! {

/// What came of a connection.
#[derive(Debug)]
pub enum ConnectionEvent {
    /// The connection is there.
    Connected,
    /// No connection could be made, and why.
    ConnectFailed(String),
    /// One of the tasks of the connection ended first.
    Ended(TaskEnd),
}

/// Which task of a connection ended, and how.
#[derive(Debug)]
pub enum TaskEnd {
    /// There are no more incoming messages: the last of them could not be received, and why, or
    /// the server closed the connection.
    Dispatching(Result<(), String>),
    /// The server stopped answering pings, and how.
    Ping(String),
    /// Nothing can be sent any more, and why, or there will be no more requests to send.
    Sending(Result<(), String>),
}

/// What to do next.
#[derive(Debug)]
pub enum ConnectionStep {
    /// Connect to the server.
    Connect,
    /// Run the tasks of the connection.
    Run,
    /// Give up, for this reason.
    Fail(String),
}

/// What to show on standard output and on standard error, and what to do next.
#[derive(Debug)]
pub struct ConnectionAction {
    pub out: String,
    pub err: String,
    pub step: ConnectionStep,
}

/// Why the connection was lost, where it was: once there are no more incoming messages, however
/// they ended, once the server stops answering pings, and once nothing can be sent. Only a client
/// without further requests ends a connection that is still there.
pub open spec fn lost(end: TaskEnd) -> Option<Seq<char>> {
    match end {
        TaskEnd::Dispatching(Ok(_)) => Some("Server closed the connection"@),
        TaskEnd::Dispatching(Err(e)) => Some(e@),
        TaskEnd::Ping(e) => Some(e@),
        TaskEnd::Sending(Ok(_)) => None,
        TaskEnd::Sending(Err(e)) => Some(e@),
    }
}

/// Where the websocket API is.
pub const WS_URL: &'static str = "wss://api.gateio.ws/ws/v4/";

impl WsClient {
    /// How the connection ended, given the task that ended first: with an error on ping or
    /// network failure, that is where the connection was lost.
    pub fn run(&self, end: TaskEnd) -> (res: Result<(), String>)
        ensures
            match res {
                Ok(_) => lost(end) is None,
                Err(e) => lost(end) == Some(e@),
            },
    {
        match end {
            TaskEnd::Dispatching(Ok(_)) => Err("Server closed the connection".to_owned()),
            TaskEnd::Dispatching(Err(e)) => Err(e),
            TaskEnd::Ping(e) => Err(e),
            TaskEnd::Sending(sending) => sending,
        }
    }

    /// connect to the websocket address and run forever, reconnect if necessary
    pub fn run_forever(&self, event: ConnectionEvent) -> (res: ConnectionAction)
        ensures
            match event {
                ConnectionEvent::Connected => {
                    &&& res.out@ == line("[OK] gate.io websocket API"@)
                    &&& res.err@.len() == 0
                    &&& res.step is Run
                },
                ConnectionEvent::ConnectFailed(e) => {
                    &&& res.out@.len() == 0
                    &&& res.err@.len() == 0
                    &&& res.step matches ConnectionStep::Fail(why) && why@ == e@
                },
                ConnectionEvent::Ended(end) => {
                    &&& res.step is Connect
                    &&& match lost(end) {
                        Some(e) => {
                            &&& res.err@ == line("[Er] Server connection lost: "@ + e)
                            &&& res.out@ == line("[ -] Reconnecting..."@)
                        },
                        None => res.out@.len() == 0 && res.err@.len() == 0,
                    }
                },
            },
    {
        match event {
            ConnectionEvent::Connected => ConnectionAction {
                out: print_msg("[OK] gate.io websocket API"),
                err: String::new(),
                step: ConnectionStep::Run,
            },
            ConnectionEvent::ConnectFailed(e) => ConnectionAction {
                out: String::new(),
                err: String::new(),
                step: ConnectionStep::Fail(e),
            },
            ConnectionEvent::Ended(end) => match self.run(end) {
                Err(e) => {
                    let mut report = "[Er] Server connection lost: ".to_owned();
                    report.append(e.as_str());
                    ConnectionAction {
                        out: print_msg("[ -] Reconnecting..."),
                        err: eprint_msg(report.as_str()),
                        step: ConnectionStep::Connect,
                    }
                },
                Ok(_) => ConnectionAction {
                    out: String::new(),
                    err: String::new(),
                    step: ConnectionStep::Connect,
                },
            },
        }
    }
}

/// The end of the incoming messages, a ping that is not answered and a message that cannot be sent
/// are each reported as a lost connection, whatever else is known of them.
pub proof fn law_lost_connections_are_reported(end: TaskEnd)
    ensures
        lost(end) is None <==> end matches TaskEnd::Sending(Ok(_)),
{
}

/// How a connection ends: with the error of the task that ended first, and with one of its own
/// where the server closed it.
pub proof fn law_connection_ends_with_its_error(
    client: WsClient,
    end: TaskEnd,
    res: Result<(), String>,
)
    requires
        call_ensures(WsClient::run, (&client, end), res),
    ensures
        end matches TaskEnd::Dispatching(Err(e)) ==> (res matches Err(why) && why@ == e@),
        end matches TaskEnd::Dispatching(Ok(_)) ==> (res matches Err(why) && why@
            == "Server closed the connection"@),
        end matches TaskEnd::Ping(e) ==> (res matches Err(why) && why@ == e@),
        end matches TaskEnd::Sending(Err(e)) ==> (res matches Err(why) && why@ == e@),
        end matches TaskEnd::Sending(Ok(_)) ==> res is Ok,
{
}

/// What is done and shown: a connection that is there is run; one that ended is made again, and its
/// error, if it ended with one, is shown before; only where none can be made the client gives up,
/// with the reason.
pub proof fn law_client_stays_connected(
    client: WsClient,
    event: ConnectionEvent,
    res: ConnectionAction,
    end: TaskEnd,
    ended: Result<(), String>,
)
    requires
        call_ensures(WsClient::run_forever, (&client, event), res),
        call_ensures(WsClient::run, (&client, end), ended),
    ensures
        event is Connected ==> {
            &&& res.step is Run
            &&& res.out@ == line("[OK] gate.io websocket API"@)
            &&& res.err@ == Seq::<char>::empty()
        },
        event matches ConnectionEvent::ConnectFailed(e) ==> {
            &&& res.step matches ConnectionStep::Fail(why) && why@ == e@
            &&& res.out@ == Seq::<char>::empty()
            &&& res.err@ == Seq::<char>::empty()
        },
        event == ConnectionEvent::Ended(end) ==> {
            &&& res.step is Connect
            &&& match ended {
                Err(e) => {
                    &&& res.err@ == line("[Er] Server connection lost: "@ + e@)
                    &&& res.out@ == line("[ -] Reconnecting..."@)
                },
                Ok(_) => {
                    &&& res.err@ == Seq::<char>::empty()
                    &&& res.out@ == Seq::<char>::empty()
                },
            }
        },
        res.step is Fail <==> event is ConnectFailed,
{
}

} // verus!
