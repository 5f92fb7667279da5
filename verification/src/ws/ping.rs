//! Keeping the connection alive: pings that the server has to answer.

use crate::ws::WsRequest;
use vstd::arithmetic::div_mod::{
    lemma_fundamental_div_mod, lemma_fundamental_div_mod_converse, lemma_small_mod,
};
use vstd::prelude::*;

verus! {

/// How many seconds the server has to answer a ping.
pub const PONG_TIMEOUT_SECS: u64 = 5;

/// How many seconds pass between an answer and the next ping.
pub const PING_PAUSE_SECS: u64 = 2;

/// `256^n`.
pub open spec fn pow256(n: nat) -> nat
    decreases n,
{
    if n == 0 {
        1
    } else {
        256 * pow256((n - 1) as nat)
    }
}

/// The number that the bytes stand for, the most significant byte first.
pub open spec fn big_endian(bytes: Seq<u8>) -> nat
    decreases bytes.len(),
{
    if bytes.len() == 0 {
        0
    } else {
        256 * big_endian(bytes.drop_last()) + bytes.last() as nat
    }
}

/// How many bytes a counter takes.
pub open spec fn counter_size() -> nat {
    (usize::BITS / 8) as nat
}

/// What the server's answer holds: the number that its first bytes stand for, or nothing
/// where there are too few of them.
pub open spec fn pong_value(data: Seq<u8>) -> Option<nat> {
    if data.len() >= counter_size() {
        Some(big_endian(data.take(counter_size() as int)))
    } else {
        None
    }
}

/// What came of waiting for an answer.
#[derive(Debug)]
pub enum PongEvent {
    /// The server answered with this data.
    Answer(Vec<u8>),
    /// No answer can come any more.
    Closed,
    /// The server did not answer in time.
    TimedOut,
}

/// Why the connection counts as lost.
#[derive(Clone, Copy, Debug, PartialEq, Eq, Structural)]
pub enum PingError {
    NoResponse,
    StreamClosed,
    Incorrect,
}

impl PingError {
    /// What the user is told.
    pub fn message(&self) -> (res: &'static str)
        ensures
            res@ == match *self {
                PingError::NoResponse => "Server did not respond to ping"@,
                PingError::StreamClosed => "Pong data stream closed"@,
                PingError::Incorrect => "Pong data incorrect"@,
            },
    {
        match self {
            PingError::NoResponse => "Server did not respond to ping",
            PingError::StreamClosed => "Pong data stream closed",
            PingError::Incorrect => "Pong data incorrect",
        }
    }
}

/// regularly send ping to server to make sure the connection is alive
#[derive(Debug)]
pub struct Pinger {
    counter: usize,
}

impl View for Pinger {
    type V = nat;

    /// How many pings were answered, up to wrapping.
    closed spec fn view(&self) -> nat {
        self.counter as nat
    }
}

/// What a counter at `n` counts on to.
pub open spec fn count_on(n: nat) -> nat {
    if n == usize::MAX {
        0
    } else {
        n + 1
    }
}

/// The counter after `n` answered pings.
pub open spec fn counted(n: nat) -> nat
    decreases n,
{
    if n == 0 {
        0
    } else {
        count_on(counted((n - 1) as nat))
    }
}

impl Pinger {
    /// The pinger of a new connection.
    pub fn new() -> (res: Pinger)
        ensures
            res@ == 0,
    {
        Pinger { counter: 0 }
    }

    /// The next ping to send: it holds the counter, the most significant byte first.
    pub fn ping(&self) -> (res: WsRequest)
        ensures
            res is Ping,
            res->Ping_0@.len() == counter_size(),
            big_endian(res->Ping_0@) == self@,
    {
        WsRequest::Ping(to_big_endian(self.counter))
    }

    /// Goes on after waiting for the answer: the number that the answer holds, and the
    /// counter counted on, or why the connection is lost.
    pub fn pong(&mut self, event: PongEvent) -> (res: Result<usize, PingError>)
        ensures
            match event {
                PongEvent::Answer(data) => match pong_value(data@) {
                    Some(n) => res matches Ok(got) && got == n,
                    None => res == Err::<usize, PingError>(PingError::Incorrect),
                },
                PongEvent::Closed => res == Err::<usize, PingError>(PingError::StreamClosed),
                PongEvent::TimedOut => res == Err::<usize, PingError>(PingError::NoResponse),
            },
            final(self)@ == if res is Ok {
                count_on(old(self)@)
            } else {
                old(self)@
            },
    {
        let data = match event {
            PongEvent::Answer(data) => data,
            PongEvent::Closed => {
                return Err(PingError::StreamClosed);
            },
            PongEvent::TimedOut => {
                return Err(PingError::NoResponse);
            },
        };
        if data.len() < (usize::BITS / 8) as usize {
            return Err(PingError::Incorrect);
        }
        let got = from_big_endian(&data);
        self.counter = self.counter.wrapping_add(1);
        Ok(got)
    }
}

proof fn lemma_counter_range()
    ensures
        counter_size() == 4 || counter_size() == 8,
        pow256(counter_size()) == usize::MAX as nat + 1,
{
    assert(usize::BITS == 32 || usize::BITS == 64);
    reveal_with_fuel(pow256, 9);
}

proof fn lemma_pow256_grows(m: nat, n: nat)
    requires
        m <= n,
    ensures
        0 < pow256(m) <= pow256(n),
    decreases n,
{
    if n > 0 {
        if m == n {
            lemma_pow256_grows((m - 1) as nat, (n - 1) as nat);
        } else {
            lemma_pow256_grows(m, (n - 1) as nat);
        }
    }
}

proof fn lemma_big_endian_bound(bytes: Seq<u8>)
    ensures
        big_endian(bytes) < pow256(bytes.len()),
    decreases bytes.len(),
{
    if bytes.len() > 0 {
        lemma_big_endian_bound(bytes.drop_last());
    }
}

/// A byte put before others counts for what the place is worth.
proof fn lemma_big_endian_prepend(first: u8, bytes: Seq<u8>)
    ensures
        big_endian(seq![first] + bytes) == first * pow256(bytes.len()) + big_endian(bytes),
    decreases bytes.len(),
{
    let all = seq![first] + bytes;
    if bytes.len() == 0 {
        assert(all.drop_last() =~= seq![]);
        assert(big_endian(all.drop_last()) == 0);
        assert(all.last() == first);
        assert(first * pow256(0) == first) by (nonlinear_arith)
            requires
                pow256(0) == 1,
        ;
    } else {
        lemma_big_endian_prepend(first, bytes.drop_last());
        assert(all.drop_last() =~= seq![first] + bytes.drop_last());
        assert(all.last() == bytes.last());
        let p = pow256((bytes.len() - 1) as nat) as int;
        let b = big_endian(bytes.drop_last()) as int;
        assert(256 * (first * p + b) == first * (256 * p) + 256 * b) by (nonlinear_arith);
    }
}

/// The bytes of `n`, the most significant first.
fn to_big_endian(n: usize) -> (res: Vec<u8>)
    ensures
        res@.len() == counter_size(),
        big_endian(res@) == n,
{
    let size = (usize::BITS / 8) as usize;
    let mut res: Vec<u8> = Vec::new();
    let mut rest: usize = n;
    let mut i: usize = 0;
    proof {
        lemma_counter_range();
        assert(n * pow256(0) == n) by (nonlinear_arith)
            requires
                pow256(0) == 1,
        ;
    }
    while i < size
        invariant
            i <= size,
            size == counter_size(),
            res@.len() == i,
            rest * pow256(i as nat) + big_endian(res@) == n,
            pow256(counter_size()) == usize::MAX as nat + 1,
        decreases size - i,
    {
        let low: u8 = (rest % 256) as u8;
        let ghost before = res@;
        let ghost rest_before = rest as int;
        res.insert(0, low);
        rest = rest / 256;
        proof {
            assert(res@ =~= seq![low] + before);
            lemma_big_endian_prepend(low, before);
            let p = pow256(i as nat) as int;
            let (q, l) = (rest as int, low as int);
            assert(q * (256 * p) + l * p == rest_before * p) by (nonlinear_arith)
                requires
                    rest_before == 256 * q + l,
            ;
        }
        i = i + 1;
    }
    proof {
        let p = pow256(counter_size()) as int;
        let r = rest as int;
        assert(r * p == 0) by (nonlinear_arith)
            requires
                r * p <= n < p,
                r >= 0,
        ;
    }
    res
}

/// The number that the first bytes of `data` stand for.
fn from_big_endian(data: &Vec<u8>) -> (res: usize)
    requires
        data@.len() >= counter_size(),
    ensures
        res == big_endian(data@.take(counter_size() as int)),
{
    let size = (usize::BITS / 8) as usize;
    let mut res: usize = 0;
    let mut i: usize = 0;
    while i < size
        invariant
            i <= size == counter_size(),
            data@.len() >= size,
            res == big_endian(data@.take(i as int)),
        decreases size - i,
    {
        proof {
            let more = data@.take(i + 1);
            assert(more.drop_last() =~= data@.take(i as int));
            lemma_big_endian_bound(more);
            lemma_counter_range();
            lemma_pow256_grows((i + 1) as nat, counter_size());
        }
        res = 256 * res + data[i] as usize;
        i = i + 1;
    }
    res
}

/// A server that sends back what it was sent is alive: the answer is accepted, and holds the
/// counter of the ping. What follows in the answer does not matter.
pub proof fn law_echoed_ping_is_accepted(ping: Seq<u8>, more: Seq<u8>)
    requires
        ping.len() == counter_size(),
    ensures
        pong_value(ping + more) == Some(big_endian(ping)),
{
    assert((ping + more).take(counter_size() as int) =~= ping);
}

/// The counter of a connection counts its answered pings, and wraps.
pub proof fn law_pings_are_counted(n: nat)
    ensures
        counted(n) == n % (usize::MAX as nat + 1),
    decreases n,
{
    if n > 0 {
        law_pings_are_counted((n - 1) as nat);
        let m = usize::MAX as int + 1;
        let (q, r) = ((n - 1) / m, (n - 1) % m);
        lemma_fundamental_div_mod(n - 1, m);
        assert(q * m == m * q && (q + 1) * m == m * q + m) by (nonlinear_arith);
        if r == m - 1 {
            lemma_fundamental_div_mod_converse(n as int, m, q + 1, 0);
        } else {
            lemma_fundamental_div_mod_converse(n as int, m, q, r + 1);
        }
    } else {
        lemma_small_mod(0, usize::MAX as nat + 1);
    }
}

/// Bytes are determined by their number and what they stand for: pings with different counters
/// differ, and there is only one ping for a counter.
pub proof fn law_ping_is_determined(a: Seq<u8>, b: Seq<u8>)
    requires
        a.len() == b.len(),
        big_endian(a) == big_endian(b),
    ensures
        a == b,
    decreases a.len(),
{
    if a.len() > 0 {
        let (x, y) = (big_endian(a.drop_last()), big_endian(b.drop_last()));
        let (p, q) = (a.last(), b.last());
        assert(256 * x + p == 256 * y + q);
        assert(x == y && p == q);
        law_ping_is_determined(a.drop_last(), b.drop_last());
        assert(a =~= a.drop_last().push(p));
        assert(b =~= b.drop_last().push(q));
    } else {
        assert(a =~= b);
    }
}

/// A ping is as long as a counter, and the first one is all zeros.
pub proof fn law_first_ping_is_zero(pinger: Pinger, ping: WsRequest, i: int)
    requires
        call_ensures(Pinger::new, (), pinger),
        call_ensures(Pinger::ping, (&pinger,), ping),
        0 <= i < usize::BITS / 8,
    ensures
        ping matches WsRequest::Ping(data) && data@.len() == usize::BITS / 8 && data@[i] == 0,
{
    lemma_zeros(ping->Ping_0@, i);
}

proof fn lemma_zeros(bytes: Seq<u8>, i: int)
    requires
        big_endian(bytes) == 0,
        0 <= i < bytes.len(),
    ensures
        bytes[i] == 0,
    decreases bytes.len(),
{
    if i < bytes.len() - 1 {
        lemma_zeros(bytes.drop_last(), i);
    }
}

/// The most significant byte comes first: one more byte makes the number 256 times as large, and
/// adds the byte.
pub proof fn law_most_significant_byte_comes_first(bytes: Seq<u8>, last: u8)
    ensures
        big_endian(seq![]) == 0,
        big_endian(bytes.push(last)) == 256 * big_endian(bytes) + last,
{
    assert(bytes.push(last).drop_last() =~= bytes);
}

/// Each ping that was answered makes the next one larger by one, or zero after the largest; one
/// that was not answered leaves it as it is.
pub proof fn law_next_ping_is_one_larger(
    pinger: &mut Pinger,
    before: Pinger,
    after: Pinger,
    event: PongEvent,
    res: Result<usize, PingError>,
    ping: WsRequest,
    next: WsRequest,
)
    requires
        before == *pinger,
        after == *final(pinger),
        call_ensures(Pinger::ping, (&before,), ping),
        call_ensures(Pinger::pong, (pinger, event), res),
        call_ensures(Pinger::ping, (&after,), next),
    ensures
        ping matches WsRequest::Ping(sent) && next matches WsRequest::Ping(data) && big_endian(data@)
            == if res is Err {
            big_endian(sent@)
        } else if big_endian(sent@) == usize::MAX {
            0
        } else {
            big_endian(sent@) + 1
        },
{
}

/// What becomes of waiting for an answer: an answer is accepted exactly if it is at least as long
/// as a counter, whatever it holds, and the number is that of its first bytes; each way to get none
/// has its own error.
pub proof fn law_answers_are_accepted(
    pinger: &mut Pinger,
    event: PongEvent,
    res: Result<usize, PingError>,
)
    requires
        call_ensures(Pinger::pong, (pinger, event), res),
    ensures
        event is TimedOut ==> (res matches Err(e) && e == PingError::NoResponse),
        event is Closed ==> (res matches Err(e) && e == PingError::StreamClosed),
        event matches PongEvent::Answer(data) ==> if data@.len() >= usize::BITS / 8 {
            res matches Ok(n) && n == big_endian(data@.take((usize::BITS / 8) as int))
        } else {
            res matches Err(e) && e == PingError::Incorrect
        },
{
}

/// A ping that is sent back is accepted, with its counter.
pub proof fn law_sent_ping_is_accepted(
    before: Pinger,
    ping: WsRequest,
    pinger: &mut Pinger,
    event: PongEvent,
    res: Result<usize, PingError>,
)
    requires
        call_ensures(Pinger::ping, (&before,), ping),
        call_ensures(Pinger::pong, (pinger, event), res),
        ping matches WsRequest::Ping(data) && event == PongEvent::Answer(data),
    ensures
        res matches Ok(n) && n == big_endian(ping->Ping_0@),
{
    let data = ping->Ping_0@;
    assert(data.take(counter_size() as int) =~= data);
}

/// What the user is told of each way to lose the connection.
pub proof fn law_ping_errors_are_told(error: PingError, res: &'static str)
    requires
        call_ensures(PingError::message, (&error,), res),
    ensures
        error == PingError::NoResponse ==> res@ == "Server did not respond to ping"@,
        error == PingError::StreamClosed ==> res@ == "Pong data stream closed"@,
        error == PingError::Incorrect ==> res@ == "Pong data incorrect"@,
{
}

} // verus!
