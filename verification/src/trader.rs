//! The trader: which coins it sells, what it listens to, and what the keyboard makes it do.

use crate::amount::{optional, Amount, Number};
use crate::console::{line, print_msg};
use crate::rest::{
    currency_pair_path, pair_path, parsed, url_parse, CurrencyPair, RestError, SpotAccount,
    SpotTickersParams,
};
use crate::sale::{
    account_sale, is_first_pair, law_all_funds_are_planned, law_balances_are_sold, offer,
    pairs_view, plan_view, planned, sell, sell_all_pairs, sellable, Terms,
};
use crate::ws::channels::{
    concerns, is_latest, latest_balance, law_latest_balance_is_determined,
    law_latest_has_the_greatest_timestamp, SpotBalance,
};
use crate::ws::{
    has_channel, has_own_channels, law_channel_list_is_determined, leads_to, lists_channels,
    receiver_channel, sender_channel, ServerMessage, SignParams, WsClient, WsRequest,
};
use async_channel::{Receiver, Sender};
use surf::http::url::ParseError;
use surf::Url;
use vstd::prelude::*;

verus! {

/// Where the REST API is.
pub const REST_URL: &'static str = "https://api.gateio.ws/api/v4/";

/// Which key was pressed.
#[derive(Clone, Copy, Debug)]
pub enum KeyCode {
    Char(char),
    Esc,
    Other,
}

/// Which modifiers were held with a key.
#[derive(Clone, Copy, Debug)]
pub struct KeyModifiers {
    pub shift: bool,
    pub control: bool,
    pub alt: bool,
}

/// What came from the terminal.
#[derive(Clone, Copy, Debug)]
pub enum InputEvent {
    /// A key.
    Key { code: KeyCode, modifiers: KeyModifiers },
    /// Anything else, such as the mouse.
    Other,
}

/// What a key makes the trader do.
#[derive(Clone, Copy, Debug, PartialEq, Eq, Structural)]
pub enum KeyAction {
    PrintHelp,
    PrintBalance,
    SellAllPairs,
    Quit,
    Ignore,
}

/// Whether control alone is held.
pub open spec fn only_control(modifiers: KeyModifiers) -> bool {
    modifiers.control && !modifiers.shift && !modifiers.alt
}

/// What a key makes the trader do.
pub open spec fn key_action(event: InputEvent) -> KeyAction {
    match event {
        InputEvent::Key { code: KeyCode::Char(c), modifiers } => if c == '?' || c == 'h' {
            KeyAction::PrintHelp
        } else if c == 'p' {
            KeyAction::PrintBalance
        } else if c == 's' {
            KeyAction::SellAllPairs
        } else if c == 'c' && only_control(modifiers) {
            KeyAction::Quit
        } else {
            KeyAction::Ignore
        },
        InputEvent::Key { code: KeyCode::Esc, .. } => KeyAction::Quit,
        _ => KeyAction::Ignore,
    }
}

/// The trader.
#[derive(Debug)]
pub struct Trader {
    pub ws_client: WsClient,
    /// What REST requests are relative to.
    pub base_url: Url,
    /// Which coin is sold for which.
    pub trading_pairs: Vec<(String, String)>,
}

/// Whether the trader has these credentials, and nothing to sell or to listen to yet.
pub open spec fn is_new_trader(
    trader: Trader,
    key: Seq<char>,
    secret: Seq<char>,
    base_url: Url,
) -> bool {
    &&& trader.ws_client.key() == key
    &&& trader.ws_client.secret() == secret
    &&& trader.ws_client.routes() == Map::<(Seq<char>, Seq<char>), int>::empty()
    &&& trader.base_url == base_url
    &&& trader.trading_pairs@.len() == 0
}

/// Where the news that the trader listens to arrives.
#[derive(Debug)]
pub struct Listeners {
    /// News on balances.
    pub updates: Receiver<ServerMessage>,
    /// What the exchange says to having been asked for that news.
    pub subscribed: Receiver<ServerMessage>,
}

impl Trader {
    /// A trader with these API credentials, and nothing to sell yet, and what is shown once it
    /// is there.
    pub fn spawn(key: String, secret: String) -> (res: Result<(Trader, String), RestError>)
        ensures
            match parsed(REST_URL@) {
                Ok(url) => res matches Ok(started) && is_new_trader(
                    started.0,
                    key@,
                    secret@,
                    url,
                ) && started.1@ == line("[OK] gate.io REST API"@),
                Err(e) => res == Err::<(Trader, String), RestError>(RestError::InvalidUrl(e)),
            },
    {
        match url_parse(REST_URL) {
            Ok(url) => Ok(Trader::with_base_url(key, secret, url)),
            Err(e) => Err(RestError::InvalidUrl(e)),
        }
    }

    /// A trader whose REST requests are relative to `base_url`, and what is shown once it is
    /// there.
    pub fn with_base_url(key: String, secret: String, base_url: Url) -> (res: (Trader, String))
        ensures
            is_new_trader(res.0, key@, secret@, base_url),
            res.1@ == line("[OK] gate.io REST API"@),
    {
        let shown = print_msg("[OK] gate.io REST API");
        let ws_client = WsClient::new(key, secret);
        (Trader { ws_client, base_url, trading_pairs: Vec::new() }, shown)
    }

    /// What a key makes the trader do.
    pub fn handle_keyboard(&self, event: InputEvent) -> (res: KeyAction)
        ensures
            res == key_action(event),
    {
        match event {
            InputEvent::Key { code: KeyCode::Char(c), modifiers } => {
                if c == '?' || c == 'h' {
                    KeyAction::PrintHelp
                } else if c == 'p' {
                    KeyAction::PrintBalance
                } else if c == 's' {
                    KeyAction::SellAllPairs
                } else if c == 'c' && modifiers.control && !modifiers.shift && !modifiers.alt {
                    KeyAction::Quit
                } else {
                    KeyAction::Ignore
                }
            },
            InputEvent::Key { code: KeyCode::Esc, .. } => KeyAction::Quit,
            _ => KeyAction::Ignore,
        }
    }

    /// Begins to sell `src` for `dst`: the pair is remembered, and where the exchange
    /// describes it is returned.
    pub fn trade(&mut self, src: String, dst: String) -> (res: String)
        ensures
            res@ == pair_path(src@, dst@),
            pairs_view(final(self).trading_pairs@) == pairs_view(old(self).trading_pairs@).push(
                (src@, dst@),
            ),
            final(self).ws_client == old(self).ws_client,
            final(self).base_url == old(self).base_url,
    {
        let path = currency_pair_path(src.as_str(), dst.as_str());
        let ghost before = self.trading_pairs@;
        self.trading_pairs.push((src, dst));
        assert(pairs_view(self.trading_pairs@) =~= pairs_view(before).push((src@, dst@)));
        path
    }

    /// Listens to the balances, once the exchange has described the pair.
    pub fn watch_balances(&mut self) -> (res: Listeners)
        ensures
            final(self).ws_client.key() == old(self).ws_client.key(),
            final(self).ws_client.secret() == old(self).ws_client.secret(),
            final(self).ws_client.routes() == old(self).ws_client.routes().insert(
                ("spot.balances"@, "update"@),
                receiver_channel(res.updates),
            ).insert(("spot.balances"@, "subscribe"@), receiver_channel(res.subscribed)),
            receiver_channel(res.updates) != receiver_channel(res.subscribed),
            !leads_to(old(self).ws_client.routes(), receiver_channel(res.updates)),
            has_own_channels(final(self).ws_client.routes()),
            final(self).trading_pairs == old(self).trading_pairs,
            final(self).base_url == old(self).base_url,
    {
        let updates = self.ws_client.subscribe("spot.balances".to_owned(), "update".to_owned());
        let ghost with_updates = self.ws_client.routes();
        let subscribed = self.ws_client.subscribe(
            "spot.balances".to_owned(),
            "subscribe".to_owned(),
        );
        proof {
            assert(with_updates.contains_key(("spot.balances"@, "update"@)));
        }
        Listeners { updates, subscribed }
    }
}

/// What is shown once the exchange agrees to send news on balances. A refusal shows the error
/// in place of it.
pub fn subscribed_note(msg: &ServerMessage) -> (res: Option<String>)
    ensures
        res is Some <==> msg.content is Ok,
        res matches Some(text) ==> text@ == line("[OK] spot.balances subscribed"@),
{
    match &msg.content {
        Ok(_) => Some(print_msg("[OK] spot.balances subscribed")),
        Err(_) => None,
    }
}

/// Whether the latest news on `src` says that something worth an order is available.
pub open spec fn has_sellable_news(
    balances: Seq<SpotBalance>,
    src: Seq<char>,
    min_base: Option<Number>,
) -> bool {
    exists|i: int| #[trigger]
        is_latest(balances, src, i) && sellable(balances[i].available@, min_base)
}

/// Begins to sell what the latest news on `src` says is available: how much, and which tickers
/// to ask for, or `None` where there is no news on that coin or the amount is not worth an order.
pub fn sell_latest<'a>(
    balances: &Vec<SpotBalance>,
    src: &String,
    info: &'a CurrencyPair,
) -> (res: Option<(Amount, SpotTickersParams<'a>)>)
    ensures
        res is Some <==> exists|i: int| #[trigger]
            is_latest(balances@, src@, i) && sellable(
                balances@[i].available@,
                optional(info.min_base_amount),
            ),
        res is Some <==> has_sellable_news(balances@, src@, optional(info.min_base_amount)),
        res matches Some(begun) ==> begun.1.currency_pair@ == info.id@ && exists|i: int| #[trigger]
            is_latest(balances@, src@, i) && begun.0@ == balances@[i].available@,
{
    match latest_balance(balances, src) {
        Some(balance) => {
            proof {
                let i = choose|i: int| #[trigger]
                    is_latest(balances@, src@, i) && *balance == balances@[i];
                assert forall|j: int| #[trigger] is_latest(balances@, src@, j) implies j == i by {
                    law_latest_balance_is_determined(balances@, src@, i, j);
                }
            }
            match sell(&balance.available, info) {
                Some(params) => Some((balance.available, params)),
                None => None,
            }
        },
        None => {
            assert forall|i: int| !is_latest(balances@, src@, i) by {
                assert(!concerns(balances@, src@, i));
            }
            None
        },
    }
}

/// Once a pair is traded, everything that an account holds of its coin is planned to be sold.
pub proof fn law_traded_coin_is_sold(
    accounts: Seq<SpotAccount>,
    pairs: Seq<(Seq<char>, Seq<char>)>,
    src: Seq<char>,
    dst: Seq<char>,
    i: int,
)
    requires
        0 <= i < accounts.len(),
        accounts[i].currency@ == src,
        accounts[i].available@.mantissa() > 0,
    ensures
        account_sale(src, accounts[i].available@, pairs.push((src, dst))) is Some,
        planned(accounts, pairs.push((src, dst))).contains(
            account_sale(src, accounts[i].available@, pairs.push((src, dst)))->0,
        ),
{
    law_all_funds_are_planned(accounts, pairs.push((src, dst)), i, pairs.len() as int);
}

/// What the latest news says is available of a coin is sold for the other, as soon as it is not
/// zero, unless the pair sets a limit that is not reached, nobody bids, or the total cannot be
/// written down.
pub proof fn law_news_of_a_balance_is_sold(
    balances: Seq<SpotBalance>,
    src: Seq<char>,
    i: int,
    min_base: Option<Number>,
    min_quote: Option<Number>,
    bids: Seq<Number>,
    total: Number,
)
    requires
        is_latest(balances, src, i),
        balances[i].available@.mantissa() > 0,
        min_base matches Some(min) ==> min.less(balances[i].available@) || min.same(
            balances[i].available@,
        ),
        bids.len() > 0,
        balances[i].available@.product(bids.last()) == Some(total),
        min_quote matches Some(min) ==> min.less(total) || min.same(total),
    ensures
        offer(balances[i].available@, min_base, min_quote, bids) == Some(
            Terms { price: bids.last(), total },
        ),
{
    law_balances_are_sold(balances[i].available@, min_base, min_quote, bids, total);
}

/// A new trader that listens to the balances asks the exchange for them, once, and for nothing
/// else.
pub proof fn law_balances_are_requested_once(
    names: Seq<Seq<char>>,
    updates: int,
    subscribed: int,
)
    requires
        lists_channels(
            names,
            Map::<(Seq<char>, Seq<char>), int>::empty().insert(
                ("spot.balances"@, "update"@),
                updates,
            ).insert(("spot.balances"@, "subscribe"@), subscribed),
        ),
    ensures
        names == seq!["spot.balances"@],
{
    let routes = Map::<(Seq<char>, Seq<char>), int>::empty().insert(
        ("spot.balances"@, "update"@),
        updates,
    ).insert(("spot.balances"@, "subscribe"@), subscribed);
    let expected = seq!["spot.balances"@];
    assert forall|name: Seq<char>|
        expected.contains(name) <==> #[trigger] has_channel(routes, name) by {
        if expected.contains(name) {
            assert(routes.contains_key((name, "update"@)));
        }
        if has_channel(routes, name) {
            assert(expected[0] == name);
        }
    }
    law_channel_list_is_determined(names, expected, routes);
}

/// The trader quits on Esc, and on control with c and no other modifier, and on nothing else.
pub proof fn law_only_two_keys_quit(event: InputEvent)
    ensures
        key_action(event) == KeyAction::Quit <==> {
            ||| event matches InputEvent::Key { code: KeyCode::Esc, .. }
            ||| event matches InputEvent::Key { code: KeyCode::Char('c'), modifiers }
                && only_control(modifiers)
        },
{
}

/// Which key does what, in all cases: modifiers matter for c only, and there none but control may
/// be held.
pub proof fn law_keys_do_what_the_help_says(trader: Trader, event: InputEvent, res: KeyAction)
    requires
        call_ensures(Trader::handle_keyboard, (&trader, event), res),
    ensures
        event is Other ==> res == KeyAction::Ignore,
        event matches InputEvent::Key { code, modifiers } ==> match code {
            KeyCode::Esc => res == KeyAction::Quit,
            KeyCode::Other => res == KeyAction::Ignore,
            KeyCode::Char(c) => {
                &&& c == 'h' || c == '?' <==> res == KeyAction::PrintHelp
                &&& c == 'p' <==> res == KeyAction::PrintBalance
                &&& c == 's' <==> res == KeyAction::SellAllPairs
                &&& c == 'c' && modifiers.control && !modifiers.shift && !modifiers.alt <==> res
                    == KeyAction::Quit
            },
        },
{
}

/// A new trader sells nothing, listens to nothing, signs with its credentials, and sends its
/// requests to gate.io.
pub proof fn law_new_traders_begin_empty(
    key: String,
    secret: String,
    res: Result<(Trader, String), RestError>,
    req: WsRequest,
    time: Option<u64>,
    signed: Option<SignParams<'_>>,
    msg: ServerMessage,
    route: Option<&Sender<ServerMessage>>,
)
    requires
        call_ensures(Trader::spawn, (key, secret), res),
        res matches Ok(started) ==> call_ensures(
            WsClient::sign_params,
            (&started.0.ws_client, &req, time),
            signed,
        ) && call_ensures(WsClient::route, (&started.0.ws_client, &msg), route),
    ensures
        res is Ok <==> parsed("https://api.gateio.ws/api/v4/"@) is Ok,
        res matches Ok(started) ==> {
            &&& Ok::<Url, ParseError>(started.0.base_url) == parsed(
                "https://api.gateio.ws/api/v4/"@,
            )
            &&& started.0.trading_pairs@.len() == 0
            &&& started.1@ == line("[OK] gate.io REST API"@)
            &&& route is None
            &&& signed matches Some(params) ==> params.key@ == key@ && params.secret@ == secret@
        },
{
}

/// A trader keeps the base URL that it was given, and begins empty whatever that is.
pub proof fn law_traders_keep_their_base(
    key: String,
    secret: String,
    url: Url,
    res: (Trader, String),
    req: WsRequest,
    time: Option<u64>,
    signed: Option<SignParams<'_>>,
)
    requires
        call_ensures(Trader::with_base_url, (key, secret, url), res),
        call_ensures(WsClient::sign_params, (&res.0.ws_client, &req, time), signed),
    ensures
        res.0.base_url == url,
        res.0.trading_pairs@.len() == 0,
        res.1@ == line("[OK] gate.io REST API"@),
        signed matches Some(params) ==> params.key@ == key@ && params.secret@ == secret@,
{
}

/// A pair that is traded is remembered after the others, which stay, source first, and its path is
/// named after its coins; nothing else of the trader changes.
pub proof fn law_traded_pairs_are_remembered(
    trader: &mut Trader,
    src: String,
    dst: String,
    res: String,
)
    requires
        call_ensures(Trader::trade, (trader, src, dst), res),
    ensures
        res@ == "spot/currency_pairs/"@ + src@ + "_"@ + dst@,
        final(trader).trading_pairs@.len() == old(trader).trading_pairs@.len() + 1,
        final(trader).trading_pairs@.last().0@ == src@,
        final(trader).trading_pairs@.last().1@ == dst@,
        forall|i: int|
            0 <= i < old(trader).trading_pairs@.len() ==> (
            #[trigger] final(trader).trading_pairs@[i]).0@ == old(trader).trading_pairs@[i].0@
                && final(trader).trading_pairs@[i].1@ == old(trader).trading_pairs@[i].1@,
        final(trader).ws_client == old(trader).ws_client,
        final(trader).base_url == old(trader).base_url,
{
    let before = pairs_view(trader.trading_pairs@);
    let after = pairs_view(final(trader).trading_pairs@);
    assert(after == before.push((src@, dst@)));
    assert(after.len() == before.len() + 1);
    let n = before.len() as int;
    assert(after[n] == (
        final(trader).trading_pairs@[n].0@,
        final(trader).trading_pairs@[n].1@,
    ));
    assert forall|i: int| 0 <= i < n implies (#[trigger] final(trader).trading_pairs@[i]).0@
        == trader.trading_pairs@[i].0@ && final(trader).trading_pairs@[i].1@
        == trader.trading_pairs@[i].1@ by {
        assert(after[i] == before[i]);
    }
}

/// Once a pair is traded, an account that holds something of its source is planned to be sold, all
/// of it, for this pair unless an earlier one has the same source.
pub proof fn law_traded_coin_is_in_the_plan(
    trader: &mut Trader,
    src: String,
    dst: String,
    path: String,
    pairs: Vec<(String, String)>,
    accounts: Vec<SpotAccount>,
    plan: Vec<(String, Amount)>,
    i: int,
) -> (k: int)
    requires
        call_ensures(Trader::trade, (trader, src, dst), path),
        pairs == final(trader).trading_pairs,
        call_ensures(sell_all_pairs, (&accounts, &pairs), plan),
        0 <= i < accounts@.len(),
        accounts@[i].currency@ == src@,
        accounts@[i].available@.size > 0,
        !accounts@[i].available@.negative,
    ensures
        0 <= k < plan@.len(),
        plan@[k].1@ == accounts@[i].available@,
        (forall|p: int|
            0 <= p < old(trader).trading_pairs@.len() ==> (
            #[trigger] old(trader).trading_pairs@[p]).0@ != src@) ==> plan@[k].0@ == path@,
{
    law_traded_pairs_are_remembered(trader, src, dst, path);
    let n = trader.trading_pairs@.len() as int;
    assert(pairs@[n].0@ == src@);
    let view = pairs_view(pairs@);
    assert(view[n] == (src@, dst@));
    law_all_funds_are_planned(accounts@, view, i, n);
    let sale = account_sale(src@, accounts@[i].available@, view)->0;
    let expected = planned(accounts@, view);
    let k = choose|k: int| 0 <= k < expected.len() && expected[k] == sale;
    assert(plan_view(plan@) == expected);
    assert(plan_view(plan@)[k] == (plan@[k].0@, plan@[k].1@));
    if forall|p: int|
        0 <= p < trader.trading_pairs@.len() ==> (#[trigger] trader.trading_pairs@[p]).0@ != src@ {
        let f = choose|f: int| is_first_pair(view, src@, f);
        assert(is_first_pair(view, src@, f));
        if f < n {
            assert(view[f].0 == pairs@[f].0@);
            assert(pairs@[f].0@ == trader.trading_pairs@[f].0@);
        } else {
            assert(f == n);
        }
    }
    k
}

/// A trader that listens to the balances gets news on them and the answer to having asked for
/// them, each from a receiver of its own, and every other message goes where it went.
pub proof fn law_balances_are_listened_to(
    trader: &mut Trader,
    before: WsClient,
    after: WsClient,
    res: Listeners,
    msg: ServerMessage,
    old_route: Option<&Sender<ServerMessage>>,
    route: Option<&Sender<ServerMessage>>,
)
    requires
        before == trader.ws_client,
        after == final(trader).ws_client,
        call_ensures(Trader::watch_balances, (trader,), res),
        call_ensures(WsClient::route, (&before, &msg), old_route),
        call_ensures(WsClient::route, (&after, &msg), route),
    ensures
        receiver_channel(res.updates) != receiver_channel(res.subscribed),
        msg.which.channel@ == "spot.balances"@ && msg.which.event@ == "update"@ ==> (
        route matches Some(sender) && sender_channel(*sender) == receiver_channel(res.updates)),
        msg.which.channel@ == "spot.balances"@ && msg.which.event@ == "subscribe"@ ==> (
        route matches Some(sender) && sender_channel(*sender) == receiver_channel(res.subscribed)),
        !(msg.which.channel@ == "spot.balances"@ && (msg.which.event@ == "update"@
            || msg.which.event@ == "subscribe"@)) ==> {
            &&& route is Some <==> old_route is Some
            &&& route matches Some(sender) ==> sender_channel(*sender) == sender_channel(
                *old_route->0,
            )
        },
        final(trader).trading_pairs == old(trader).trading_pairs,
        final(trader).base_url == old(trader).base_url,
{
    reveal_strlit("update");
    reveal_strlit("subscribe");
    assert("update"@.len() != "subscribe"@.len());
}

/// The trader notes that it will get news exactly if the exchange did not refuse.
pub proof fn law_agreement_is_noted(msg: ServerMessage, res: Option<String>)
    requires
        call_ensures(subscribed_note, (&msg,), res),
    ensures
        msg.content is Ok ==> (res matches Some(note) && note@ == line(
            "[OK] spot.balances subscribed"@,
        )),
        msg.content is Err ==> res is None,
{
}

/// What is begun to be sold on news is what the news with the greatest timestamp on that coin says
/// is available, on the pair that was given, exactly if that is more than zero and not less than
/// the pair's minimum.
pub proof fn law_latest_news_is_sold(
    balances: Vec<SpotBalance>,
    src: String,
    info: &CurrencyPair,
    res: Option<(Amount, SpotTickersParams<'_>)>,
    latest: Option<&SpotBalance>,
)
    requires
        call_ensures(sell_latest, (&balances, &src, info), res),
        call_ensures(latest_balance, (&balances, &src), latest),
    ensures
        res is Some <==> (latest matches Some(news) && news.available@.size > 0
            && !news.available@.negative && (info.min_base_amount matches Some(min)
            ==> !news.available@.less(min@))),
        res matches Some(begun) ==> {
            &&& begun.1.currency_pair@ == info.id@
            &&& latest matches Some(news) && begun.0@ == news.available@
            &&& forall|j: int|
                0 <= j < balances@.len() && (#[trigger] balances@[j]).currency@ == src@
                    ==> balances@[j].timestamp <= (latest->0).timestamp
        },
{
    law_latest_has_the_greatest_timestamp(balances, src, latest);
    if latest is Some {
        let i = choose|i: int|
            #[trigger] is_latest(balances@, src@, i) && *latest->0 == balances@[i];
        assert(is_latest(balances@, src@, i));
        assert forall|j: int| #[trigger] is_latest(balances@, src@, j) implies j == i by {
            law_latest_balance_is_determined(balances@, src@, i, j);
        }
    } else {
        assert forall|j: int| !is_latest(balances@, src@, j) by {
            if concerns(balances@, src@, j) {
                assert(balances@[j].currency@ == src@);
            }
        }
    }
}

} // verus!
