//! The REST side of the exchange: what is sent, what comes back, and where requests go.

use crate::amount::Amount;
use crate::text::{append_without_slashes, begins_with, without_slashes};
use surf::http::url::ParseError;
use surf::Url;
use vstd::prelude::*;
use vstd::string::StringExecFns;

verus! {

/// Notes every request and how it ended.
pub struct Logger;

impl Logger {
    /// The note on a request that is about to be sent.
    pub fn sending(&self, method: &str, uri: &str) -> (res: String)
        ensures
            res@ == "sending request: "@ + method@ + " "@ + uri@,
    {
        let mut res = "sending request: ".to_owned();
        res.append(method);
        res.append(" ");
        res.append(uri);
        res
    }

    /// The note on a request that was answered with `status` after `elapsed` seconds.
    pub fn completed(&self, status: &str, elapsed: &str) -> (res: String)
        ensures
            res@ == "request completed: "@ + status@ + " "@ + elapsed@ + "s"@,
    {
        let mut res = "request completed: ".to_owned();
        res.append(status);
        res.append(" ");
        res.append(elapsed);
        res.append("s");
        res
    }
}

/// `surf::Url`, an absolute URL.
#[verifier::external_type_specification]
#[verifier::external_body]
pub struct ExUrl(Url);

/// `surf::http::url::ParseError`, why a text is no URL.
#[verifier::external_type_specification]
#[verifier::external_body]
pub struct ExParseError(ParseError);

/// What `Url::join` makes of a base and a reference.
pub uninterp spec fn joined(base: Url, reference: Seq<char>) -> Result<Url, ParseError>;

/// `Url::join`: the URL that `reference` means, seen from `base`.
#[verifier::external_body]
fn url_join(base: &Url, reference: &str) -> (res: Result<Url, ParseError>)
    ensures
        res == joined(*base, reference@),
{
    base.join(reference)
}

/// What `Url::parse` makes of a text.
pub uninterp spec fn parsed(text: Seq<char>) -> Result<Url, ParseError>;

/// `Url::parse`: the URL that `text` is, or why it is none.
#[verifier::external_body]
pub(crate) fn url_parse(text: &str) -> (res: Result<Url, ParseError>)
    ensures
        res == parsed(text@),
{
    Url::parse(text)
}

/// The text of a URL, as `Url::as_str` gives it.
pub uninterp spec fn url_text(url: Url) -> Seq<char>;

/// `Url::as_str`: the whole URL as text.
#[verifier::external_body]
fn url_as_str(url: &Url) -> (res: &str)
    ensures
        res@ == url_text(*url),
{
    url.as_str()
}

/// The path of a URL, as `Url::path` gives it.
pub uninterp spec fn url_path(url: Url) -> Seq<char>;

/// `Url::path`: the path in a URL.
#[verifier::external_body]
fn path_of(url: &Url) -> (res: &str)
    ensures
        res@ == url_path(*url),
{
    url.path()
}

/// The query of a URL, as `Url::query` gives it.
pub uninterp spec fn url_query(url: Url) -> Option<Seq<char>>;

/// `Url::query`: the query in a URL, where there is one.
#[verifier::external_body]
fn query_of(url: &Url) -> (res: Option<&str>)
    ensures
        res is Some <==> url_query(*url) is Some,
        res is Some ==> url_query(*url) == Some(res->0@),
{
    url.query()
}

/// Why a request could not be made.
#[derive(Debug)]
pub enum RestError {
    /// The request names no valid URL.
    InvalidUrl(ParseError),
    /// The request cannot be set on the base URL.
    OutsideBase,
}

/// A path and a query as a reference that is relative to wherever it is used.
pub open spec fn relative(path: Seq<char>, query: Option<Seq<char>>) -> Seq<char> {
    "./"@ + without_slashes(path) + match query {
        Some(q) => "?"@ + q,
        None => seq![],
    }
}

/// A path and a query as a reference that is relative to wherever it is used.
pub fn relative_reference(path: &str, query: Option<&str>) -> (res: String)
    ensures
        res@ == relative(
            path@,
            match query {
                Some(q) => Some(q@),
                None => None,
            },
        ),
{
    let mut res = "./".to_owned();
    append_without_slashes(&mut res, path);
    let ghost begin = res@;
    match query {
        Some(q) => {
            res.append("?");
            res.append(q);
            assert(res@ =~= begin + ("?"@ + q@));
        },
        None => {
            assert(res@ =~= begin + seq![]);
        },
    }
    res
}

/// Whether `url` lies under `directory`.
pub open spec fn lies_under(directory: Url, url: Url) -> bool {
    url_text(directory).is_prefix_of(url_text(url))
}

/// Where a request to `uri` goes once the base URL is set: where it leads from the base, if that
/// lies in the directory of the base, and else to its path and query in that directory.
pub open spec fn based(base: Url, uri: Seq<char>) -> Result<Url, RestError> {
    match (joined(base, "."@), joined(base, uri)) {
        (Err(e), _) => Err(RestError::InvalidUrl(e)),
        (_, Err(e)) => Err(RestError::InvalidUrl(e)),
        (Ok(directory), Ok(url)) => if lies_under(directory, url) {
            Ok(url)
        } else {
            match joined(directory, relative(url_path(url), url_query(url))) {
                Err(e) => Err(RestError::InvalidUrl(e)),
                Ok(moved) => if lies_under(directory, moved) {
                    Ok(moved)
                } else {
                    Err(RestError::OutsideBase)
                },
            }
        },
    }
}

/// Set baseurl for all requests
pub struct BaseUrl(Url);

impl View for BaseUrl {
    type V = Url;

    closed spec fn view(&self) -> Url {
        self.0
    }
}

impl BaseUrl {
    /// All requests are relative to `url`.
    pub fn new(url: Url) -> (res: BaseUrl)
        ensures
            res@ == url,
    {
        BaseUrl(url)
    }

    /// Where a request to `uri` goes: always below the directory of the base URL. A request that
    /// leads elsewhere, such as one with a URL of its own, keeps its path and its query.
    pub fn handle(&self, uri: &str) -> (res: Result<Url, RestError>)
        ensures
            res == based(self@, uri@),
            res matches Ok(url) ==> (joined(self@, "."@) matches Ok(directory) && lies_under(
                directory,
                url,
            )),
    {
        let directory = match url_join(&self.0, ".") {
            Ok(directory) => directory,
            Err(e) => {
                return Err(RestError::InvalidUrl(e));
            },
        };
        let url = match url_join(&self.0, uri) {
            Ok(url) => url,
            Err(e) => {
                return Err(RestError::InvalidUrl(e));
            },
        };
        if begins_with(url_as_str(&url), url_as_str(&directory)) {
            return Ok(url);
        }
        let reference = relative_reference(path_of(&url), query_of(&url));
        match url_join(&directory, reference.as_str()) {
            Ok(moved) => if begins_with(url_as_str(&moved), url_as_str(&directory)) {
                Ok(moved)
            } else {
                Err(RestError::OutsideBase)
            },
            Err(e) => Err(RestError::InvalidUrl(e)),
        }
    }
}

/// What the exchange says of a currency pair.
#[derive(Clone, Debug, Eq, PartialEq)]
pub struct CurrencyPair {
    pub id: String,
    pub base: String,
    pub quote: String,
    pub fee: String,
    /// The smallest amount of the base coin that can be sold, if there is a limit.
    pub min_base_amount: Option<Amount>,
    /// The smallest amount of the quote coin that an order can bring, if there is a limit.
    pub min_quote_amount: Option<Amount>,
    pub amount_precision: u64,
    pub precision: u64,
    pub trade_status: String,
    pub sell_start: u64,
    pub buy_start: u64,
}

/// What is held of one coin.
#[derive(Clone, Debug, Eq, PartialEq)]
pub struct SpotAccount {
    pub currency: String,
    pub available: Amount,
    pub locked: Amount,
}

/// The market of a currency pair.
#[derive(Clone, Debug, Eq, PartialEq)]
pub struct SpotTicker {
    pub currency_pair: String,
    pub last: Amount,
    pub lowest_ask: Amount,
    pub highest_bid: Amount,
    pub change_percentage: Amount,
    pub base_volume: Amount,
    pub quote_volume: Amount,
    pub high_24h: Amount,
    pub low_24h: Amount,
    pub etf_net_value: Amount,
    pub etf_pre_net_value: Amount,
    pub etf_pre_timestamp: u64,
    pub etf_leverage: Amount,
}

/// Which tickers are asked for.
#[derive(Debug)]
pub struct SpotTickersParams<'a> {
    pub currency_pair: &'a str,
}

/// An order as it is sent.
#[derive(Debug)]
pub struct SpotOrderParams<'a> {
    pub text: Option<String>,
    pub currency_pair: &'a str,
    pub order_type: Option<String>,
    pub account: Option<String>,
    pub side: String,
    pub amount: Amount,
    pub price: Amount,
    pub time_in_force: Option<String>,
    pub iceberg: Option<String>,
    pub auto_borrow: Option<bool>,
}

/// An order as the exchange confirms it.
#[derive(Debug)]
pub struct Order {
    pub id: Option<String>,
    pub text: Option<String>,
    pub create_time: u64,
    pub update_time: u64,
    pub status: String,
    pub currency_pair: String,
    pub order_type: Option<String>,
    pub account: Option<String>,
    pub side: String,
    pub amount: Amount,
    pub price: Amount,
    pub time_in_force: Option<String>,
    pub iceberg: Option<String>,
    pub auto_borrow: Option<bool>,
    pub left: Amount,
    pub filled_total: Amount,
    pub fee: Amount,
    pub fee_currency: String,
    pub point_fee: Amount,
    pub gt_fee: Amount,
    pub gt_discount: bool,
    pub rebated_fee: Amount,
    pub rebated_fee_currency: String,
}

/// Where the exchange describes the pair of `src` and `dst`.
pub open spec fn pair_path(src: Seq<char>, dst: Seq<char>) -> Seq<char> {
    "spot/currency_pairs/"@ + src + "_"@ + dst
}

/// Where the exchange describes the pair of `src` and `dst`.
pub fn currency_pair_path(src: &str, dst: &str) -> (res: String)
    ensures
        res@ == pair_path(src@, dst@),
{
    let mut res = "spot/currency_pairs/".to_owned();
    res.append(src);
    res.append("_");
    res.append(dst);
    res
}

/// The notes on a request give its method and its URL, and its status and its time.
pub proof fn law_requests_are_noted(
    logger: Logger,
    method: &str,
    uri: &str,
    sent: String,
    status: &str,
    elapsed: &str,
    done: String,
)
    requires
        call_ensures(Logger::sending, (&logger, method, uri), sent),
        call_ensures(Logger::completed, (&logger, status, elapsed), done),
    ensures
        sent@ == "sending request: "@ + method@ + " "@ + uri@,
        done@ == "request completed: "@ + status@ + " "@ + elapsed@ + "s"@,
{
}

/// A pair is described at the path that is named after its coins, the source first.
pub proof fn law_path_names_the_pair(src: &str, dst: &str, res: String)
    requires
        call_ensures(currency_pair_path, (src, dst), res),
    ensures
        res@ == "spot/currency_pairs/"@ + src@ + "_"@ + dst@,
{
}

/// A relative reference is the path without leading slashes, and the query where there is one.
pub proof fn law_references_keep_path_and_query(
    slashes: Seq<char>,
    path: &str,
    kept: Seq<char>,
    query: Option<&str>,
    res: String,
)
    requires
        call_ensures(relative_reference, (path, query), res),
        path@ == slashes + kept,
        forall|i: int| 0 <= i < slashes.len() ==> #[trigger] slashes[i] == '/',
        kept.len() == 0 || kept[0] != '/',
    ensures
        query is None ==> res@ == "./"@ + kept,
        query matches Some(q) ==> res@ == "./"@ + kept + "?"@ + q@,
{
    lemma_slashes_go(slashes, kept);
    assert("./"@ + kept + seq![] =~= "./"@ + kept);
    if let Some(q) = query {
        assert("./"@ + kept + ("?"@ + q@) =~= "./"@ + kept + "?"@ + q@);
    }
}

proof fn lemma_slashes_go(slashes: Seq<char>, kept: Seq<char>)
    requires
        forall|i: int| 0 <= i < slashes.len() ==> #[trigger] slashes[i] == '/',
        kept.len() == 0 || kept[0] != '/',
    ensures
        without_slashes(slashes + kept) == kept,
    decreases slashes.len(),
{
    if slashes.len() > 0 {
        assert(slashes[0] == '/');
        assert((slashes + kept).drop_first() =~= slashes.drop_first() + kept);
        lemma_slashes_go(slashes.drop_first(), kept);
    } else {
        assert(slashes + kept =~= kept);
    }
}

/// Whatever a request is to, it goes below the directory of the base: to where it leads from the
/// base if that lies there, and else to its own path and query there. It goes nowhere only where
/// one of these is no URL or does not lie there.
pub proof fn law_requests_stay_below_the_base(
    url: Url,
    base: BaseUrl,
    uri: &str,
    res: Result<Url, RestError>,
)
    requires
        call_ensures(BaseUrl::new, (url,), base),
        call_ensures(BaseUrl::handle, (&base, uri), res),
    ensures
        res matches Ok(there) ==> (joined(url, "."@) matches Ok(directory) && url_text(
            directory,
        ).is_prefix_of(url_text(there))),
        joined(url, "."@) matches Ok(directory) ==> (joined(url, uri@) matches Ok(leads) ==> if url_text(
            directory,
        ).is_prefix_of(url_text(leads)) {
            res == Ok::<Url, RestError>(leads)
        } else {
            res matches Ok(there) ==> joined(
                directory,
                "./"@ + without_slashes(url_path(leads)) + (match url_query(leads) {
                    Some(q) => "?"@ + q,
                    None => Seq::empty(),
                }),
            ) == Ok::<Url, ParseError>(there)
        }),
        joined(url, uri@) is Err ==> res is Err,
        joined(url, "."@) is Err ==> res is Err,
{
}

} // verus!
