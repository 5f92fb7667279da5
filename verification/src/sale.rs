//! When and how coins are sold.

use crate::amount::{
    law_at_least_is_transitive, law_products_grow, optional, Amount, Number,
};
use crate::console::{line, lines, show};
use crate::rest::{
    currency_pair_path, pair_path, CurrencyPair, Order, SpotAccount, SpotOrderParams, SpotTicker,
    SpotTickersParams,
};
use vstd::prelude::*;
use vstd::string::StringExecFns;

verus! {

/// Whether an amount is worth asking for a price: there is something to sell, and not less
/// than the pair allows.
pub open spec fn sellable(amount: Number, min_base: Option<Number>) -> bool {
    &&& amount.mantissa() > 0
    &&& min_base matches Some(min) ==> !amount.less(min)
}

/// Whether what an order brings is enough for the pair.
pub open spec fn enough(total: Number, min_quote: Option<Number>) -> bool {
    min_quote matches Some(min) ==> !total.less(min)
}

/// Whether `params` offers all of `amount` of the pair `id` at `price`.
pub open spec fn is_sell_order(
    params: SpotOrderParams,
    id: Seq<char>,
    amount: Number,
    price: Number,
) -> bool {
    &&& params.text is None
    &&& params.currency_pair@ == id
    &&& params.order_type matches Some(t) && t@ == "limit"@
    &&& params.account matches Some(a) && a@ == "spot"@
    &&& params.side@ == "sell"@
    &&& params.amount@ == amount
    &&& params.price@ == price
    &&& params.time_in_force is None
    &&& params.iceberg is None
    &&& params.auto_borrow is None
}

/// An order to place, and what it brings.
#[derive(Debug)]
pub struct Sale<'a> {
    pub order: SpotOrderParams<'a>,
    pub total: Amount,
}

/// Why a sale failed.
#[derive(Clone, Copy, Debug, PartialEq, Eq, Structural)]
pub enum SellError {
    /// The exchange gave no ticker for the pair.
    NoTicker,
    /// The amount times the price is too large for a decimal.
    TotalOverflow,
}

impl SellError {
    /// What the user is told.
    pub fn message(&self) -> (res: &'static str)
        ensures
            res@ == match *self {
                SellError::NoTicker => "No info about the currency pair"@,
                SellError::TotalOverflow => "Multiplication overflowed"@,
            },
    {
        match self {
            SellError::NoTicker => "No info about the currency pair",
            SellError::TotalOverflow => "Multiplication overflowed",
        }
    }
}

/// Begins to sell `amount` of the pair: which tickers to ask for, or `None` where the amount
/// is not worth an order.
pub fn sell<'a>(amount: &Amount, info: &'a CurrencyPair) -> (res: Option<SpotTickersParams<'a>>)
    ensures
        res is Some <==> sellable(amount@, optional(info.min_base_amount)),
        res matches Some(params) ==> params.currency_pair@ == info.id@,
{
    // no need to trade if we don't have fund
    if !amount.is_positive() {
        return None;
    }
    if let Some(min_base) = &info.min_base_amount {
        if amount.less_than(min_base) {
            return None;
        }
    }
    Some(SpotTickersParams { currency_pair: info.id.as_str() })
}

/// The terms of an order.
pub struct Terms {
    pub price: Number,
    pub total: Number,
}

/// What an attempt to sell comes to, given the highest bids of the tickers: the terms of
/// the order that is placed, if one is.
pub open spec fn offer(
    amount: Number,
    min_base: Option<Number>,
    min_quote: Option<Number>,
    bids: Seq<Number>,
) -> Option<Terms> {
    if sellable(amount, min_base) && bids.len() > 0 {
        match amount.product(bids.last()) {
            Some(total) if enough(total, min_quote) => Some(
                Terms { price: bids.last(), total },
            ),
            _ => None,
        }
    } else {
        None
    }
}

/// The highest bids of the tickers.
pub open spec fn bids(tickers: Seq<SpotTicker>) -> Seq<Number> {
    tickers.map_values(|t: SpotTicker| t.highest_bid@)
}

/// Goes on with the tickers that came back: the order for all of `amount` at the highest bid
/// of the last ticker, or `None` where it would bring too little.
pub fn sell_at_market<'a>(
    amount: &Amount,
    info: &'a CurrencyPair,
    tickers: &Vec<SpotTicker>,
) -> (res: Result<Option<Sale<'a>>, SellError>)
    ensures
        tickers@.len() == 0 <==> res == Err::<Option<Sale<'a>>, SellError>(SellError::NoTicker),
        tickers@.len() > 0 ==> {
            let price = tickers@.last().highest_bid;
            match amount@.product(price@) {
                None => res == Err::<Option<Sale<'a>>, SellError>(SellError::TotalOverflow),
                Some(total) => {
                    &&& res matches Ok(sale)
                    &&& sale is Some <==> enough(total, optional(info.min_quote_amount))
                    &&& sale matches Some(s) ==> s.total@ == total && is_sell_order(
                        s.order,
                        info.id@,
                        amount@,
                        price@,
                    )
                },
            }
        },
        sellable(amount@, optional(info.min_base_amount)) ==> match offer(
            amount@,
            optional(info.min_base_amount),
            optional(info.min_quote_amount),
            bids(tickers@),
        ) {
            Some(terms) => res matches Ok(Some(sale)) && sale.total@ == terms.total
                && is_sell_order(sale.order, info.id@, amount@, terms.price),
            None => !(res matches Ok(Some(_))),
        },
{
    if tickers.len() == 0 {
        return Err(SellError::NoTicker);
    }
    // determine price to place the order
    let price = tickers[tickers.len() - 1].highest_bid;
    match amount.times(&price) {
        None => Err(SellError::TotalOverflow),
        Some(total) => Ok(sell_for(amount, info, &price, &total)),
    }
}

/// The order for all of `amount` at `price`, or `None` where the `total` that it brings is
/// too little for the pair.
pub fn sell_for<'a>(
    amount: &Amount,
    info: &'a CurrencyPair,
    price: &Amount,
    total: &Amount,
) -> (res: Option<Sale<'a>>)
    ensures
        res is Some <==> enough(total@, optional(info.min_quote_amount)),
        res matches Some(sale) ==> sale.total@ == total@ && is_sell_order(
            sale.order,
            info.id@,
            amount@,
            price@,
        ),
{
    if let Some(min_quote) = &info.min_quote_amount {
        if total.less_than(min_quote) {
            return None;
        }
    }
    let order = SpotOrderParams {
        text: None,
        currency_pair: info.id.as_str(),
        order_type: Some("limit".to_owned()),
        account: Some("spot".to_owned()),
        side: "sell".to_owned(),
        amount: *amount,
        price: *price,
        time_in_force: None,
        iceberg: None,
        auto_borrow: None,
    };
    Some(Sale { order, total: *total })
}

/// The note on a sale: its number, and what went for what at which price.
pub open spec fn sale_note(
    id: Option<Seq<char>>,
    base: Seq<char>,
    quote: Seq<char>,
    amount: Number,
    total: Number,
    price: Number,
) -> Seq<char> {
    let number = match id {
        Some(i) => i,
        None => "?"@,
    };
    "#"@ + number + " Sell "@ + amount.text(amount.scale) + " "@ + base + " => "@ + total.text(
        total.scale,
    ) + " "@ + quote + " @ "@ + price.text(price.scale) + " "@ + quote
}

/// The view of a text that may be missing.
pub open spec fn optional_text(text: Option<String>) -> Option<Seq<char>> {
    match text {
        Some(t) => Some(t@),
        None => None,
    }
}

/// The note on a sale that the exchange has confirmed.
pub fn sold(order: &Order, info: &CurrencyPair, sale: &Sale) -> (res: String)
    ensures
        res@ == sale_note(
            optional_text(order.id),
            info.base@,
            info.quote@,
            sale.order.amount@,
            sale.total@,
            sale.order.price@,
        ),
{
    let mut res = "#".to_owned();
    match &order.id {
        Some(id) => res.append(id.as_str()),
        None => res.append("?"),
    }
    res.append(" Sell ");
    res.append(sale.order.amount.text().as_str());
    res.append(" ");
    res.append(info.base.as_str());
    res.append(" => ");
    res.append(sale.total.text().as_str());
    res.append(" ");
    res.append(info.quote.as_str());
    res.append(" @ ");
    res.append(sale.order.price.text().as_str());
    res.append(" ");
    res.append(info.quote.as_str());
    res
}

/// The view of trading pairs: from which coin to which.
pub open spec fn pairs_view(pairs: Seq<(String, String)>) -> Seq<(Seq<char>, Seq<char>)> {
    Seq::new(pairs.len(), |i: int| (pairs[i].0@, pairs[i].1@))
}

/// Whether `i` is the first of the pairs that sells `coin`.
pub open spec fn is_first_pair(
    pairs: Seq<(Seq<char>, Seq<char>)>,
    coin: Seq<char>,
    i: int,
) -> bool {
    &&& 0 <= i < pairs.len()
    &&& pairs[i].0 == coin
    &&& forall|j: int| 0 <= j < i ==> #[trigger] pairs[j].0 != coin
}

/// Which pair sells `coin`, if any does: the first one.
pub open spec fn first_pair(pairs: Seq<(Seq<char>, Seq<char>)>, coin: Seq<char>) -> Option<
    (Seq<char>, Seq<char>),
> {
    if exists|i: int| is_first_pair(pairs, coin, i) {
        Some(pairs[choose|i: int| is_first_pair(pairs, coin, i)])
    } else {
        None
    }
}

/// What is to be sold of an account: where its pair is described, and how much.
pub open spec fn account_sale(
    currency: Seq<char>,
    available: Number,
    pairs: Seq<(Seq<char>, Seq<char>)>,
) -> Option<(Seq<char>, Number)> {
    match first_pair(pairs, currency) {
        Some(pair) if available.mantissa() > 0 => Some((pair_path(pair.0, pair.1), available)),
        _ => None,
    }
}

/// What is to be sold of the accounts, in their order.
pub open spec fn planned(
    accounts: Seq<SpotAccount>,
    pairs: Seq<(Seq<char>, Seq<char>)>,
) -> Seq<(Seq<char>, Number)>
    decreases accounts.len(),
{
    if accounts.len() == 0 {
        seq![]
    } else {
        let before = planned(accounts.drop_last(), pairs);
        match account_sale(accounts.last().currency@, accounts.last().available@, pairs) {
            Some(sale) => before.push(sale),
            None => before,
        }
    }
}

/// The view of planned sales.
pub open spec fn plan_view(plan: Seq<(String, Amount)>) -> Seq<(Seq<char>, Number)> {
    Seq::new(plan.len(), |i: int| (plan[i].0@, plan[i].1@))
}

/// The first pair that sells `coin`.
fn find_pair<'a>(pairs: &'a Vec<(String, String)>, coin: &String) -> (res: Option<
    &'a (String, String),
>)
    ensures
        match res {
            Some(pair) => first_pair(pairs_view(pairs@), coin@) == Some((pair.0@, pair.1@)),
            None => first_pair(pairs_view(pairs@), coin@) is None,
        },
{
    let ghost view = pairs_view(pairs@);
    let mut i: usize = 0;
    while i < pairs.len()
        invariant
            i <= pairs.len(),
            view == pairs_view(pairs@),
            forall|j: int| 0 <= j < i ==> #[trigger] view[j].0 != coin@,
        decreases pairs.len() - i,
    {
        if pairs[i].0 == *coin {
            proof {
                assert(is_first_pair(view, coin@, i as int));
                let k = choose|k: int| is_first_pair(view, coin@, k);
                assert(view[k].0 == coin@ && view[i as int].0 == coin@);
            }
            return Some(&pairs[i]);
        }
        i = i + 1;
    }
    None
}

/// Cross references the pairs with the funds: for each account that holds something of a
/// coin that a pair sells, where that pair is described and how much there is to sell.
pub fn sell_all_pairs(accounts: &Vec<SpotAccount>, pairs: &Vec<(String, String)>) -> (res: Vec<
    (String, Amount),
>)
    ensures
        plan_view(res@) == planned(accounts@, pairs_view(pairs@)),
{
    let mut plan: Vec<(String, Amount)> = Vec::new();
    let mut i: usize = 0;
    assert(accounts@.take(0) =~= seq![]);
    assert(plan_view(plan@) =~= seq![]);
    while i < accounts.len()
        invariant
            i <= accounts.len(),
            plan_view(plan@) == planned(accounts@.take(i as int), pairs_view(pairs@)),
        decreases accounts.len() - i,
    {
        let account = &accounts[i];
        let ghost before = plan@;
        if account.available.is_positive() {
            if let Some(pair) = find_pair(pairs, &account.currency) {
                let path = currency_pair_path(pair.0.as_str(), pair.1.as_str());
                plan.push((path, account.available));
                assert(plan_view(plan@) =~= plan_view(before).push(
                    (pair_path(pair.0@, pair.1@), account.available@),
                ));
            }
        }
        proof {
            assert(accounts@.take(i + 1).drop_last() =~= accounts@.take(i as int));
            assert(accounts@.take(i + 1).last() == account);
        }
        i = i + 1;
    }
    assert(accounts@.take(i as int) =~= accounts@);
    plan
}

/// How many decimal places a balance is shown with.
pub const BALANCE_PLACES: u32 = 8;

/// The line on one account in the table of balances.
pub open spec fn balance_row(currency: Seq<char>, available: Number, locked: Number) -> Seq<char> {
    currency + " \t| "@ + available.text(8) + " \t| "@ + locked.text(8)
}

/// The lines of the table of balances before and after those on the accounts.
pub open spec fn balance_head() -> Seq<Seq<char>> {
    seq![
        "======================================================"@,
        "Coin \t| Available \t| Locked"@,
        "------------------------------------------------------"@,
    ]
}

/// The table of balances: a head, a line on each account in their order, a closing rule.
pub open spec fn balance_table(accounts: Seq<SpotAccount>) -> Seq<Seq<char>> {
    balance_head() + accounts.map_values(
        |a: SpotAccount| balance_row(a.currency@, a.available@, a.locked@),
    ) + seq!["======================================================"@]
}

/// The text that shows the balances. An amount too long to be written is out of place here:
/// see `Amount::fits`.
pub fn print_balance(accounts: &Vec<SpotAccount>) -> (res: String)
    requires
        forall|i: int|
            0 <= i < accounts@.len() ==> (#[trigger] accounts@[i]).available@.fits(8)
                && accounts@[i].locked@.fits(8),
    ensures
        res@ == lines(balance_table(accounts@)),
{
    let mut shown = String::new();
    show(&mut shown, "======================================================");
    show(&mut shown, "Coin \t| Available \t| Locked");
    show(&mut shown, "------------------------------------------------------");
    let ghost row = |a: SpotAccount| balance_row(a.currency@, a.available@, a.locked@);
    proof {
        let head = balance_head();
        reveal_with_fuel(lines, 4);
        assert(head.drop_last().drop_last().drop_last() =~= seq![]);
        assert(head + accounts@.take(0).map_values(row) =~= head);
    }
    let mut i: usize = 0;
    while i < accounts.len()
        invariant
            i <= accounts.len(),
            forall|j: int|
                0 <= j < accounts@.len() ==> (#[trigger] accounts@[j]).available@.fits(8)
                    && accounts@[j].locked@.fits(8),
            row == |a: SpotAccount| balance_row(a.currency@, a.available@, a.locked@),
            shown@ == lines(balance_head() + accounts@.take(i as int).map_values(row)),
        decreases accounts.len() - i,
    {
        let account = &accounts[i];
        let mut text = account.currency.clone();
        text.append(" \t| ");
        text.append(account.available.text_with(BALANCE_PLACES).as_str());
        text.append(" \t| ");
        text.append(account.locked.text_with(BALANCE_PLACES).as_str());
        show(&mut shown, text.as_str());
        proof {
            let old_rows = balance_head() + accounts@.take(i as int).map_values(row);
            let new_rows = balance_head() + accounts@.take(i + 1).map_values(row);
            assert(new_rows.drop_last() =~= old_rows);
            assert(new_rows.last() == row(*account));
        }
        i = i + 1;
    }
    show(&mut shown, "======================================================");
    proof {
        assert(accounts@.take(i as int) =~= accounts@);
        let table = balance_table(accounts@);
        assert(table.drop_last() =~= balance_head() + accounts@.map_values(row));
    }
    shown
}

/// An order is placed only for a coin that is there, at the last of the highest bids, and
/// neither for less nor to bring less than the pair allows.
pub proof fn law_orders_keep_the_limits(
    amount: Number,
    min_base: Option<Number>,
    min_quote: Option<Number>,
    bids: Seq<Number>,
)
    requires
        offer(amount, min_base, min_quote, bids) is Some,
    ensures
        amount.mantissa() > 0,
        bids.len() > 0,
        offer(amount, min_base, min_quote, bids) matches Some(terms) && {
            &&& terms.price == bids.last()
            &&& amount.product(terms.price) == Some(terms.total)
            &&& min_quote matches Some(min) ==> min.less(terms.total) || min.same(terms.total)
        },
        min_base matches Some(min) ==> min.less(amount) || min.same(amount),
{
}

/// Every balance that is not zero is sold, at the last of the highest bids, as soon as there is
/// a bid and the total can be written down, unless the pair sets a limit that is not reached.
pub proof fn law_balances_are_sold(
    amount: Number,
    min_base: Option<Number>,
    min_quote: Option<Number>,
    bids: Seq<Number>,
    total: Number,
)
    requires
        amount.mantissa() > 0,
        min_base matches Some(min) ==> min.less(amount) || min.same(amount),
        bids.len() > 0,
        amount.product(bids.last()) == Some(total),
        min_quote matches Some(min) ==> min.less(total) || min.same(total),
    ensures
        offer(amount, min_base, min_quote, bids) == Some(Terms { price: bids.last(), total }),
{
}

/// Where an amount is sold, every amount that is at least as large is sold too, all of it and at
/// the same price, unless that price is negative or the total of the larger amount is too large to
/// be written down.
pub proof fn law_larger_amounts_are_sold_too(
    amount: Number,
    larger: Number,
    min_base: Option<Number>,
    min_quote: Option<Number>,
    bids: Seq<Number>,
)
    requires
        offer(amount, min_base, min_quote, bids) is Some,
        amount.less(larger) || amount.same(larger),
        bids.last().mantissa() >= 0,
        larger.product(bids.last()) is Some,
    ensures
        offer(larger, min_base, min_quote, bids) == Some(
            Terms { price: bids.last(), total: larger.product(bids.last())->0 },
        ),
{
    law_products_grow(amount, larger, bids.last());
    if let Some(min) = min_base {
        law_at_least_is_transitive(min, amount, larger);
    }
    if let Some(min) = min_quote {
        law_at_least_is_transitive(
            min,
            amount.product(bids.last())->0,
            larger.product(bids.last())->0,
        );
    }
}

proof fn lemma_first_pair(pairs: Seq<(Seq<char>, Seq<char>)>, coin: Seq<char>, i: int)
    requires
        is_first_pair(pairs, coin, i),
    ensures
        first_pair(pairs, coin) == Some(pairs[i]),
{
    let k = choose|k: int| is_first_pair(pairs, coin, k);
    assert(is_first_pair(pairs, coin, k));
    if k < i {
        assert(pairs[k].0 != coin);
    } else if i < k {
        assert(pairs[i].0 != coin);
    }
}

proof fn lemma_has_first_pair(pairs: Seq<(Seq<char>, Seq<char>)>, coin: Seq<char>, i: int) -> (k:
    int)
    requires
        0 <= i < pairs.len(),
        pairs[i].0 == coin,
    ensures
        is_first_pair(pairs, coin, k),
        k <= i,
    decreases i,
{
    if forall|j: int| 0 <= j < i ==> #[trigger] pairs[j].0 != coin {
        i
    } else {
        let j = choose|j: int| 0 <= j < i && #[trigger] pairs[j].0 == coin;
        lemma_has_first_pair(pairs, coin, j)
    }
}

/// Whatever is planned comes from an account that holds something, for a pair that sells its
/// coin.
pub proof fn law_planned_sales_have_funds(
    accounts: Seq<SpotAccount>,
    pairs: Seq<(Seq<char>, Seq<char>)>,
    k: int,
)
    requires
        0 <= k < planned(accounts, pairs).len(),
    ensures
        exists|i: int|
            0 <= i < accounts.len() && planned(accounts, pairs)[k].1 == (
            #[trigger] accounts[i]).available@ && accounts[i].available@.mantissa() > 0
                && account_sale(accounts[i].currency@, accounts[i].available@, pairs) == Some(
                planned(accounts, pairs)[k],
            ),
    decreases accounts.len(),
{
    let before = accounts.drop_last();
    let sale = account_sale(accounts.last().currency@, accounts.last().available@, pairs);
    if sale is Some && k == planned(accounts, pairs).len() - 1 {
        assert(accounts[accounts.len() - 1] == accounts.last());
    } else {
        law_planned_sales_have_funds(before, pairs, k);
        let i = choose|i: int|
            0 <= i < before.len() && planned(before, pairs)[k].1 == (
            #[trigger] before[i]).available@ && before[i].available@.mantissa() > 0 && account_sale(
                before[i].currency@,
                before[i].available@,
                pairs,
            ) == Some(planned(before, pairs)[k]);
        assert(accounts[i] == before[i]);
    }
}

/// Every account that holds something of a coin that a pair sells is planned for.
pub proof fn law_all_funds_are_planned(
    accounts: Seq<SpotAccount>,
    pairs: Seq<(Seq<char>, Seq<char>)>,
    i: int,
    p: int,
)
    requires
        0 <= i < accounts.len(),
        0 <= p < pairs.len(),
        accounts[i].available@.mantissa() > 0,
        pairs[p].0 == accounts[i].currency@,
    ensures
        account_sale(accounts[i].currency@, accounts[i].available@, pairs) is Some,
        planned(accounts, pairs).contains(
            account_sale(accounts[i].currency@, accounts[i].available@, pairs)->0,
        ),
    decreases accounts.len(),
{
    let coin = accounts[i].currency@;
    let first = lemma_has_first_pair(pairs, coin, p);
    lemma_first_pair(pairs, coin, first);
    let sale = account_sale(coin, accounts[i].available@, pairs)->0;
    let plan = planned(accounts, pairs);
    if i == accounts.len() - 1 {
        assert(plan.last() == sale);
    } else {
        let before = accounts.drop_last();
        assert(before[i] == accounts[i]);
        law_all_funds_are_planned(before, pairs, i, p);
        let k = choose|k: int|
            0 <= k < planned(before, pairs).len() && planned(before, pairs)[k] == sale;
        assert(plan[k] == sale);
    }
}

/// No account is planned for twice.
pub proof fn law_one_sale_per_account(
    accounts: Seq<SpotAccount>,
    pairs: Seq<(Seq<char>, Seq<char>)>,
)
    ensures
        planned(accounts, pairs).len() <= accounts.len(),
    decreases accounts.len(),
{
    if accounts.len() > 0 {
        law_one_sale_per_account(accounts.drop_last(), pairs);
    }
}

/// A pair that is added changes nothing for the coins that were sold already.
pub proof fn law_earlier_pairs_are_kept(
    currency: Seq<char>,
    available: Number,
    pairs: Seq<(Seq<char>, Seq<char>)>,
    added: (Seq<char>, Seq<char>),
)
    requires
        account_sale(currency, available, pairs) is Some,
    ensures
        account_sale(currency, available, pairs.push(added)) == account_sale(
            currency,
            available,
            pairs,
        ),
{
    let i = choose|i: int| is_first_pair(pairs, currency, i);
    assert(is_first_pair(pairs, currency, i));
    let more = pairs.push(added);
    assert forall|j: int| 0 <= j < i implies #[trigger] more[j].0 != currency by {
        assert(pairs[j].0 != currency);
    }
    assert(is_first_pair(more, currency, i));
    lemma_first_pair(pairs, currency, i);
    lemma_first_pair(more, currency, i);
}

/// An amount is worth asking for a price exactly if it is more than zero and not less than the
/// pair's minimum, and then the tickers of this pair are asked for, whatever its id is.
pub proof fn law_tickers_of_the_pair_are_asked_for(
    amount: Amount,
    info: &CurrencyPair,
    res: Option<SpotTickersParams<'_>>,
)
    requires
        call_ensures(sell, (&amount, info), res),
    ensures
        res is Some <==> {
            &&& amount@.size > 0
            &&& !amount@.negative
            &&& info.min_base_amount matches Some(min) ==> !amount@.less(min@)
        },
        res matches Some(params) ==> params.currency_pair@ == info.id@,
{
}

/// An order is on the pair that was given, sells all of the amount, and asks for the price that was
/// given; it is placed exactly if its total is not less than the pair's minimum.
pub proof fn law_order_is_on_its_pair(
    amount: Amount,
    info: &CurrencyPair,
    price: Amount,
    total: Amount,
    res: Option<Sale<'_>>,
)
    requires
        call_ensures(sell_for, (&amount, info, &price, &total), res),
    ensures
        res is Some <==> (info.min_quote_amount matches Some(min) ==> !total@.less(min@)),
        res matches Some(sale) ==> {
            &&& sale.order.currency_pair@ == info.id@
            &&& sale.order.side@ == "sell"@
            &&& sale.order.order_type matches Some(t) && t@ == "limit"@
            &&& sale.order.account matches Some(a) && a@ == "spot"@
            &&& sale.order.amount@ == amount@
            &&& sale.order.price@ == price@
            &&& sale.order.text is None
            &&& sale.order.time_in_force is None
            &&& sale.order.iceberg is None
            &&& sale.order.auto_borrow is None
            &&& sale.total@ == total@
        },
{
}

/// What becomes of an amount at the market: without a ticker there is no price; the price is the
/// highest bid of the last ticker; the total is the amount times the price, and an error where it
/// is too large; an order is placed exactly if the total is not less than the pair's minimum, and
/// then on the pair that was given, for all of the amount, at that price.
pub proof fn law_sale_at_the_market(
    amount: Amount,
    info: &CurrencyPair,
    tickers: Vec<SpotTicker>,
    res: Result<Option<Sale<'_>>, SellError>,
)
    requires
        call_ensures(sell_at_market, (&amount, info, &tickers), res),
    ensures
        tickers@.len() == 0 <==> (res matches Err(e) && e == SellError::NoTicker),
        tickers@.len() > 0 ==> {
            let price = tickers@[tickers@.len() - 1].highest_bid@;
            match amount@.product(price) {
                None => res matches Err(e) && e == SellError::TotalOverflow,
                Some(total) => {
                    &&& res is Ok
                    &&& res->Ok_0 is Some <==> (info.min_quote_amount matches Some(min)
                        ==> !total.less(min@))
                    &&& res->Ok_0 matches Some(sale) ==> {
                        &&& sale.order.currency_pair@ == info.id@
                        &&& sale.order.side@ == "sell"@
                        &&& sale.order.order_type matches Some(t) && t@ == "limit"@
                        &&& sale.order.account matches Some(a) && a@ == "spot"@
                        &&& sale.order.amount@ == amount@
                        &&& sale.order.price@ == price
                        &&& sale.order.text is None
                        &&& sale.order.time_in_force is None
                        &&& sale.order.iceberg is None
                        &&& sale.order.auto_borrow is None
                        &&& sale.total@ == total
                    }
                },
            }
        },
{
}

/// Orders for two pairs with different ids name different pairs, whatever is sold and at which
/// price.
pub proof fn law_orders_of_different_pairs_differ(
    amount: Amount,
    info: &CurrencyPair,
    tickers: Vec<SpotTicker>,
    res: Result<Option<Sale<'_>>, SellError>,
    other_amount: Amount,
    other_info: &CurrencyPair,
    other_tickers: Vec<SpotTicker>,
    other_res: Result<Option<Sale<'_>>, SellError>,
)
    requires
        call_ensures(sell_at_market, (&amount, info, &tickers), res),
        call_ensures(sell_at_market, (&other_amount, other_info, &other_tickers), other_res),
        info.id@ != other_info.id@,
    ensures
        res matches Ok(Some(sale)) ==> (other_res matches Ok(Some(other)) ==> {
            sale.order.currency_pair@ != other.order.currency_pair@
        }),
{
}

/// Only the highest bid of the last ticker matters: where it is the same, the same comes of the
/// sale.
pub proof fn law_only_the_last_bid_matters(
    amount: Amount,
    info: &CurrencyPair,
    tickers: Vec<SpotTicker>,
    res: Result<Option<Sale<'_>>, SellError>,
    other_tickers: Vec<SpotTicker>,
    other_res: Result<Option<Sale<'_>>, SellError>,
)
    requires
        call_ensures(sell_at_market, (&amount, info, &tickers), res),
        call_ensures(sell_at_market, (&amount, info, &other_tickers), other_res),
        tickers@.len() > 0,
        other_tickers@.len() > 0,
        tickers@.last().highest_bid@ == other_tickers@.last().highest_bid@,
    ensures
        res matches Err(e) ==> (other_res matches Err(other) && e == other),
        res matches Ok(None) ==> other_res matches Ok(None),
        res matches Ok(Some(sale)) ==> (other_res matches Ok(Some(other)) && {
            &&& sale.total@ == other.total@
            &&& sale.order.price@ == other.order.price@
            &&& sale.order.amount@ == other.order.amount@
        }),
{
}

/// The note on a sale gives, in this order, the order's number or a question mark, the amount and
/// its coin, the total and its coin, and the price and its coin.
pub proof fn law_note_says_what_was_sold(
    order: Order,
    info: CurrencyPair,
    sale: Sale<'_>,
    res: String,
)
    requires
        call_ensures(sold, (&order, &info, &sale), res),
    ensures
        res@ == "#"@ + (match order.id {
            Some(id) => id@,
            None => "?"@,
        }) + " Sell "@ + sale.order.amount@.text(sale.order.amount@.scale) + " "@ + info.base@
            + " => "@ + sale.total@.text(sale.total@.scale) + " "@ + info.quote@ + " @ "@
            + sale.order.price@.text(sale.order.price@.scale) + " "@ + info.quote@,
{
}

/// Which accounts a plan is for, by their places: those that hold something of a coin that a pair
/// sells.
proof fn lemma_plan_places(
    accounts: Seq<SpotAccount>,
    pairs: Seq<(Seq<char>, Seq<char>)>,
) -> (places: Seq<int>)
    ensures
        places.len() == planned(accounts, pairs).len(),
        forall|k: int|
            0 <= k < places.len() ==> 0 <= #[trigger] places[k] < accounts.len() && account_sale(
                accounts[places[k]].currency@,
                accounts[places[k]].available@,
                pairs,
            ) == Some(planned(accounts, pairs)[k]),
        forall|k: int, l: int| 0 <= k < l < places.len() ==> places[k] < places[l],
        forall|i: int|
            0 <= i < accounts.len() && account_sale(
                (#[trigger] accounts[i]).currency@,
                accounts[i].available@,
                pairs,
            ) is Some ==> places.contains(i),
    decreases accounts.len(),
{
    if accounts.len() == 0 {
        seq![]
    } else {
        let before = accounts.drop_last();
        let last = accounts.len() - 1;
        let earlier = lemma_plan_places(before, pairs);
        let sale = account_sale(accounts.last().currency@, accounts.last().available@, pairs);
        let places = if sale is Some {
            earlier.push(last)
        } else {
            earlier
        };
        assert forall|k: int| 0 <= k < places.len() implies 0 <= #[trigger] places[k]
            < accounts.len() && account_sale(
            accounts[places[k]].currency@,
            accounts[places[k]].available@,
            pairs,
        ) == Some(planned(accounts, pairs)[k]) by {
            if k < earlier.len() {
                assert(places[k] == earlier[k]);
                assert(before[earlier[k]] == accounts[earlier[k]]);
            }
        }
        assert forall|i: int|
            0 <= i < accounts.len() && account_sale(
                (#[trigger] accounts[i]).currency@,
                accounts[i].available@,
                pairs,
            ) is Some implies places.contains(i) by {
            if i < last {
                assert(before[i] == accounts[i]);
                assert(earlier.contains(i));
                let k = choose|k: int| 0 <= k < earlier.len() && earlier[k] == i;
                assert(places[k] == i);
            } else {
                assert(places[earlier.len() as int] == i);
            }
        }
        places
    }
}

/// Every planned sale belongs to an account that holds something and to the first of the pairs
/// whose source is the account's coin, sells all that is available, and names the path of that
/// pair.
pub proof fn law_planned_sale_sells_the_source_of_its_pair(
    accounts: Vec<SpotAccount>,
    pairs: Vec<(String, String)>,
    res: Vec<(String, Amount)>,
    k: int,
)
    requires
        call_ensures(sell_all_pairs, (&accounts, &pairs), res),
        0 <= k < res@.len(),
    ensures
        exists|i: int, p: int|
            #![trigger accounts@[i], pairs@[p]]
            {
                &&& 0 <= i < accounts@.len()
                &&& 0 <= p < pairs@.len()
                &&& pairs@[p].0@ == accounts@[i].currency@
                &&& forall|q: int| 0 <= q < p ==> (#[trigger] pairs@[q]).0@
                    != accounts@[i].currency@
                &&& accounts@[i].available@.size > 0
                &&& !accounts@[i].available@.negative
                &&& res@[k].1@ == accounts@[i].available@
                &&& res@[k].0@ == "spot/currency_pairs/"@ + pairs@[p].0@ + "_"@ + pairs@[p].1@
            },
{
    let view = pairs_view(pairs@);
    let places = lemma_plan_places(accounts@, view);
    let plan = plan_view(res@);
    assert(plan == planned(accounts@, view));
    assert(plan[k] == (res@[k].0@, res@[k].1@));
    let i = places[k];
    let coin = accounts@[i].currency@;
    let p = choose|p: int| is_first_pair(view, coin, p);
    assert(is_first_pair(view, coin, p));
    lemma_first_pair(view, coin, p);
    assert(view[p] == (pairs@[p].0@, pairs@[p].1@));
    assert forall|q: int| 0 <= q < p implies (#[trigger] pairs@[q]).0@ != coin by {
        assert(view[q].0 != coin);
    }
    let account = accounts@[i];
    assert(account == accounts@[i] && pairs@[p].0@ == coin);
}

/// The plan follows the accounts: it names, in their order, each account that holds something of
/// a coin that is the source of a pair, once, and no other account, with all that it has available
/// and the path of the first pair that its coin is the source of.
pub proof fn law_plan_follows_the_accounts(
    accounts: Vec<SpotAccount>,
    pairs: Vec<(String, String)>,
    res: Vec<(String, Amount)>,
) -> (places: Seq<int>)
    requires
        call_ensures(sell_all_pairs, (&accounts, &pairs), res),
    ensures
        places.len() == res@.len(),
        forall|k: int|
            0 <= k < places.len() ==> 0 <= #[trigger] places[k] < accounts@.len()
                && res@[k].1@ == accounts@[places[k]].available@ && exists|p: int|
                0 <= p < pairs@.len() && (#[trigger] pairs@[p]).0@
                    == accounts@[places[k]].currency@ && (forall|q: int|
                    0 <= q < p ==> (#[trigger] pairs@[q]).0@ != accounts@[places[k]].currency@)
                    && res@[k].0@ == "spot/currency_pairs/"@ + pairs@[p].0@ + "_"@ + pairs@[p].1@,
        forall|k: int, l: int| 0 <= k < l < places.len() ==> places[k] < places[l],
        forall|i: int|
            0 <= i < accounts@.len() ==> (places.contains(i) <==> {
                &&& (#[trigger] accounts@[i]).available@.size > 0
                &&& !accounts@[i].available@.negative
                &&& exists|p: int|
                    0 <= p < pairs@.len() && (#[trigger] pairs@[p]).0@ == accounts@[i].currency@
            }),
{
    let view = pairs_view(pairs@);
    let places = lemma_plan_places(accounts@, view);
    let plan = plan_view(res@);
    assert(plan == planned(accounts@, view));
    assert forall|k: int| 0 <= k < places.len() implies 0 <= #[trigger] places[k] < accounts@.len()
        && res@[k].1@ == accounts@[places[k]].available@ && exists|p: int|
        0 <= p < pairs@.len() && (#[trigger] pairs@[p]).0@ == accounts@[places[k]].currency@ && (
        forall|q: int| 0 <= q < p ==> (#[trigger] pairs@[q]).0@ != accounts@[places[k]].currency@)
            && res@[k].0@ == "spot/currency_pairs/"@ + pairs@[p].0@ + "_"@ + pairs@[p].1@ by {
        assert(plan[k] == (res@[k].0@, res@[k].1@));
        let coin = accounts@[places[k]].currency@;
        let p = choose|p: int| is_first_pair(view, coin, p);
        assert(is_first_pair(view, coin, p));
        assert(view[p] == (pairs@[p].0@, pairs@[p].1@));
        assert forall|q: int| 0 <= q < p implies (#[trigger] pairs@[q]).0@ != coin by {
            assert(view[q].0 != coin);
        }
        assert(pairs@[p].0@ == coin);
    }
    assert forall|i: int| 0 <= i < accounts@.len() implies (places.contains(i) <==> {
        &&& (#[trigger] accounts@[i]).available@.size > 0
        &&& !accounts@[i].available@.negative
        &&& exists|p: int|
            0 <= p < pairs@.len() && (#[trigger] pairs@[p]).0@ == accounts@[i].currency@
    }) by {
        let coin = accounts@[i].currency@;
        if places.contains(i) {
            let k = choose|k: int| 0 <= k < places.len() && places[k] == i;
            assert(places[k] == i);
            let p = choose|p: int| is_first_pair(view, coin, p);
            assert(is_first_pair(view, coin, p));
            assert(pairs@[p].0@ == view[p].0);
        }
        if exists|p: int| 0 <= p < pairs@.len() && (#[trigger] pairs@[p]).0@ == coin {
            let p = choose|p: int| 0 <= p < pairs@.len() && (#[trigger] pairs@[p]).0@ == coin;
            assert(view[p].0 == coin);
            let first = lemma_has_first_pair(view, coin, p);
            lemma_first_pair(view, coin, first);
        }
    }
    places
}

/// An account whose coin is the source of no pair changes nothing, wherever else its coin stands.
pub proof fn law_other_coins_are_not_planned(
    accounts: Vec<SpotAccount>,
    pairs: Vec<(String, String)>,
    res: Vec<(String, Amount)>,
    more: Vec<SpotAccount>,
    more_res: Vec<(String, Amount)>,
)
    requires
        call_ensures(sell_all_pairs, (&accounts, &pairs), res),
        call_ensures(sell_all_pairs, (&more, &pairs), more_res),
        more@.len() == accounts@.len() + 1,
        more@.drop_last() == accounts@,
        forall|p: int|
            0 <= p < pairs@.len() ==> (#[trigger] pairs@[p]).0@ != more@.last().currency@,
    ensures
        res@.len() == more_res@.len(),
        forall|k: int|
            0 <= k < res@.len() ==> (#[trigger] res@[k]).0@ == more_res@[k].0@ && res@[k].1@
                == more_res@[k].1@,
{
    let view = pairs_view(pairs@);
    let coin = more@.last().currency@;
    assert forall|p: int| !is_first_pair(view, coin, p) by {
        if 0 <= p < view.len() {
            assert(view[p] == (pairs@[p].0@, pairs@[p].1@));
            assert(pairs@[p].0@ != coin);
        }
    }
    assert(first_pair(view, coin) is None);
    assert(account_sale(coin, more@.last().available@, view) is None);
    assert(planned(more@, view) == planned(more@.drop_last(), view));
    let (plan, more_plan) = (plan_view(res@), plan_view(more_res@));
    assert(plan == more_plan);
    assert forall|k: int| 0 <= k < res@.len() implies (#[trigger] res@[k]).0@ == more_res@[k].0@
        && res@[k].1@ == more_res@[k].1@ by {
        assert(plan[k] == more_plan[k]);
    }
}

/// The table of balances has a line on every account, in their order and whatever they hold, after
/// a head of three lines and before a closing rule.
pub proof fn law_every_account_is_shown(accounts: Vec<SpotAccount>, res: String) -> (table: Seq<
    Seq<char>,
>)
    requires
        call_ensures(print_balance, (&accounts,), res),
    ensures
        res@ == lines(table),
        table.len() == accounts@.len() + 4,
        table[0] == "======================================================"@,
        table[1] == "Coin \t| Available \t| Locked"@,
        table[2] == "------------------------------------------------------"@,
        forall|i: int|
            0 <= i < accounts@.len() ==> #[trigger] table[3 + i] == accounts@[i].currency@
                + " \t| "@ + accounts@[i].available@.text(8) + " \t| "@
                + accounts@[i].locked@.text(8),
        table.last() == "======================================================"@,
{
    balance_table(accounts@)
}

/// One more account adds one line before the closing rule, and leaves the others as they are.
pub proof fn law_one_more_account_is_one_more_line(
    accounts: Vec<SpotAccount>,
    res: String,
    more: Vec<SpotAccount>,
    more_res: String,
) -> (shown: Seq<char>)
    requires
        call_ensures(print_balance, (&accounts,), res),
        call_ensures(print_balance, (&more,), more_res),
        more@.len() == accounts@.len() + 1,
        more@.drop_last() == accounts@,
    ensures
        res@ == shown + line("======================================================"@),
        more_res@ == shown + line(
            more@.last().currency@ + " \t| "@ + more@.last().available@.text(8) + " \t| "@
                + more@.last().locked@.text(8),
        ) + line("======================================================"@),
{
    let table = law_every_account_is_shown(accounts, res);
    let more_table = law_every_account_is_shown(more, more_res);
    let n = accounts@.len() as int;
    assert(more_table.drop_last().drop_last() =~= table.drop_last()) by {
        assert forall|j: int| 0 <= j < n + 3 implies table[j] == more_table[j] by {
            if j >= 3 {
                assert(more@.drop_last()[j - 3] == more@[j - 3]);
                assert(table[3 + (j - 3)] == more_table[3 + (j - 3)]);
            }
        }
    }
    assert(more_table[3 + n] == more_table.drop_last().last());
    assert(more@[n] == more@.last());
    assert(lines(more_table) == lines(more_table.drop_last()) + line(more_table.last()));
    assert(lines(more_table.drop_last()) == lines(table.drop_last()) + line(more_table[3 + n]));
    lines(table.drop_last())
}

/// What the user is told of a sale that failed.
pub proof fn law_sale_errors_are_told(error: SellError, res: &'static str)
    requires
        call_ensures(SellError::message, (&error,), res),
    ensures
        error == SellError::NoTicker ==> res@ == "No info about the currency pair"@,
        error == SellError::TotalOverflow ==> res@ == "Multiplication overflowed"@,
{
}

} // verus!
