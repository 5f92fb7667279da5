//! The channels that the exchange pushes news on.

use crate::amount::Amount;
use vstd::prelude::*;

verus! {

/// News on the balance of a coin.
#[derive(Debug, Eq, PartialEq)]
pub struct SpotBalance {
    pub timestamp: u64,
    pub currency: String,
    pub change: Amount,
    pub total: Amount,
    pub available: Amount,
}

/// Whether the news at `i` is on `coin`.
pub open spec fn concerns(balances: Seq<SpotBalance>, coin: Seq<char>, i: int) -> bool {
    0 <= i < balances.len() && balances[i].currency@ == coin
}

/// Whether the news at `i` is the latest on `coin`: none on that coin has a later timestamp,
/// nor the same timestamp and a later place.
pub open spec fn is_latest(balances: Seq<SpotBalance>, coin: Seq<char>, i: int) -> bool {
    &&& concerns(balances, coin, i)
    &&& forall|j: int| #[trigger]
        concerns(balances, coin, j) ==> balances[j].timestamp < balances[i].timestamp || (
        balances[j].timestamp == balances[i].timestamp && j <= i)
}

/// Whether there is no news on `coin`.
pub open spec fn is_silent(balances: Seq<SpotBalance>, coin: Seq<char>) -> bool {
    forall|i: int| 0 <= i < balances.len() ==> (#[trigger] balances[i]).currency@ != coin
}

/// The latest news on `coin`, or `None` where there is none.
pub fn latest_balance<'a>(balances: &'a Vec<SpotBalance>, coin: &String) -> (res: Option<
    &'a SpotBalance,
>)
    ensures
        match res {
            Some(balance) => exists|i: int| #[trigger]
                is_latest(balances@, coin@, i) && *balance == balances@[i],
            None => forall|i: int| !concerns(balances@, coin@, i),
        },
        res is None <==> is_silent(balances@, coin@),
        res matches Some(balance) ==> balance.currency@ == coin@ && forall|i: int|
            0 <= i < balances@.len() && (#[trigger] balances@[i]).currency@ == coin@
                ==> balances@[i].timestamp <= balance.timestamp,
{
    let mut latest: Option<usize> = None;
    let mut i: usize = 0;
    while i < balances.len()
        invariant
            i <= balances.len(),
            match latest {
                Some(k) => {
                    &&& k < i
                    &&& concerns(balances@, coin@, k as int)
                    &&& forall|j: int| #[trigger]
                        concerns(balances@, coin@, j) && j < i ==> balances@[j].timestamp
                            < balances@[k as int].timestamp || (balances@[j].timestamp
                            == balances@[k as int].timestamp && j <= k)
                },
                None => forall|j: int| j < i ==> !concerns(balances@, coin@, j),
            },
        decreases balances.len() - i,
    {
        if balances[i].currency == *coin {
            match latest {
                Some(k) => {
                    if balances[k].timestamp <= balances[i].timestamp {
                        latest = Some(i);
                    }
                },
                None => {
                    latest = Some(i);
                },
            }
        }
        i = i + 1;
    }
    match latest {
        Some(k) => {
            proof {
                assert(is_latest(balances@, coin@, k as int));
                assert forall|i: int|
                    0 <= i < balances@.len() && (
                    #[trigger] balances@[i]).currency@ == coin@ implies balances@[i].timestamp
                    <= balances@[k as int].timestamp by {
                    assert(concerns(balances@, coin@, i));
                }
            }
            Some(&balances[k])
        },
        None => {
            assert forall|i: int| 0 <= i < balances@.len() implies (
            #[trigger] balances@[i]).currency@ != coin@ by {
                assert(!concerns(balances@, coin@, i));
            }
            None
        },
    }
}

/// There is only one latest news on a coin.
pub proof fn law_latest_balance_is_determined(
    balances: Seq<SpotBalance>,
    coin: Seq<char>,
    i: int,
    j: int,
)
    requires
        is_latest(balances, coin, i),
        is_latest(balances, coin, j),
    ensures
        i == j,
{
}

/// News on other coins changes nothing.
pub proof fn law_other_coins_do_not_matter(
    balances: Seq<SpotBalance>,
    coin: Seq<char>,
    other: SpotBalance,
    i: int,
)
    requires
        other.currency@ != coin,
    ensures
        is_latest(balances.push(other), coin, i) <==> is_latest(balances, coin, i),
{
    let more = balances.push(other);
    assert forall|j: int| concerns(more, coin, j) <==> concerns(balances, coin, j) by {
        if 0 <= j < balances.len() {
            assert(more[j] == balances[j]);
        }
    }
    if is_latest(more, coin, i) {
        assert forall|j: int| #[trigger] concerns(balances, coin, j) implies balances[j].timestamp
            < balances[i].timestamp || (balances[j].timestamp == balances[i].timestamp && j
            <= i) by {
            assert(concerns(more, coin, j));
        }
    }
    if is_latest(balances, coin, i) {
        assert forall|j: int| #[trigger] concerns(more, coin, j) implies more[j].timestamp
            < more[i].timestamp || (more[j].timestamp == more[i].timestamp && j <= i) by {
            assert(concerns(balances, coin, j));
        }
    }
}

/// Later news on a coin takes the place of what was known.
pub proof fn law_later_news_wins(balances: Seq<SpotBalance>, news: SpotBalance)
    requires
        forall|j: int|
            concerns(balances, news.currency@, j) ==> (#[trigger] balances[j]).timestamp
                <= news.timestamp,
    ensures
        is_latest(balances.push(news), news.currency@, balances.len() as int),
{
    let more = balances.push(news);
    assert forall|j: int| #[trigger] concerns(more, news.currency@, j) implies more[j].timestamp
        < news.timestamp || (more[j].timestamp == news.timestamp && j <= balances.len()) by {
        if j < balances.len() {
            assert(concerns(balances, news.currency@, j));
        }
    }
}

/// What is returned is news on the coin, from the list, and none on that coin has a greater
/// timestamp, nor the same timestamp and a later place; nothing is returned exactly if there is no
/// news on that coin.
pub proof fn law_latest_has_the_greatest_timestamp(
    balances: Vec<SpotBalance>,
    coin: String,
    res: Option<&SpotBalance>,
)
    requires
        call_ensures(latest_balance, (&balances, &coin), res),
    ensures
        res is None <==> forall|j: int|
            0 <= j < balances@.len() ==> (#[trigger] balances@[j]).currency@ != coin@,
        res matches Some(latest) ==> {
            &&& latest.currency@ == coin@
            &&& forall|j: int|
                0 <= j < balances@.len() && (#[trigger] balances@[j]).currency@ == coin@
                    ==> balances@[j].timestamp <= latest.timestamp
            &&& exists|i: int|
                0 <= i < balances@.len() && #[trigger] balances@[i] == *latest && forall|j: int|
                    i < j < balances@.len() && (#[trigger] balances@[j]).currency@ == coin@
                        ==> balances@[j].timestamp < latest.timestamp
        },
{
    if res is Some {
        let latest = res->0;
        let i = choose|i: int| #[trigger] is_latest(balances@, coin@, i) && *latest == balances@[i];
        assert(concerns(balances@, coin@, i));
        assert forall|j: int|
            0 <= j < balances@.len() && (#[trigger] balances@[j]).currency@ == coin@ implies {
            &&& balances@[j].timestamp <= latest.timestamp
            &&& j > i ==> balances@[j].timestamp < latest.timestamp
        } by {
            assert(concerns(balances@, coin@, j));
        }
        assert(balances@[i] == *latest);
    }
}

/// News that is older than the latest, or on another coin, changes nothing where it is appended;
/// any other takes its place.
pub proof fn law_older_news_changes_nothing(
    balances: Vec<SpotBalance>,
    coin: String,
    res: Option<&SpotBalance>,
    more: Vec<SpotBalance>,
    more_res: Option<&SpotBalance>,
)
    requires
        call_ensures(latest_balance, (&balances, &coin), res),
        call_ensures(latest_balance, (&more, &coin), more_res),
        more@.len() == balances@.len() + 1,
        more@.drop_last() == balances@,
    ensures
        more@.last().currency@ != coin@ ==> more_res == res,
        more@.last().currency@ == coin@ ==> match res {
            Some(latest) => if more@.last().timestamp < latest.timestamp {
                more_res == res
            } else {
                more_res == Some(&more@.last())
            },
            None => more_res == Some(&more@.last()),
        },
{
    law_latest_has_the_greatest_timestamp(balances, coin, res);
    law_latest_has_the_greatest_timestamp(more, coin, more_res);
    let n = balances@.len() as int;
    assert(more@[n] == more@.last());
    assert forall|j: int| 0 <= j < n implies more@[j] == balances@[j] by {
        assert(more@.drop_last()[j] == more@[j]);
    }
    if let Some(latest) = res {
        let i = choose|i: int|
            0 <= i < balances@.len() && #[trigger] balances@[i] == *latest && forall|j: int|
                i < j < balances@.len() && (#[trigger] balances@[j]).currency@ == coin@
                    ==> balances@[j].timestamp < latest.timestamp;
        assert(more@[i] == *latest);
        assert(more_res is Some);
    }
    if let Some(latest) = more_res {
        let i = choose|i: int|
            0 <= i < more@.len() && #[trigger] more@[i] == *latest && forall|j: int|
                i < j < more@.len() && (#[trigger] more@[j]).currency@ == coin@
                    ==> more@[j].timestamp < latest.timestamp;
        if i < n {
            assert(balances@[i] == *latest);
            assert(res is Some);
            let k = choose|k: int|
                0 <= k < balances@.len() && #[trigger] balances@[k] == *res->0 && forall|j: int|
                    k < j < balances@.len() && (#[trigger] balances@[j]).currency@ == coin@
                        ==> balances@[j].timestamp < (res->0).timestamp;
            assert(more@[k] == *res->0);
            if k < i {
                assert(balances@[i].timestamp < (res->0).timestamp);
            } else if i < k {
                assert(more@[k].timestamp < latest.timestamp);
            }
        }
    }
}

} // verus!
