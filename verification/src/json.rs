//! JSON values: made, and turned into text, by `serde_json`.

use crate::amount::decimal;
use crate::text::precedes;
use serde_json::Value;
use vstd::prelude::*;

verus! {

/// `serde_json::Value`, any JSON value.
#[verifier::external_type_specification]
#[verifier::external_body]
pub struct ExValue(Value);

/// `serde_json::Error`, why something has no text.
#[verifier::external_type_specification]
#[verifier::external_body]
pub struct ExJsonError(serde_json::Error);

/// The compact text of a value, as `serde_json::to_string` writes it.
pub uninterp spec fn json_text(value: Value) -> Seq<char>;

/// The number `n`, as `Value::from` makes it.
pub uninterp spec fn json_number(n: u64) -> Value;

/// The string `s`, as `Value::from` makes it.
pub uninterp spec fn json_string(s: Seq<char>) -> Value;

/// The view of members of an object.
pub open spec fn members_view(members: Seq<(String, Value)>) -> Seq<(Seq<char>, Value)> {
    Seq::new(members.len(), |i: int| (members[i].0@, members[i].1))
}

/// Whether JSON writes `s` as it stands: no quote, no backslash, no control character.
pub open spec fn is_plain(s: Seq<char>) -> bool {
    forall|i: int|
        0 <= i < s.len() ==> #[trigger] s[i] != '"' && s[i] != '\\' && s[i] as int >= 0x20
}

/// The text `s` in quotes.
pub open spec fn quoted(s: Seq<char>) -> Seq<char> {
    seq!['"'] + s + seq!['"']
}

/// Whether the members come in the order of their keys, and JSON writes the keys as they stand.
pub open spec fn in_order(members: Seq<(Seq<char>, Value)>) -> bool {
    &&& forall|i: int, j: int|
        0 <= i < j < members.len() ==> precedes(#[trigger] members[i].0, #[trigger] members[j].0)
    &&& forall|i: int| 0 <= i < members.len() ==> is_plain(#[trigger] members[i].0)
}

/// The members as text: keys in quotes, colons, values, commas between.
pub open spec fn members_text(members: Seq<(Seq<char>, Value)>) -> Seq<char>
    decreases members.len(),
{
    if members.len() == 0 {
        seq![]
    } else {
        let before = members_text(members.drop_last());
        let comma = if members.len() == 1 {
            seq![]
        } else {
            seq![',']
        };
        before + comma + quoted(members.last().0) + seq![':'] + json_text(members.last().1)
    }
}

/// `serde_json::to_string` on a value: its compact text. It fails only on maps with other keys
/// than strings and where writing a type is refused; a value holds no such thing, so it always
/// has a text.
#[verifier::external_body]
pub(crate) fn to_text(value: &Value) -> (res: Result<String, serde_json::Error>)
    ensures
        res is Ok,
        res->Ok_0@ == json_text(*value),
{
    serde_json::to_string(value)
}

/// `Value::default`: null.
#[verifier::external_body]
pub(crate) fn null() -> (res: Value)
    ensures
        json_text(res) == "null"@,
{
    Value::default()
}

/// `Value::from` on an integer: the number, written in decimal.
#[verifier::external_body]
pub(crate) fn number(n: u64) -> (res: Value)
    ensures
        res == json_number(n),
        json_text(res) == decimal(n as nat),
{
    Value::from(n)
}

/// `Value::from` on a string: the string, written in quotes where nothing in it needs an
/// escape. How escapes are written is left open.
#[verifier::external_body]
pub(crate) fn string(s: String) -> (res: Value)
    ensures
        res == json_string(s@),
        is_plain(s@) ==> json_text(res) == quoted(s@),
{
    Value::from(s)
}

/// `Value::from_iter` on keys and values: the object with these members. Members that come in
/// the order of their keys are written in this order.
#[verifier::external_body]
pub(crate) fn object(members: Vec<(String, Value)>) -> (res: Value)
    requires
        in_order(members_view(members@)),
    ensures
        json_text(res) == seq!['{'] + members_text(
            members_view(members@),
        ) + seq!['}'],
{
    members.into_iter().collect()
}

} // verus!
