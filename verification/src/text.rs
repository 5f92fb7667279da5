//! Text: appending characters, and the order of strings.

use vstd::prelude::*;

verus! {

/// `String::push` appends one character.
pub assume_specification[ String::push ](s: &mut String, ch: char)
    ensures
        final(s)@ == old(s)@.push(ch),
;

/// The order of strings: by the first character in which they differ, a prefix before what it
/// is a prefix of.
pub open spec fn precedes(a: Seq<char>, b: Seq<char>) -> bool
    decreases a.len(),
{
    if b.len() == 0 {
        false
    } else if a.len() == 0 {
        true
    } else if a[0] == b[0] {
        precedes(a.drop_first(), b.drop_first())
    } else {
        (a[0] as int) < (b[0] as int)
    }
}

/// The characters of `s`.
fn characters(s: &str) -> (res: Vec<char>)
    ensures
        res@ == s@,
{
    let mut res: Vec<char> = Vec::new();
    for c in it: s.chars()
        invariant
            it.seq() == s@,
            res@ == s@.take(it.index() as int),
    {
        res.push(c);
    }
    res
}

/// Whether `text` begins with `prefix`.
pub fn begins_with(text: &str, prefix: &str) -> (res: bool)
    ensures
        res == prefix@.is_prefix_of(text@),
{
    let whole = characters(text);
    let begin = characters(prefix);
    if begin.len() > whole.len() {
        return false;
    }
    let mut i: usize = 0;
    while i < begin.len()
        invariant
            whole@ == text@,
            begin@ == prefix@,
            i <= begin.len() <= whole.len(),
            forall|j: int| 0 <= j < i ==> prefix@[j] == text@[j],
        decreases begin.len() - i,
    {
        if begin[i] != whole[i] {
            assert(prefix@[i as int] != text@.subrange(0, prefix@.len() as int)[i as int]);
            return false;
        }
        i = i + 1;
    }
    assert(prefix@ =~= text@.subrange(0, prefix@.len() as int));
    true
}

/// The text without the slashes that it begins with.
pub open spec fn without_slashes(text: Seq<char>) -> Seq<char>
    decreases text.len(),
{
    if text.len() > 0 && text[0] == '/' {
        without_slashes(text.drop_first())
    } else {
        text
    }
}

/// Appends `text` to `res`, without the slashes that `text` begins with.
pub(crate) fn append_without_slashes(res: &mut String, text: &str)
    ensures
        final(res)@ == old(res)@ + without_slashes(text@),
{
    let all = characters(text);
    let ghost before = res@;
    let mut i: usize = 0;
    assert(text@.skip(0) =~= text@);
    while i < all.len() && all[i] == '/'
        invariant
            all@ == text@,
            i <= all.len(),
            without_slashes(text@.skip(i as int)) == without_slashes(text@),
        decreases all.len() - i,
    {
        assert(text@.skip(i as int).drop_first() =~= text@.skip(i + 1));
        i = i + 1;
    }
    let ghost rest = text@.skip(i as int);
    let ghost start = i as int;
    assert(res@ =~= before + rest.take(0));
    while i < all.len()
        invariant
            all@ == text@,
            0 <= start <= i <= all.len(),
            rest == text@.skip(start),
            res@ == before + rest.take(i - start),
        decreases all.len() - i,
    {
        res.push(all[i]);
        assert(res@ =~= before + rest.take(i + 1 - start));
        i = i + 1;
    }
    assert(rest.take(i - start) =~= rest);
}

/// Whether `a` comes before `b`.
pub fn comes_before(a: &str, b: &str) -> (res: bool)
    ensures
        res == precedes(a@, b@),
{
    let left = characters(a);
    let right = characters(b);
    let mut i: usize = 0;
    assert(a@.skip(0) =~= a@ && b@.skip(0) =~= b@);
    while i < left.len() && i < right.len()
        invariant
            left@ == a@,
            right@ == b@,
            i <= left.len(),
            i <= right.len(),
            precedes(a@.skip(i as int), b@.skip(i as int)) == precedes(a@, b@),
        decreases left.len() - i,
    {
        if left[i] != right[i] {
            return left[i] < right[i];
        }
        assert(a@.skip(i as int).drop_first() =~= a@.skip(i + 1));
        assert(b@.skip(i as int).drop_first() =~= b@.skip(i + 1));
        i = i + 1;
    }
    i < right.len()
}

/// No string comes before itself.
pub proof fn law_order_is_irreflexive(a: Seq<char>)
    ensures
        !precedes(a, a),
    decreases a.len(),
{
    if a.len() > 0 {
        law_order_is_irreflexive(a.drop_first());
    }
}

/// Of two different strings one comes before the other.
pub proof fn law_order_is_total(a: Seq<char>, b: Seq<char>)
    requires
        a != b,
    ensures
        precedes(a, b) || precedes(b, a),
    decreases a.len(),
{
    if a.len() == 0 {
        if b.len() == 0 {
            assert(a =~= b);
        }
    } else if b.len() > 0 && a[0] == b[0] {
        if a.drop_first() == b.drop_first() {
            assert(a =~= seq![a[0]] + a.drop_first());
            assert(b =~= seq![b[0]] + b.drop_first());
        }
        law_order_is_total(a.drop_first(), b.drop_first());
    }
}

/// What comes before an earlier string comes before the later one.
pub proof fn law_order_is_transitive(a: Seq<char>, b: Seq<char>, c: Seq<char>)
    requires
        precedes(a, b),
        precedes(b, c),
    ensures
        precedes(a, c),
    decreases a.len(),
{
    if a.len() > 0 && a[0] == b[0] && b[0] == c[0] {
        law_order_is_transitive(a.drop_first(), b.drop_first(), c.drop_first());
    }
}

/// A string comes before what it is a proper prefix of.
pub proof fn law_prefixes_come_first(a: Seq<char>, rest: Seq<char>)
    requires
        rest.len() > 0,
    ensures
        precedes(a, a + rest),
    decreases a.len(),
{
    if a.len() > 0 {
        law_prefixes_come_first(a.drop_first(), rest);
        assert((a + rest).drop_first() =~= a.drop_first() + rest);
    } else {
        assert(a + rest =~= rest);
    }
}

/// Where two strings first differ, their characters there decide, whatever follows.
pub proof fn law_first_difference_decides(
    common: Seq<char>,
    x: char,
    y: char,
    a: Seq<char>,
    b: Seq<char>,
)
    requires
        x != y,
    ensures
        precedes(common + seq![x] + a, common + seq![y] + b) <==> (x as int) < (y as int),
    decreases common.len(),
{
    let (left, right) = (common + seq![x] + a, common + seq![y] + b);
    if common.len() > 0 {
        law_first_difference_decides(common.drop_first(), x, y, a, b);
        assert(left.drop_first() =~= common.drop_first() + seq![x] + a);
        assert(right.drop_first() =~= common.drop_first() + seq![y] + b);
    } else {
        assert(left[0] == x && right[0] == y);
    }
}

/// Which of two strings comes first, in all cases: not the same one; the one that the other goes
/// on from; else the one with the smaller character where they first differ.
pub proof fn law_comparison_of_strings(
    a: &str,
    b: &str,
    res: bool,
    common: Seq<char>,
    rest: Seq<char>,
    other_rest: Seq<char>,
)
    requires
        call_ensures(comes_before, (a, b), res),
        a@ == common + rest,
        b@ == common + other_rest,
    ensures
        rest.len() == 0 ==> (res <==> other_rest.len() > 0),
        rest.len() > 0 && other_rest.len() == 0 ==> !res,
        rest.len() > 0 && other_rest.len() > 0 && rest[0] != other_rest[0] ==> (res <==> (
        rest[0] as int) < (other_rest[0] as int)),
{
    if rest.len() == 0 {
        assert(a@ =~= common);
        if other_rest.len() > 0 {
            law_prefixes_come_first(common, other_rest);
        } else {
            assert(b@ =~= common);
            law_order_is_irreflexive(common);
        }
    } else if other_rest.len() == 0 {
        assert(b@ =~= common);
        law_prefixes_come_first(common, rest);
        if res {
            law_order_is_transitive(a@, b@, a@);
            law_order_is_irreflexive(a@);
        }
    } else if rest[0] != other_rest[0] {
        law_first_difference_decides(
            common,
            rest[0],
            other_rest[0],
            rest.drop_first(),
            other_rest.drop_first(),
        );
        assert(a@ =~= common + seq![rest[0]] + rest.drop_first());
        assert(b@ =~= common + seq![other_rest[0]] + other_rest.drop_first());
    }
}

/// A text begins with a prefix exactly if it is the prefix and something more.
pub proof fn law_prefix_and_the_rest(text: &str, prefix: &str, res: bool)
    requires
        call_ensures(begins_with, (text, prefix), res),
    ensures
        res <==> exists|rest: Seq<char>| text@ == #[trigger] (prefix@ + rest),
{
    if res {
        let rest = text@.skip(prefix@.len() as int);
        assert(text@.subrange(0, prefix@.len() as int) =~= prefix@);
        assert(text@ =~= prefix@ + rest);
    }
    if exists|rest: Seq<char>| text@ == #[trigger] (prefix@ + rest) {
        let rest = choose|rest: Seq<char>| text@ == #[trigger] (prefix@ + rest);
        assert(prefix@ =~= (prefix@ + rest).subrange(0, prefix@.len() as int));
    }
}

/// Only slashes at the begin go: one more of them changes nothing, and a text that begins with
/// anything else stays as it is.
pub proof fn law_only_leading_slashes_go(text: Seq<char>)
    ensures
        without_slashes(seq!['/'] + text) == without_slashes(text),
        text.len() == 0 || text[0] != '/' ==> without_slashes(text) == text,
{
    assert((seq!['/'] + text).drop_first() =~= text);
}

} // verus!
