//! Amounts of coins: decimal numbers of at most 96 bits and at most 28 decimal places.

use rust_decimal::Decimal;
use vstd::arithmetic::div_mod::{lemma_fundamental_div_mod, lemma_fundamental_div_mod_converse};
use vstd::prelude::*;

verus! {

/// The largest absolute value of a mantissa: 2^96 - 1.
pub const MAX_MANTISSA: i128 = 0xFFFF_FFFF_FFFF_FFFF_FFFF_FFFF;

/// The largest number of decimal places.
pub const MAX_SCALE: u32 = 28;

/// The number `size / 10^scale` with its sign, together with how many decimal places it is
/// written with. Zero has a sign too, which shows in its text only.
pub struct Number {
    pub negative: bool,
    pub size: nat,
    pub scale: nat,
}

/// `10^n`.
pub open spec fn pow10(n: nat) -> nat
    decreases n,
{
    if n == 0 {
        1
    } else {
        10 * pow10((n - 1) as nat)
    }
}

/// `|i|`.
pub open spec fn magnitude(i: int) -> nat {
    if i < 0 {
        (-i) as nat
    } else {
        i as nat
    }
}

/// The decimal digit `d`, for `d` below ten.
pub open spec fn digit(d: nat) -> char {
    (('0' as u32) + d) as char
}

/// `n` in decimal, without leading zeros.
pub open spec fn decimal(n: nat) -> Seq<char>
    decreases n,
{
    if n < 10 {
        seq![digit(n)]
    } else {
        decimal(n / 10).push(digit(n % 10))
    }
}

/// The last `width` digits of `n` in decimal, with leading zeros.
pub open spec fn padded(n: nat, width: nat) -> Seq<char>
    decreases width,
{
    if width == 0 {
        seq![]
    } else {
        padded(n / 10, (width - 1) as nat).push(digit(n % 10))
    }
}

impl Number {
    /// The number `mantissa / 10^scale`.
    pub open spec fn of(mantissa: int, scale: nat) -> Number {
        Number { negative: mantissa < 0, size: magnitude(mantissa), scale }
    }

    /// Zero without decimal places.
    pub open spec fn zero() -> Number {
        Number { negative: false, size: 0, scale: 0 }
    }

    /// The number without its decimal point.
    pub open spec fn mantissa(self) -> int {
        if self.negative {
            -self.size
        } else {
            self.size as int
        }
    }

    /// Whether `self` is smaller than `other`: the comparison of the two fractions.
    pub open spec fn less(self, other: Number) -> bool {
        self.mantissa() * pow10(other.scale) < other.mantissa() * pow10(self.scale)
    }

    /// Whether `self` and `other` are the same number, whatever their decimal places.
    pub open spec fn same(self, other: Number) -> bool {
        self.mantissa() * pow10(other.scale) == other.mantissa() * pow10(self.scale)
    }

    /// The part before the decimal point, without its sign.
    pub open spec fn whole(self) -> nat {
        self.size / pow10(self.scale)
    }

    /// The number written with `places` decimal places, the rest cut off.
    pub open spec fn text(self, places: nat) -> Seq<char> {
        let shifted = self.size * pow10(places) / pow10(self.scale);
        let sign = if self.negative {
            seq!['-']
        } else {
            seq![]
        };
        let fraction = if places == 0 {
            seq![]
        } else {
            seq!['.'] + padded(shifted % pow10(places), places)
        };
        sign + decimal(shifted / pow10(places)) + fraction
    }

    /// Whether the number can be written with `places` decimal places: sign aside, a text has
    /// at most 32 characters.
    pub open spec fn fits(self, places: nat) -> bool {
        self.whole() < pow10((31 - places) as nat)
    }

    /// Whether the product of `self` and `other` needs no rounding.
    pub open spec fn multiplies_exactly(self, other: Number) -> bool {
        self.size * other.size <= MAX_MANTISSA && self.scale + other.scale <= MAX_SCALE
    }

    /// The product of `self` and `other`, with as many decimal places as a decimal can hold, the
    /// last of them rounded, or `None` where it is too large for a decimal. With zero it is zero
    /// without decimal places. Of a product that is rounded to zero, only the name says how it is
    /// written.
    pub open spec fn product(self, other: Number) -> Option<Number> {
        let size = self.size * other.size;
        let scale = self.scale + other.scale;
        if self.size == 0 || other.size == 0 {
            Some(Number::zero())
        } else {
            match dropped(size, scale, first_dropped(scale)) {
                None => None,
                Some(k) => if rounded(size, pow10(k)) == 0 {
                    Some(Number { size: 0, ..decimal_product(self, other)->0 })
                } else {
                    Some(
                        Number {
                            negative: self.negative != other.negative,
                            size: rounded(size, pow10(k)),
                            scale: (scale - k) as nat,
                        },
                    )
                },
            }
        }
    }
}

/// `p / u`, rounded to the nearest whole number, and halves to the even one.
pub open spec fn rounded(p: nat, u: nat) -> nat {
    if 2 * (p % u) > u || 2 * (p % u) == u && (p / u) % 2 == 1 {
        p / u + 1
    } else {
        p / u
    }
}

/// How many of `scale` decimal places are too many for a decimal.
pub open spec fn first_dropped(scale: nat) -> nat {
    if scale > MAX_SCALE {
        (scale - MAX_SCALE) as nat
    } else {
        0
    }
}

/// How many of `scale` decimal places have to be dropped, from `k` on, until what is left of `size`
/// fits into a decimal.
pub open spec fn dropped(size: nat, scale: nat, k: nat) -> Option<nat>
    decreases scale + 1 - k,
{
    if k > scale {
        None
    } else if rounded(size, pow10(k)) <= MAX_MANTISSA {
        Some(k)
    } else {
        dropped(size, scale, k + 1)
    }
}

/// The product of two decimals as `rust_decimal` computes it, rounded to what a decimal can
/// hold, or `None` where it is too large.
pub uninterp spec fn decimal_product(a: Number, b: Number) -> Option<Number>;

/// An amount of a coin, or a price.
#[derive(Clone, Copy, Debug)]
pub struct Amount {
    negative: bool,
    size: u128,
    scale: u32,
}

impl View for Amount {
    type V = Number;

    closed spec fn view(&self) -> Number {
        Number { negative: self.negative, size: self.size as nat, scale: self.scale as nat }
    }
}

/// The view of an amount that may be missing.
pub open spec fn optional(amount: Option<Amount>) -> Option<Number> {
    match amount {
        Some(a) => Some(a@),
        None => None,
    }
}

/// Whether a decimal can hold a number of this size with this many decimal places.
pub open spec fn representable(size: nat, scale: nat) -> bool {
    size <= MAX_MANTISSA && scale <= MAX_SCALE
}

/// `Decimal`'s `<`: whether the number `a` is smaller than the number `b`, exactly, whatever
/// their decimal places.
#[verifier::external_body]
fn decimal_less(a: &Amount, b: &Amount) -> (res: bool)
    ensures
        res == a@.less(b@),
{
    let mut left = Decimal::from_i128_with_scale(a.size as i128, a.scale);
    left.set_sign_negative(a.negative);
    let mut right = Decimal::from_i128_with_scale(b.size as i128, b.scale);
    right.set_sign_negative(b.negative);
    left < right
}

/// `Decimal`'s `==`: whether `a` and `b` are the same number, whatever their decimal places.
#[verifier::external_body]
fn decimal_same(a: &Amount, b: &Amount) -> (res: bool)
    ensures
        res == a@.same(b@),
{
    let mut left = Decimal::from_i128_with_scale(a.size as i128, a.scale);
    left.set_sign_negative(a.negative);
    let mut right = Decimal::from_i128_with_scale(b.size as i128, b.scale);
    right.set_sign_negative(b.negative);
    left == right
}

/// `Decimal::checked_mul`: a product with zero is zero without decimal places. Any other keeps as
/// many decimal places as fit into 96 bits, at most 28, rounded to the nearest, halves to the even
/// digit, and is negative where one factor is; it is missing where not even the whole part fits.
/// How a product that is rounded to zero is written is what `decimal_product` names.
#[verifier::external_body]
fn decimal_mul(a: &Amount, b: &Amount) -> (res: Option<Amount>)
    ensures
        optional(res) == decimal_product(a@, b@),
        optional(res) == a@.product(b@),
{
    let mut left = Decimal::from_i128_with_scale(a.size as i128, a.scale);
    left.set_sign_negative(a.negative);
    let mut right = Decimal::from_i128_with_scale(b.size as i128, b.scale);
    right.set_sign_negative(b.negative);
    left.checked_mul(right).map(
        |d|
            Amount {
                negative: d.is_sign_negative(),
                size: d.mantissa().unsigned_abs(),
                scale: d.scale(),
            },
    )
}

/// `Decimal`'s `Display`: the number written with all its decimal places.
#[verifier::external_body]
fn decimal_text(a: &Amount) -> (res: String)
    ensures
        res@ == a@.text(a@.scale),
{
    let mut decimal = Decimal::from_i128_with_scale(a.size as i128, a.scale);
    decimal.set_sign_negative(a.negative);
    format!("{}", decimal)
}

/// `Decimal`'s `Display` with a precision: the number written with `places` decimal places,
/// further ones cut off, missing ones zero. It has room for 32 characters beside the sign, and
/// panics on a number that needs more.
#[verifier::external_body]
fn decimal_text_with(a: &Amount, places: usize) -> (res: String)
    requires
        0 < places <= MAX_SCALE,
        a@.fits(places as nat),
    ensures
        res@ == a@.text(places as nat),
{
    let mut decimal = Decimal::from_i128_with_scale(a.size as i128, a.scale);
    decimal.set_sign_negative(a.negative);
    format!("{:.*}", places, decimal)
}

impl Amount {
    #[verifier::type_invariant]
    spec fn valid(self) -> bool {
        representable(self.size as nat, self.scale as nat)
    }

    /// The amount `mantissa / 10^scale`, or `None` where a decimal cannot hold it.
    pub fn new(mantissa: i128, scale: u32) -> (res: Option<Amount>)
        ensures
            res is Some <==> representable(magnitude(mantissa as int), scale as nat),
            res matches Some(a) ==> a@ == Number::of(mantissa as int, scale as nat),
    {
        if -MAX_MANTISSA <= mantissa && mantissa <= MAX_MANTISSA {
            let size: u128 = if mantissa < 0 {
                (-mantissa) as u128
            } else {
                mantissa as u128
            };
            Amount::from_parts(mantissa < 0, size, scale)
        } else {
            None
        }
    }

    /// The amount `size / 10^scale` with this sign, or `None` where a decimal cannot hold it.
    pub fn from_parts(negative: bool, size: u128, scale: u32) -> (res: Option<Amount>)
        ensures
            res is Some <==> representable(size as nat, scale as nat),
            res matches Some(a) ==> a@ == (Number {
                negative,
                size: size as nat,
                scale: scale as nat,
            }),
    {
        if size <= MAX_MANTISSA as u128 && scale <= MAX_SCALE {
            Some(Amount { negative, size, scale })
        } else {
            None
        }
    }

    /// No coins at all.
    pub fn zero() -> (res: Amount)
        ensures
            res@ == Number::zero(),
    {
        Amount { negative: false, size: 0, scale: 0 }
    }

    /// Whether the number is written with a minus sign. Zero can be, too.
    pub fn is_negative(&self) -> (res: bool)
        ensures
            res == self@.negative,
    {
        self.negative
    }

    /// The number without its decimal point.
    pub fn mantissa(&self) -> (res: i128)
        ensures
            res == self@.mantissa(),
            representable(self@.size, self@.scale),
    {
        proof {
            use_type_invariant(self);
        }
        if self.negative {
            -(self.size as i128)
        } else {
            self.size as i128
        }
    }

    /// How many decimal places the number is written with.
    pub fn scale(&self) -> (res: u32)
        ensures
            res == self@.scale,
            representable(self@.size, self@.scale),
    {
        proof {
            use_type_invariant(self);
        }
        self.scale
    }

    /// Whether the amount is smaller than `other`.
    pub fn less_than(&self, other: &Amount) -> (res: bool)
        ensures
            res == self@.less(other@),
    {
        decimal_less(self, other)
    }

    /// Whether there is anything of the coin: whether the amount is more than zero.
    pub fn is_positive(&self) -> (res: bool)
        ensures
            res == (self@.mantissa() > 0),
    {
        proof {
            lemma_compare_with_zero(self@);
        }
        Amount::zero().less_than(self)
    }

    /// The amount times a price, or `None` where the product is too large for a decimal.
    pub fn times(&self, price: &Amount) -> (res: Option<Amount>)
        ensures
            optional(res) == self@.product(price@),
    {
        decimal_mul(self, price)
    }

    /// The amount as text, with all its decimal places.
    pub fn text(&self) -> (res: String)
        ensures
            res@ == self@.text(self@.scale),
    {
        decimal_text(self)
    }

    /// The amount as text with `places` decimal places, the rest cut off.
    pub fn text_with(&self, places: u32) -> (res: String)
        requires
            0 < places <= MAX_SCALE,
            self@.fits(places as nat),
        ensures
            res@ == self@.text(places as nat),
    {
        decimal_text_with(self, places as usize)
    }

    /// Whether the amount can be written with `places` decimal places.
    pub fn fits(&self, places: u32) -> (res: bool)
        requires
            places <= MAX_SCALE,
        ensures
            res == self@.fits(places as nat),
    {
        proof {
            use_type_invariant(self);
        }
        self.size / power_of_ten(self.scale) < power_of_ten(31 - places)
    }
}

/// `10^n`, for the powers that the library needs.
fn power_of_ten(n: u32) -> (res: u128)
    requires
        n <= 31,
    ensures
        res == pow10(n as nat),
        res > 0,
{
    let mut res: u128 = 1;
    let mut i: u32 = 0;
    proof {
        assert(pow10(31) == 10_000_000_000_000_000_000_000_000_000_000) by {
            reveal_with_fuel(pow10, 32);
        }
    }
    while i < n
        invariant
            i <= n <= 31,
            res == pow10(i as nat),
            pow10(31) == 10_000_000_000_000_000_000_000_000_000_000,
        decreases n - i,
    {
        proof {
            lemma_pow10_grows((i + 1) as nat, 31);
        }
        res = 10 * res;
        i = i + 1;
    }
    proof {
        lemma_pow10_grows(0, n as nat);
    }
    res
}

proof fn lemma_pow10_grows(m: nat, n: nat)
    requires
        m <= n,
    ensures
        0 < pow10(m) <= pow10(n),
    decreases n,
{
    if n > 0 {
        if m == n {
            lemma_pow10_grows((m - 1) as nat, (n - 1) as nat);
        } else {
            lemma_pow10_grows(m, (n - 1) as nat);
        }
    }
}

/// Comparing with zero is looking at the sign.
proof fn lemma_compare_with_zero(n: Number)
    ensures
        Number::zero().less(n) <==> n.mantissa() > 0,
{
    assert(pow10(0) == 1);
    assert(0 * pow10(n.scale) == 0) by (nonlinear_arith);
    assert(n.mantissa() * 1 == n.mantissa());
}

/// Two amounts are equal where they are the same number: `1.0` equals `1.00`.
impl PartialEq for Amount {
    fn eq(&self, other: &Amount) -> (res: bool) {
        decimal_same(self, other)
    }
}

impl vstd::std_specs::cmp::PartialEqSpecImpl for Amount {
    open spec fn obeys_eq_spec() -> bool {
        true
    }

    open spec fn eq_spec(&self, other: &Amount) -> bool {
        self@.same(other@)
    }
}

impl Eq for Amount {

}

/// Of any two numbers exactly one is smaller, or they are the same.
pub proof fn law_numbers_are_ordered(a: Number, b: Number)
    ensures
        a.less(b) || a.same(b) || b.less(a),
        !(a.less(b) && a.same(b)),
        !(a.less(b) && b.less(a)),
        !(a.same(b) && b.less(a)),
{
}

/// The order of numbers is transitive: what is smaller than a smaller number is smaller.
pub proof fn law_order_is_transitive(a: Number, b: Number, c: Number)
    requires
        a.less(b),
        b.less(c),
    ensures
        a.less(c),
{
    lemma_pow10_grows(0, a.scale);
    lemma_pow10_grows(0, b.scale);
    lemma_pow10_grows(0, c.scale);
    let (ma, mb, mc) = (a.mantissa(), b.mantissa(), c.mantissa());
    let (pa, pb, pc) = (pow10(a.scale) as int, pow10(b.scale) as int, pow10(c.scale) as int);
    assert(ma * pc < mc * pa) by (nonlinear_arith)
        requires
            ma * pb < mb * pa,
            mb * pc < mc * pb,
            pa > 0,
            pb > 0,
            pc > 0,
    {
        assert((ma * pb) * pc < (mb * pa) * pc);
        assert((mb * pc) * pa < (mc * pb) * pa);
        assert((ma * pc) * pb < (mc * pa) * pb);
    }
}

/// Trailing zeros do not matter: a number is the same with one more decimal place.
pub proof fn law_trailing_zeros_do_not_matter(n: Number)
    ensures
        n.same(Number { negative: n.negative, size: n.size * 10, scale: n.scale + 1 }),
{
    let m = n.mantissa();
    let p = pow10(n.scale) as int;
    assert(pow10(n.scale + 1) == 10 * pow10(n.scale));
    assert(m * (10 * p) == (m * 10) * p) by (nonlinear_arith);
}

/// The sign of zero does not matter: it is the same number with and without.
pub proof fn law_zeros_are_the_same(negative: bool, scale: nat)
    ensures
        Number::zero().same(Number { negative, size: 0, scale }),
{
    assert(0 * pow10(scale) == 0) by (nonlinear_arith);
}

/// What is at least as large as a number that is at least as large as a third is at least as
/// large as the third.
pub proof fn law_at_least_is_transitive(a: Number, b: Number, c: Number)
    requires
        !b.less(a),
        !c.less(b),
    ensures
        !c.less(a),
{
    lemma_pow10_grows(0, a.scale);
    lemma_pow10_grows(0, b.scale);
    lemma_pow10_grows(0, c.scale);
    let (ma, mb, mc) = (a.mantissa(), b.mantissa(), c.mantissa());
    let (pa, pb, pc) = (pow10(a.scale) as int, pow10(b.scale) as int, pow10(c.scale) as int);
    assert(ma * pc <= mc * pa) by (nonlinear_arith)
        requires
            ma * pb <= mb * pa,
            mb * pc <= mc * pb,
            pa > 0,
            pb > 0,
            pc > 0,
    {
        assert((ma * pb) * pc <= (mb * pa) * pc);
        assert((mb * pc) * pa <= (mc * pb) * pa);
        assert((ma * pc) * pb <= (mc * pa) * pb);
    }
}

proof fn lemma_pow10_adds(m: nat, n: nat)
    ensures
        pow10(m + n) == pow10(m) * pow10(n),
    decreases m,
{
    if m == 0 {
        assert(1 * pow10(n) == pow10(n));
    } else {
        lemma_pow10_adds((m - 1) as nat, n);
        let (p, q) = (pow10((m - 1) as nat) as int, pow10(n) as int);
        assert((m - 1) as nat + n == (m + n - 1) as nat);
        assert((10 * p) * q == 10 * (p * q)) by (nonlinear_arith);
    }
}

/// What rounding means: half a unit is the most that it changes.
proof fn lemma_rounded(p: nat, u: nat)
    requires
        u > 0,
    ensures
        2 * (rounded(p, u) * u) <= 2 * p + u,
        2 * p <= 2 * (rounded(p, u) * u) + u,
        p == (p / u) * u + p % u,
        p % u < u,
        p / u <= rounded(p, u) <= p / u + 1,
{
    lemma_fundamental_div_mod(p as int, u as int);
    let (q, r) = (p as int / u as int, p as int % u as int);
    assert(u * q == q * u && (q + 1) * u == q * u + u) by (nonlinear_arith);
}

/// Rounding does not cross a whole number.
proof fn lemma_rounded_stays(p: nat, u: nat, c: nat)
    requires
        u > 0,
    ensures
        c * u <= p ==> c <= rounded(p, u),
        p <= c * u ==> rounded(p, u) <= c,
{
    lemma_rounded(p, u);
    let (q, r, m) = ((p / u) as int, (p % u) as int, u as int);
    assert(c * m <= q * m + r ==> c <= q) by (nonlinear_arith)
        requires
            0 <= r < m,
    ;
    assert(q * m + r <= c * m ==> q <= c && (r > 0 ==> q < c)) by (nonlinear_arith)
        requires
            0 <= r < m,
    ;
}

/// A whole number stays as it is.
proof fn lemma_rounded_whole(p: nat)
    ensures
        rounded(p, 1) == p,
{
    assert(p * 1 == p) by (nonlinear_arith);
    lemma_rounded_stays(p, 1, p);
}

/// A larger number is not rounded to a smaller one.
proof fn lemma_rounded_grows(p: nat, more: nat, u: nat)
    requires
        u > 0,
        p <= more,
    ensures
        rounded(p, u) <= rounded(more, u),
{
    lemma_rounded(p, u);
    lemma_rounded(more, u);
    let (q1, r1) = ((p / u) as int, (p % u) as int);
    let (q2, r2) = ((more / u) as int, (more % u) as int);
    let m = u as int;
    assert(q1 <= q2 && (q1 == q2 ==> r1 <= r2)) by (nonlinear_arith)
        requires
            q1 * m + r1 <= q2 * m + r2,
            0 <= r1 < m,
            0 <= r2 < m,
    ;
}

/// Rounding looks at the fraction only.
proof fn lemma_rounded_fraction(p: nat, u: nat, t: nat)
    requires
        u > 0,
        t > 0,
    ensures
        rounded(p * t, u * t) == rounded(p, u),
{
    lemma_rounded(p, u);
    let (q, r) = ((p / u) as int, (p % u) as int);
    let (pi, ui, ti) = (p as int, u as int, t as int);
    assert(pi * ti == q * (ui * ti) + r * ti && 0 <= r * ti < ui * ti && ui * ti > 0)
        by (nonlinear_arith)
        requires
            pi == q * ui + r,
            0 <= r < ui,
            ti > 0,
    ;
    lemma_fundamental_div_mod_converse(pi * ti, ui * ti, q, r * ti);
    assert((2 * (r * ti) > ui * ti <==> 2 * r > ui) && (2 * (r * ti) == ui * ti <==> 2 * r == ui))
        by (nonlinear_arith)
        requires
            ti > 0,
    ;
}

/// What fits into a decimal once it is rounded.
proof fn lemma_rounded_fits(p: nat, u: nat)
    requires
        u > 0,
    ensures
        rounded(p, u) <= MAX_MANTISSA <==> 2 * p < (2 * MAX_MANTISSA + 1) * u,
{
    lemma_rounded(p, u);
    let (q, r, m) = ((p / u) as int, (p % u) as int, u as int);
    let max = MAX_MANTISSA as int;
    if q < max {
        assert(2 * (q * m + r) < (2 * max + 1) * m) by (nonlinear_arith)
            requires
                q + 1 <= max,
                0 <= r < m,
        ;
    } else if q == max {
        assert(2 * (q * m + r) < (2 * max + 1) * m <==> 2 * r < m) by (nonlinear_arith)
            requires
                q == max,
        ;
    } else {
        assert(2 * (q * m + r) >= (2 * max + 1) * m) by (nonlinear_arith)
            requires
                q >= max + 1,
                0 <= r < m,
        ;
    }
}

/// As few decimal places are dropped as possible.
proof fn lemma_dropped(size: nat, scale: nat, start: nat)
    ensures
        dropped(size, scale, start) matches Some(k) ==> {
            &&& start <= k <= scale
            &&& rounded(size, pow10(k)) <= MAX_MANTISSA
            &&& k > start ==> rounded(size, pow10((k - 1) as nat)) > MAX_MANTISSA
        },
        dropped(size, scale, start) is None && start <= scale ==> rounded(size, pow10(scale))
            > MAX_MANTISSA,
    decreases scale + 1 - start,
{
    if start <= scale && rounded(size, pow10(start)) > MAX_MANTISSA {
        lemma_dropped(size, scale, start + 1);
    }
}

/// Of two products, of which the second is at least as large, the rounded ones are in this order.
proof fn lemma_rounded_products(p1: nat, s1: nat, p2: nat, s2: nat)
    requires
        p1 * pow10(s2) <= p2 * pow10(s1),
        dropped(p1, s1, first_dropped(s1)) is Some,
        dropped(p2, s2, first_dropped(s2)) is Some,
    ensures
        ({
            let k1 = dropped(p1, s1, first_dropped(s1))->0;
            let k2 = dropped(p2, s2, first_dropped(s2))->0;
            rounded(p1, pow10(k1)) * pow10((s2 - k2) as nat) <= rounded(p2, pow10(k2)) * pow10(
                (s1 - k1) as nat,
            )
        }),
{
    lemma_dropped(p1, s1, first_dropped(s1));
    lemma_dropped(p2, s2, first_dropped(s2));
    let k1 = dropped(p1, s1, first_dropped(s1))->0;
    let k2 = dropped(p2, s2, first_dropped(s2))->0;
    let (t1, t2) = ((s1 - k1) as nat, (s2 - k2) as nat);
    let (u1, u2) = (pow10(k1), pow10(k2));
    let (m1, m2) = (rounded(p1, u1), rounded(p2, u2));
    lemma_pow10_grows(0, k1);
    lemma_pow10_grows(0, k2);
    lemma_pow10_grows(0, t1);
    lemma_pow10_grows(0, t2);
    lemma_pow10_adds(t1, k1);
    lemma_pow10_adds(t2, k2);
    let (w1, w2) = (pow10(t1), pow10(t2));
    assert(p1 * (w2 * u2) <= p2 * (w1 * u1));
    if t1 == t2 {
        lemma_rounded_fraction(p1, u1, u2);
        lemma_rounded_fraction(p2, u2, u1);
        assert(u1 * u2 == u2 * u1) by (nonlinear_arith);
        assert(u1 * u2 > 0) by (nonlinear_arith)
            requires
                u1 > 0,
                u2 > 0,
        ;
        assert(p1 * u2 <= p2 * u1) by (nonlinear_arith)
            requires
                p1 * (w2 * u2) <= p2 * (w1 * u1),
                w1 == w2,
                w1 > 0,
        ;
        lemma_rounded_grows(p1 * u2, p2 * u1, u1 * u2);
        assert(m1 * w2 <= m2 * w1) by (nonlinear_arith)
            requires
                m1 <= m2,
                w1 == w2,
                w1 > 0,
        ;
    } else if t1 > t2 {
        let d = (t1 - t2) as nat;
        let v = pow10(d);
        lemma_pow10_adds(t2, d);
        lemma_pow10_grows(0, d);
        assert(w1 == w2 * v);
        if k2 == 0 {
            assert(u2 == 1);
            lemma_rounded_whole(p2);
            assert(p1 <= (m2 * v) * u1) by (nonlinear_arith)
                requires
                    p1 * (w2 * u2) <= p2 * (w1 * u1),
                    w1 == w2 * v,
                    w2 > 0,
                    u2 == 1,
                    m2 == p2,
            ;
            lemma_rounded_stays(p1, u1, m2 * v);
            assert(m1 * w2 <= m2 * w1) by (nonlinear_arith)
                requires
                    m1 <= m2 * v,
                    w1 == w2 * v,
                    w2 > 0,
            ;
        } else {
            let before = pow10((k2 - 1) as nat);
            lemma_pow10_grows(0, (k2 - 1) as nat);
            lemma_rounded_fits(p2, before);
            lemma_rounded(p2, u2);
            let max = MAX_MANTISSA as int;
            assert(20 * m2 >= 2 * max - 9) by (nonlinear_arith)
                requires
                    2 * p2 >= (2 * max + 1) * before,
                    2 * p2 <= 2 * (m2 * u2) + u2,
                    u2 == 10 * before,
                    before > 0,
            ;
            assert(10 * m2 >= m1);
            lemma_pow10_grows(1, d);
            assert(pow10(1) == 10) by {
                reveal_with_fuel(pow10, 2);
            }
            assert(m1 * w2 <= m2 * w1) by (nonlinear_arith)
                requires
                    10 * m2 >= m1,
                    v >= 10,
                    w1 == w2 * v,
                    w2 > 0,
                    m2 >= 0,
            {
                assert(m1 * w2 <= (10 * m2) * w2);
                assert((10 * m2) * w2 <= (v * m2) * w2);
                assert((v * m2) * w2 == m2 * (w2 * v));
            }
        }
    } else {
        let d = (t2 - t1) as nat;
        let v = pow10(d);
        lemma_pow10_adds(t1, d);
        lemma_pow10_grows(0, d);
        assert(w2 == w1 * v);
        if k1 == 0 {
            assert(u1 == 1);
            lemma_rounded_whole(p1);
            assert((m1 * v) * u2 <= p2) by (nonlinear_arith)
                requires
                    p1 * (w2 * u2) <= p2 * (w1 * u1),
                    w2 == w1 * v,
                    w1 > 0,
                    u1 == 1,
                    m1 == p1,
            ;
            lemma_rounded_stays(p2, u2, m1 * v);
            assert(m1 * w2 <= m2 * w1) by (nonlinear_arith)
                requires
                    m1 * v <= m2,
                    w2 == w1 * v,
                    w1 > 0,
            ;
        } else {
            let before = pow10((k1 - 1) as nat);
            lemma_pow10_grows(0, (k1 - 1) as nat);
            lemma_rounded_fits(p1, before);
            lemma_rounded_fits(p2, u2);
            lemma_pow10_grows(1, d);
            assert(pow10(1) == 10) by {
                reveal_with_fuel(pow10, 2);
            }
            let most = 2 * MAX_MANTISSA as int + 1;
            assert(false) by (nonlinear_arith)
                requires
                    p1 * (w2 * u2) <= p2 * (w1 * u1),
                    2 * p1 >= most * before,
                    2 * p2 < most * u2,
                    u1 == 10 * before,
                    w2 == w1 * v,
                    v >= 10,
                    w1 > 0,
                    u2 > 0,
                    before > 0,
                    most > 0,
            {
                let x = w1 * u2;
                assert(x > 0);
                assert((2 * p1) * (w2 * u2) == (2 * p1) * (v * x));
                assert((2 * p1) * (v * x) >= (most * before) * (v * x));
                assert((most * before) * (v * x) >= (most * before) * (10 * x));
                let y = w1 * u1;
                assert(y > 0);
                assert((2 * p2) * y < (most * u2) * y);
                assert((most * u2) * y == (most * before) * (10 * x));
                assert((2 * p1) * (w2 * u2) <= (2 * p2) * y);
            }
        }
    }
}

/// A product that needs no rounding is exact: the decimal places add up.
pub proof fn law_exact_products(a: Number, b: Number)
    requires
        a.size != 0,
        b.size != 0,
        a.multiplies_exactly(b),
    ensures
        a.product(b) == Some(
            Number {
                negative: a.negative != b.negative,
                size: a.size * b.size,
                scale: a.scale + b.scale,
            },
        ),
{
    let size = a.size * b.size;
    assert(size > 0) by (nonlinear_arith)
        requires
            a.size > 0,
            b.size > 0,
            size == a.size * b.size,
    ;
    assert(pow10(0) == 1);
    lemma_rounded_whole(size);
}

/// A product is too large for a decimal only where it does not fit even without decimal places.
pub proof fn law_only_large_products_are_missing(a: Number, b: Number)
    requires
        a.size != 0,
        b.size != 0,
    ensures
        a.product(b) is None <==> rounded(a.size * b.size, pow10(a.scale + b.scale))
            > MAX_MANTISSA,
{
    let (size, scale) = (a.size * b.size, a.scale + b.scale);
    lemma_dropped(size, scale, first_dropped(scale));
    if let Some(k) = dropped(size, scale, first_dropped(scale)) {
        lemma_pow10_grows(0, k);
        lemma_pow10_grows(k, scale);
        lemma_rounded_fits(size, pow10(k));
        lemma_rounded_fits(size, pow10(scale));
        let (low, high, most) = (
            pow10(k) as int,
            pow10(scale) as int,
            2 * MAX_MANTISSA as int + 1,
        );
        assert(most * low <= most * high) by (nonlinear_arith)
            requires
                low <= high,
                most > 0,
        ;
    }
}

/// Products grow with the amount, at a price that is not negative, also where they are rounded.
pub proof fn law_products_grow(amount: Number, larger: Number, price: Number)
    requires
        amount.mantissa() > 0,
        !larger.less(amount),
        price.mantissa() >= 0,
        amount.product(price) is Some,
        larger.product(price) is Some,
    ensures
        larger.mantissa() > 0,
        !(larger.product(price)->0).less(amount.product(price)->0),
{
    lemma_pow10_grows(0, amount.scale);
    lemma_pow10_grows(0, larger.scale);
    lemma_pow10_grows(0, price.scale);
    let (a, b, p) = (amount.mantissa(), larger.mantissa(), price.mantissa());
    let (ta, tb, tp) = (
        pow10(amount.scale) as int,
        pow10(larger.scale) as int,
        pow10(price.scale) as int,
    );
    assert(b > 0) by (nonlinear_arith)
        requires
            a * tb <= b * ta,
            a > 0,
            ta > 0,
            tb > 0,
    ;
    if p > 0 {
        lemma_pow10_adds(amount.scale, price.scale);
        lemma_pow10_adds(larger.scale, price.scale);
        assert((a * p) * (tb * tp) <= (b * p) * (ta * tp)) by (nonlinear_arith)
            requires
                a * tb <= b * ta,
                p > 0,
                tp > 0,
        {
            assert((a * tb) * (p * tp) <= (b * ta) * (p * tp));
            assert((a * p) * (tb * tp) == (a * tb) * (p * tp));
            assert((b * p) * (ta * tp) == (b * ta) * (p * tp));
        }
        let (s1, s2) = (amount.scale + price.scale, larger.scale + price.scale);
        let (p1, p2) = (amount.size * price.size, larger.size * price.size);
        lemma_rounded_products(p1, s1, p2, s2);
        lemma_dropped(p1, s1, first_dropped(s1));
        lemma_dropped(p2, s2, first_dropped(s2));
        let k1 = dropped(p1, s1, first_dropped(s1))->0;
        let k2 = dropped(p2, s2, first_dropped(s2))->0;
        let (m1, m2) = (rounded(p1, pow10(k1)), rounded(p2, pow10(k2)));
        let (x, y) = (amount.product(price)->0, larger.product(price)->0);
        assert(x.size == m1 && y.size == m2);
        lemma_pow10_grows(0, (s2 - k2) as nat);
        lemma_pow10_grows(0, x.scale);
        lemma_pow10_grows(0, y.scale);
        if m1 == 0 {
            assert(x.mantissa() == 0);
            let (e, f, g) = (y.mantissa(), pow10(x.scale) as int, pow10(y.scale) as int);
            if m2 == 0 {
                assert(y.mantissa() == 0);
            }
            assert(0 * g <= e * f) by (nonlinear_arith)
                requires
                    e >= 0,
                    f > 0,
            ;
        } else if m2 == 0 {
            let w = pow10((s2 - k2) as nat) as int;
            assert(false) by (nonlinear_arith)
                requires
                    m1 * w <= 0 * pow10((s1 - k1) as nat),
                    m1 > 0,
                    w > 0,
            ;
        }
    }
}

/// Powers of ten.
pub proof fn law_powers_of_ten(n: nat)
    ensures
        pow10(0) == 1,
        pow10(n + 1) == 10 * pow10(n),
{
}

/// An amount has the sign, the size and the decimal places that it was made of, and can be made of
/// every size up to 2^96 - 1 with up to 28 decimal places, and of no other.
pub proof fn law_amounts_keep_their_parts(
    negative: bool,
    size: u128,
    scale: u32,
    res: Option<Amount>,
    sign: bool,
    mantissa: i128,
    places: u32,
)
    requires
        call_ensures(Amount::from_parts, (negative, size, scale), res),
        res matches Some(a) ==> call_ensures(Amount::is_negative, (&a,), sign) && call_ensures(
            Amount::mantissa,
            (&a,),
            mantissa,
        ) && call_ensures(Amount::scale, (&a,), places),
    ensures
        res is Some <==> size <= 79_228_162_514_264_337_593_543_950_335 && scale <= 28,
        res is Some ==> sign == negative && places == scale && mantissa == if negative {
            -(size as int)
        } else {
            size as int
        },
{
}

/// An amount has the mantissa and the decimal places that it was made of.
pub proof fn law_amounts_keep_their_mantissa(
    number: i128,
    scale: u32,
    res: Option<Amount>,
    sign: bool,
    mantissa: i128,
    places: u32,
)
    requires
        call_ensures(Amount::new, (number, scale), res),
        res matches Some(a) ==> call_ensures(Amount::is_negative, (&a,), sign) && call_ensures(
            Amount::mantissa,
            (&a,),
            mantissa,
        ) && call_ensures(Amount::scale, (&a,), places),
    ensures
        res is Some <==> -79_228_162_514_264_337_593_543_950_335 <= number
            <= 79_228_162_514_264_337_593_543_950_335 && scale <= 28,
        res is Some ==> mantissa == number && places == scale && sign == (number < 0),
{
}

/// Amounts are compared by their value: as whole numbers where they have the same decimal places,
/// and with as many trailing zeros as it takes where they have not.
pub proof fn law_amounts_are_compared_by_value(
    a: Amount,
    b: Amount,
    less: bool,
    positive: bool,
    left: i128,
    right: i128,
)
    requires
        call_ensures(Amount::less_than, (&a, &b), less),
        call_ensures(Amount::is_positive, (&a,), positive),
        call_ensures(Amount::mantissa, (&a,), left),
        call_ensures(Amount::mantissa, (&b,), right),
    ensures
        positive <==> left > 0,
        a@.scale == b@.scale ==> (less <==> left < right),
        less <==> left * pow10(b@.scale) < right * pow10(a@.scale),
        a@.same(b@) <==> left * pow10(b@.scale) == right * pow10(a@.scale),
{
    let (l, r, p) = (left as int, right as int, pow10(a@.scale) as int);
    lemma_pow10_grows(0, a@.scale);
    assert(l * p < r * p <==> l < r) by (nonlinear_arith)
        requires
            p > 0,
    ;
}

/// One more trailing zero does not change what a number is compared to.
pub proof fn law_trailing_zeros_do_not_change_the_order(a: Number, b: Number)
    ensures
        a.less(b) <==> a.less(Number { size: b.size * 10, scale: b.scale + 1, ..b }),
        a.less(b) <==> (Number { size: a.size * 10, scale: a.scale + 1, ..a }).less(b),
{
    let (x, y) = (a.mantissa(), b.mantissa());
    let (p, q) = (pow10(a.scale) as int, pow10(b.scale) as int);
    assert(pow10(a.scale + 1) == 10 * pow10(a.scale));
    assert(pow10(b.scale + 1) == 10 * pow10(b.scale));
    assert((x * q < y * p <==> x * (10 * q) < (y * 10) * p) && (x * q < y * p <==> (x * 10) * q < y
        * (10 * p))) by (nonlinear_arith);
}

/// How a product is rounded: to the nearest number with its decimal places, halves to the even
/// digit; with as many decimal places as both factors have, unless these are more than 28 or do
/// not fit into 96 bits with one place more. It is missing only where it does not fit at all.
pub proof fn law_products_are_nearest(a: Amount, b: Amount, res: Option<Amount>)
    requires
        call_ensures(Amount::times, (&a, &b), res),
    ensures
        a@.size == 0 || b@.size == 0 ==> (res matches Some(n) && n@.size == 0 && n@.scale == 0
            && !n@.negative),
        a@.size > 0 && b@.size > 0 ==> {
            let p = a@.size * b@.size;
            let scale = a@.scale + b@.scale;
            let most = 2 * 79_228_162_514_264_337_593_543_950_335 + 1;
            match res {
                None => 2 * p >= most * pow10(scale),
                Some(n) => if n@.size == 0 {
                    scale > 28 && 2 * p <= pow10((scale - 28) as nat)
                } else {
                    let unit = pow10((scale - n@.scale) as nat);
                    &&& n@.scale <= scale
                    &&& n@.scale <= 28
                    &&& n@.negative == (a@.negative != b@.negative)
                    &&& 2 * (n@.size * unit) <= 2 * p + unit
                    &&& 2 * p <= 2 * (n@.size * unit) + unit
                    &&& 2 * (n@.size * unit) == 2 * p + unit || 2 * p == 2 * (n@.size * unit) + unit
                        ==> n@.size % 2 == 0
                    &&& n@.scale < scale && n@.scale < 28 ==> 2 * p >= most * pow10(
                        (scale - n@.scale - 1) as nat,
                    )
                },
            }
        },
{
    if a@.size > 0 && b@.size > 0 {
        let p = a@.size * b@.size;
        let scale = a@.scale + b@.scale;
        let start = first_dropped(scale);
        assert(p > 0) by (nonlinear_arith)
            requires
                p == a@.size * b@.size,
                a@.size > 0,
                b@.size > 0,
        ;
        lemma_dropped(p, scale, start);
        lemma_pow10_grows(0, scale);
        lemma_rounded_fits(p, pow10(scale));
        if let Some(k) = dropped(p, scale, start) {
            let u = pow10(k);
            lemma_pow10_grows(0, k);
            lemma_rounded(p, u);
            lemma_rounded_halves(p, u);
            if k > start {
                let before = pow10((k - 1) as nat);
                lemma_pow10_grows(0, (k - 1) as nat);
                lemma_rounded_fits(p, before);
                assert(u == 10 * before);
                assert(rounded(p, u) > 0) by (nonlinear_arith)
                    requires
                        2 * p >= (2 * MAX_MANTISSA + 1) * before,
                        2 * p <= 2 * (rounded(p, u) * u) + u,
                        u == 10 * before,
                        before > 0,
                {
                    if rounded(p, u) == 0 {
                        assert(rounded(p, u) * u == 0);
                        assert((2 * MAX_MANTISSA + 1) * before > 10 * before);
                    }
                }
            } else if k == 0 {
                lemma_rounded_whole(p);
            }
            if rounded(p, u) == 0 {
                assert(0 * u == 0) by (nonlinear_arith);
            } else {
                assert((scale - (scale - k) as nat) as nat == k);
                if k > start {
                    assert((scale - (scale - k) as nat - 1) as nat == (k - 1) as nat);
                }
            }
        }
    }
}

proof fn lemma_rounded_halves(p: nat, u: nat)
    requires
        u > 0,
    ensures
        2 * (rounded(p, u) * u) == 2 * p + u || 2 * p == 2 * (rounded(p, u) * u) + u ==> rounded(
            p,
            u,
        ) % 2 == 0,
{
    lemma_rounded(p, u);
    let (q, r) = ((p / u) as int, (p % u) as int);
    assert((q + 1) * u == q * u + u) by (nonlinear_arith);
}

/// What a row of decimal digits stands for.
pub open spec fn value_of(digits: Seq<char>) -> int
    decreases digits.len(),
{
    if digits.len() == 0 {
        0
    } else {
        10 * value_of(digits.drop_last()) + (digits.last() as int - '0' as int)
    }
}

/// One more digit makes the number ten times as large, and adds the digit.
pub proof fn law_digits_count_in_tens(digits: Seq<char>, last: char)
    ensures
        value_of(seq![]) == 0,
        value_of(digits.push(last)) == 10 * value_of(digits) + (last as int - 48),
{
    assert(digits.push(last).drop_last() =~= digits);
}

/// A number in decimal reads back as the number, in digits only and without leading zeros.
pub proof fn law_decimals_read_back(n: nat)
    ensures
        value_of(decimal(n)) == n,
        decimal(n).len() > 0,
        decimal(n)[0] == '0' ==> decimal(n).len() == 1,
        forall|i: int|
            0 <= i < decimal(n).len() ==> '0' as int <= #[trigger] decimal(n)[i] as int <= '9' as int,
    decreases n,
{
    reveal_with_fuel(value_of, 2);
    if n >= 10 {
        law_decimals_read_back(n / 10);
        let d = decimal(n / 10);
        assert(d.push(digit(n % 10)).drop_last() =~= d);
        if d[0] == '0' {
            assert(d.len() == 1);
            assert(d.drop_last() =~= seq![]);
            assert(value_of(d) == 0);
        }
    } else {
        assert(seq![digit(n)].drop_last() =~= seq![]);
    }
}

proof fn lemma_padded(n: nat, width: nat)
    ensures
        padded(n, width).len() == width,
        value_of(padded(n, width)) == n % pow10(width),
        forall|i: int|
            0 <= i < width ==> '0' as int <= #[trigger] padded(n, width)[i] as int <= '9' as int,
    decreases width,
{
    if width > 0 {
        let w = (width - 1) as nat;
        lemma_padded(n / 10, w);
        let d = padded(n / 10, w);
        assert(d.push(digit(n % 10)).drop_last() =~= d);
        lemma_pow10_grows(0, w);
        let (m, p) = (n as int, pow10(w) as int);
        let (q, r) = ((m / 10) / p, (m / 10) % p);
        lemma_fundamental_div_mod(m / 10, p);
        lemma_fundamental_div_mod(m, 10);
        assert(m == q * (10 * p) + (10 * r + m % 10)) by (nonlinear_arith)
            requires
                m / 10 == p * q + r,
                m == 10 * (m / 10) + m % 10,
        ;
        lemma_fundamental_div_mod_converse(m, 10 * p, q, 10 * r + m % 10);
    } else {
        assert(n % 1 == 0);
    }
}

proof fn lemma_value_of_joined(a: Seq<char>, b: Seq<char>)
    ensures
        value_of(a + b) == value_of(a) * pow10(b.len()) + value_of(b),
    decreases b.len(),
{
    if b.len() == 0 {
        assert(a + b =~= a);
        assert(value_of(a) * 1 == value_of(a));
    } else {
        lemma_value_of_joined(a, b.drop_last());
        assert((a + b).drop_last() =~= a + b.drop_last());
        let (x, y, p) = (
            value_of(a),
            value_of(b.drop_last()),
            pow10((b.len() - 1) as nat) as int,
        );
        assert(10 * (x * p + y) == x * (10 * p) + 10 * y) by (nonlinear_arith);
    }
}

/// A number as text: a minus sign exactly if it is negative, digits without leading zeros, and, if
/// any are asked for, a point and as many digits as decimal places. The digits read back as the
/// number, with what does not fit into the decimal places cut off.
pub proof fn law_texts_read_back(n: Number, places: nat) -> (digits: (Seq<char>, Seq<char>))
    ensures
        n.text(places) == (if n.negative {
            seq!['-']
        } else {
            seq![]
        }) + digits.0 + (if places == 0 {
            seq![]
        } else {
            seq!['.'] + digits.1
        }),
        digits.0.len() > 0,
        digits.0[0] == '0' ==> digits.0.len() == 1,
        digits.1.len() == places,
        forall|i: int|
            0 <= i < digits.0.len() ==> '0' as int <= #[trigger] digits.0[i] as int <= '9' as int,
        forall|i: int|
            0 <= i < digits.1.len() ==> '0' as int <= #[trigger] digits.1[i] as int <= '9' as int,
        value_of(digits.0 + digits.1) * pow10(n.scale) <= n.size * pow10(places),
        n.size * pow10(places) < (value_of(digits.0 + digits.1) + 1) * pow10(n.scale),
        places == n.scale ==> value_of(digits.0 + digits.1) == n.size,
{
    lemma_pow10_grows(0, n.scale);
    lemma_pow10_grows(0, places);
    let (size, p, s) = (n.size as int, pow10(places) as int, pow10(n.scale) as int);
    assert(size * p >= 0) by (nonlinear_arith)
        requires
            size >= 0,
            p > 0,
    ;
    lemma_fundamental_div_mod(size * p, s);
    let shifted = n.size * pow10(places) / pow10(n.scale);
    let v = shifted as int;
    assert(v * s <= size * p < (v + 1) * s) by (nonlinear_arith)
        requires
            size * p == s * v + (size * p) % s,
            0 <= (size * p) % s < s,
    ;
    let whole = decimal(shifted / pow10(places));
    let fraction = padded(shifted % pow10(places), places);
    law_decimals_read_back(shifted / pow10(places));
    lemma_padded(shifted % pow10(places), places);
    lemma_value_of_joined(whole, fraction);
    lemma_fundamental_div_mod(v, p);
    assert(p * (v / p) == (v / p) * p) by (nonlinear_arith);
    vstd::arithmetic::div_mod::lemma_small_mod(shifted % pow10(places), pow10(places));
    if places == n.scale {
        assert(v == size) by (nonlinear_arith)
            requires
                v * s <= size * p < (v + 1) * s,
                p == s,
                s > 0,
        ;
    }
    (whole, fraction)
}

/// The texts of an amount are those of its number.
pub proof fn law_amounts_are_written_out(
    amount: Amount,
    text: String,
    places: u32,
    rounded_text: String,
)
    requires
        call_ensures(Amount::text, (&amount,), text),
        call_ensures(Amount::text_with, (&amount, places), rounded_text),
    ensures
        text@ == amount@.text(amount@.scale),
        rounded_text@ == amount@.text(places as nat),
{
}

proof fn lemma_decimal_length(n: nat, width: nat)
    requires
        width > 0,
    ensures
        decimal(n).len() <= width <==> n < pow10(width),
    decreases width,
{
    let w = (width - 1) as nat;
    assert(pow10(width) == 10 * pow10(w));
    if n < 10 {
        lemma_pow10_grows(0, w);
    } else if w == 0 {
        law_decimals_read_back(n / 10);
    } else {
        lemma_decimal_length(n / 10, w);
    }
}

/// An amount fits exactly if its text has, beside the sign, at most 32 characters.
pub proof fn law_fitting_texts_are_short(amount: Amount, places: u32, res: bool)
    requires
        call_ensures(Amount::fits, (&amount, places), res),
        0 < places <= 28,
    ensures
        res <==> amount@.text(places as nat).len() <= 32 + (if amount@.negative {
            1int
        } else {
            0int
        }),
{
    let n = amount@;
    lemma_pow10_grows(0, n.scale);
    lemma_pow10_grows(0, places as nat);
    let shifted = n.size * pow10(places as nat) / pow10(n.scale);
    lemma_padded(shifted % pow10(places as nat), places as nat);
    lemma_decimal_length(shifted / pow10(places as nat), (31 - places) as nat);
    let (size, p, s) = (n.size as int, pow10(places as nat) as int, pow10(n.scale) as int);
    assert((size * p) / s / p == size / s) by {
        assert(size * p >= 0) by (nonlinear_arith)
            requires
                size >= 0,
                p > 0,
        ;
        vstd::arithmetic::div_mod::lemma_div_denominator(size * p, s, p);
        vstd::arithmetic::div_mod::lemma_div_denominator(size * p, p, s);
        assert(s * p == p * s && size * p == p * size) by (nonlinear_arith);
        vstd::arithmetic::div_mod::lemma_div_multiples_vanish(size, p);
    }
}

/// Amounts are equal exactly if they are the same number, whatever their decimal places.
pub proof fn law_equal_amounts_are_the_same_number(a: Amount, b: Amount)
    ensures
        vstd::std_specs::cmp::PartialEqSpec::eq_spec(&a, &b) <==> a@.mantissa() * pow10(b@.scale)
            == b@.mantissa() * pow10(a@.scale),
{
}

} // verus!
