use gatetrader::amount::{Amount, MAX_MANTISSA, MAX_SCALE};

fn amount(mantissa: i128, scale: u32) -> Amount {
    Amount::new(mantissa, scale).unwrap()
}

#[test]
fn amounts_are_bounded() {
    assert!(Amount::new(MAX_MANTISSA, MAX_SCALE).is_some());
    assert!(Amount::new(-MAX_MANTISSA, 0).is_some());
    assert!(Amount::new(MAX_MANTISSA + 1, 0).is_none());
    assert!(Amount::new(-MAX_MANTISSA - 1, 0).is_none());
    assert!(Amount::new(1, MAX_SCALE + 1).is_none());
    assert!(Amount::new(i128::MIN, 0).is_none());
    assert_eq!(amount(-105, 2).mantissa(), -105);
    assert_eq!(amount(-105, 2).scale(), 2);
    assert_eq!(Amount::zero().mantissa(), 0);
    assert_eq!(Amount::zero().scale(), 0);
}

#[test]
fn comparison_ignores_decimal_places() {
    assert!(amount(99, 2).less_than(&amount(1, 0)));
    assert!(!amount(100, 2).less_than(&amount(1, 0)));
    assert!(!amount(1, 0).less_than(&amount(100, 2)));
    assert!(amount(-1, 0).less_than(&amount(-5, 1)));
    assert!(!amount(-5, 1).less_than(&amount(-1, 0)));
    assert!(amount(1, 28).less_than(&amount(MAX_MANTISSA, 0)));
    assert!(!amount(MAX_MANTISSA, 0).less_than(&amount(1, 28)));
    assert!(amount(MAX_MANTISSA, 28).less_than(&amount(8, 0)));
    assert_eq!(amount(10, 1), amount(1, 0));
    assert_eq!(amount(0, 5), Amount::zero());
    assert_ne!(amount(11, 1), amount(1, 0));
}

#[test]
fn comparison_is_ordered_and_transitive() {
    let values = [
        amount(-MAX_MANTISSA, 0),
        amount(-5, 1),
        amount(-1, 28),
        amount(0, 3),
        amount(1, 28),
        amount(5, 1),
        amount(51, 2),
        amount(MAX_MANTISSA, 0),
    ];
    for i in 0..values.len() {
        for j in 0..values.len() {
            assert_eq!(values[i].less_than(&values[j]), i < j);
            assert_eq!(values[i] == values[j], i == j);
        }
    }
}

#[test]
fn positive_means_more_than_zero() {
    assert!(amount(1, 28).is_positive());
    assert!(!amount(0, 0).is_positive());
    assert!(!amount(0, 28).is_positive());
    assert!(!amount(-1, 0).is_positive());
}

#[test]
fn exact_products() {
    let total = amount(105, 2).times(&amount(25, 1)).unwrap();
    assert_eq!((total.mantissa(), total.scale()), (2625, 3));
    let total = amount(-3, 0).times(&amount(7, 28)).unwrap();
    assert_eq!((total.mantissa(), total.scale()), (-21, 28));
    let total = amount(MAX_MANTISSA, 0).times(&amount(1, 0)).unwrap();
    assert_eq!((total.mantissa(), total.scale()), (MAX_MANTISSA, 0));
    let total = amount(1 << 47, 14).times(&amount(1 << 48, 14)).unwrap();
    assert_eq!((total.mantissa(), total.scale()), (1 << 95, 28));
    let total = amount(1 << 70, 3).times(&amount((1 << 25) + 1, 4)).unwrap();
    assert_eq!((total.mantissa(), total.scale()), ((1 << 95) + (1 << 70), 7));
}

#[test]
fn product_with_zero_has_no_decimal_places() {
    let total = amount(0, 5).times(&amount(25, 1)).unwrap();
    assert_eq!((total.mantissa(), total.scale()), (0, 0));
    let total = amount(-25, 1).times(&amount(0, 28)).unwrap();
    assert_eq!((total.mantissa(), total.scale()), (0, 0));
}

#[test]
fn products_are_rounded_or_too_large() {
    let total = amount(15, 1).times(&amount(1, 28)).unwrap();
    assert_eq!((total.mantissa(), total.scale()), (2, 28));
    assert!(amount(MAX_MANTISSA, 0).times(&amount(2, 0)).is_none());
    assert!(amount(MAX_MANTISSA, 0).times(&amount(-MAX_MANTISSA, 0)).is_none());
}

#[test]
fn text_has_all_decimal_places() {
    assert_eq!(amount(123456, 4).text(), "12.3456");
    assert_eq!(amount(-105, 2).text(), "-1.05");
    assert_eq!(amount(5, 2).text(), "0.05");
    assert_eq!(amount(0, 0).text(), "0");
    assert_eq!(amount(0, 3).text(), "0.000");
    assert_eq!(amount(700, 0).text(), "700");
    assert_eq!(amount(MAX_MANTISSA, 0).text(), "79228162514264337593543950335");
    assert_eq!(amount(-MAX_MANTISSA, 28).text(), "-7.9228162514264337593543950335");
    assert_eq!(amount(1, 28).text(), "0.0000000000000000000000000001");
}

#[test]
fn text_with_places_is_padded_or_cut() {
    assert_eq!(amount(5, 1).text_with(8), "0.50000000");
    assert_eq!(amount(101174993000000000000, 20).text_with(8), "1.01174993");
    assert_eq!(amount(199999999999, 11).text_with(8), "1.99999999");
    assert_eq!(amount(-1, 9).text_with(8), "-0.00000000");
    assert_eq!(amount(0, 0).text_with(8), "0.00000000");
    assert_eq!(amount(-123, 0).text_with(1), "-123.0");
}

#[test]
fn long_amounts_do_not_fit() {
    let longest = amount(99_999_999_999_999_999_999_999, 0);
    assert!(longest.fits(8));
    assert_eq!(longest.text_with(8), "99999999999999999999999.00000000");
    assert!(!amount(100_000_000_000_000_000_000_000, 0).fits(8));
    assert!(!amount(-MAX_MANTISSA, 5).fits(8));
    assert!(amount(-MAX_MANTISSA, 6).fits(8));
    assert!(amount(MAX_MANTISSA, 28).fits(28));
    assert_eq!(amount(MAX_MANTISSA, 28).text_with(28), "7.9228162514264337593543950335");
}

#[test]
fn trailing_zeros_do_not_matter() {
    assert_eq!(amount(-37, 3), amount(-370, 4));
}

#[test]
fn parts_are_kept() {
    let value = Amount::from_parts(true, 105, 2).unwrap();
    assert_eq!((value.is_negative(), value.mantissa(), value.scale()), (true, -105, 2));
    assert_eq!(value, amount(-105, 2));
    assert!(!amount(105, 2).is_negative());
    assert!(amount(-105, 2).is_negative());
    assert!(Amount::from_parts(true, MAX_MANTISSA as u128, MAX_SCALE).is_some());
    assert!(Amount::from_parts(true, MAX_MANTISSA as u128 + 1, 0).is_none());
    assert!(Amount::from_parts(false, u128::MAX, 0).is_none());
    assert!(Amount::from_parts(false, 1, MAX_SCALE + 1).is_none());
}

#[test]
fn zero_keeps_its_sign_and_is_zero_all_the_same() {
    let zero = Amount::from_parts(true, 0, 2).unwrap();
    assert_eq!(zero.text(), "-0.00");
    assert_eq!(zero.text_with(8), "-0.00000000");
    assert_eq!(zero, Amount::zero());
    assert!(!zero.is_positive());
    assert!(!zero.less_than(&Amount::zero()));
    assert!(!Amount::zero().less_than(&zero));
    assert!(zero.less_than(&amount(1, 28)));
    assert!(amount(-1, 28).less_than(&zero));
    let total = zero.times(&amount(3, 1)).unwrap();
    assert_eq!((total.is_negative(), total.mantissa(), total.scale()), (false, 0, 0));
}

#[test]
fn products_rounded_to_zero_keep_their_sign() {
    let total = amount(1 << 33, 28).times(&amount(-1, 28)).unwrap();
    assert_eq!((total.is_negative(), total.mantissa(), total.scale()), (true, 0, 28));
    assert_eq!(total.text(), "-0.0000000000000000000000000000");
    let total = amount(1 << 33, 28).times(&amount(1, 28)).unwrap();
    assert_eq!(total.text(), "0.0000000000000000000000000000");
}

#[test]
fn products_grow_with_the_amount() {
    let price = amount(25, 2);
    let small = amount(105, 2).times(&price).unwrap();
    let same = amount(1050, 3).times(&price).unwrap();
    let large = amount(1051, 3).times(&price).unwrap();
    assert_eq!(small, same);
    assert!(small.less_than(&large));
}

fn power_of_ten(n: u32) -> Option<u128> {
    10u128.checked_pow(n)
}

fn rounded(p: u128, k: u32) -> u128 {
    match power_of_ten(k) {
        Some(u) => {
            let (q, r) = (p / u, p % u);
            if r > u - r || r == u - r && q % 2 == 1 {
                q + 1
            } else {
                q
            }
        }
        None => 0,
    }
}

fn expected(p: u128, scale: u32) -> Option<(u128, u32)> {
    let mut k = if scale > MAX_SCALE { scale - MAX_SCALE } else { 0 };
    while k <= scale {
        let size = rounded(p, k);
        if size <= MAX_MANTISSA as u128 {
            return Some((size, scale - k));
        }
        k += 1;
    }
    None
}

#[test]
fn products_are_rounded_to_the_last_place_that_fits() {
    let mut state: u64 = 42;
    let mut next = || {
        state = state.wrapping_mul(6364136223846793005).wrapping_add(1442695040888963407);
        state
    };
    let mut missing = 0;
    let mut zeros = 0;
    for _ in 0..200_000 {
        let (a, b) = if next() >> 63 == 0 {
            ((next() >> (next() >> 58)) as u128, (next() >> (next() >> 58)) as u128)
        } else {
            let wide = ((next() as u128) << 32 | (next() >> 32) as u128) >> (next() >> 58);
            (wide, (next() >> 33 >> (next() >> 60)) as u128)
        };
        let (s, t) = ((next() >> 33) as u32 % 29, (next() >> 33) as u32 % 29);
        if a == 0 || b == 0 {
            continue;
        }
        let left = Amount::from_parts(false, a, s).unwrap();
        let right = Amount::from_parts(true, b, t).unwrap();
        match (left.times(&right), expected(a * b, s + t)) {
            (None, None) => missing += 1,
            (Some(total), Some((size, scale))) => {
                assert_eq!(total.mantissa().unsigned_abs(), size);
                if size == 0 {
                    zeros += 1;
                } else {
                    assert_eq!(total.scale(), scale);
                    assert!(total.is_negative());
                }
            }
            (total, other) => panic!("{:?} {:?}", total, other),
        }
    }
    assert!(missing > 0);
    assert!(zeros > 0);
}

#[test]
fn largest_products() {
    let text = |a: Amount, b: Amount| a.times(&b).unwrap().text();
    assert_eq!(text(amount(MAX_MANTISSA, 1), amount(15, 1)), "11884224377139650639031592550");
    assert_eq!(text(amount(MAX_MANTISSA, 28), amount(1, 1)), "0.7922816251426433759354395034");
    assert_eq!(text(amount(MAX_MANTISSA, 28), amount(MAX_MANTISSA, 28)), "62.771017353866807638357894230");
    assert_eq!(text(amount(5, 28), amount(1, 1)), "0.0000000000000000000000000000");
    assert_eq!(text(amount(15, 28), amount(1, 1)), "0.0000000000000000000000000002");
    assert!(amount(MAX_MANTISSA, 0).times(&amount(11, 1)).is_none());
}
