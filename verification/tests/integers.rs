use rasn_compiler::intermediate::integers::BigInteger;
use rasn_compiler::order::Order;

fn big(text: &str) -> BigInteger {
    BigInteger::parse(text).unwrap()
}

#[test]
fn a_decimal_literal_is_parsed() {
    assert_eq!(big("128"), BigInteger::from_i128(128));
    assert_eq!(big("-128"), BigInteger::from_i128(-128));
    assert_eq!(big("0"), BigInteger::from_i128(0));
    assert_eq!(big("7"), BigInteger::from_i128(7));
    assert_eq!(
        big("170141183460469231731687303715884105727"),
        BigInteger::from_i128(i128::MAX)
    );
    assert_eq!(
        big("-170141183460469231731687303715884105728"),
        BigInteger::from_i128(i128::MIN)
    );
}

#[test]
fn zeros_in_front_do_not_count() {
    assert_eq!(big("000128"), BigInteger::from_i128(128));
    assert_eq!(big("-0007"), BigInteger::from_i128(-7));
    assert_eq!(big("0000"), BigInteger::from_i128(0));
    assert_eq!(big("-0"), BigInteger::from_i128(0));
    assert!(!big("-0").is_negative());
    assert_eq!(big("-000").digits(), &Vec::<u8>::new());
}

#[test]
fn other_text_is_no_integer() {
    for text in ["", "-", "+1", "1.5", "12a", "a12", " 1", "1 ", "--1", "1-", "0x10", "\u{0661}"] {
        assert_eq!(BigInteger::parse(text), None);
    }
}

#[test]
fn the_digits_stand_most_significant_first() {
    assert_eq!(BigInteger::from_i128(1234).digits(), &vec![1u8, 2, 3, 4]);
    assert_eq!(BigInteger::from_i128(-90).digits(), &vec![9u8, 0]);
    assert_eq!(BigInteger::from_i128(0).digits(), &Vec::<u8>::new());
    assert!(BigInteger::from_i128(-90).is_negative());
    assert!(!BigInteger::from_i128(90).is_negative());
    assert!(!BigInteger::from_i128(0).is_negative());
    assert_eq!(big("340282366920938463463374607431768211456").digits().len(), 39);
}

#[test]
fn integers_compare_as_numbers() {
    let samples: Vec<i128> =
        vec![i128::MIN, -1000, -999, -100, -11, -10, -9, -1, 0, 1, 9, 10, 11, 99, 100, 101, 1000, i128::MAX];
    for a in &samples {
        for b in &samples {
            let expected = if a < b {
                Order::Less
            } else if a > b {
                Order::Greater
            } else {
                Order::Equal
            };
            assert_eq!(BigInteger::from_i128(*a).compare(&BigInteger::from_i128(*b)), expected);
        }
    }
}

#[test]
fn integers_beyond_the_machine_compare_as_numbers() {
    let above = big("170141183460469231731687303715884105728");
    let below = big("-170141183460469231731687303715884105729");
    assert_eq!(above.compare(&BigInteger::from_i128(i128::MAX)), Order::Greater);
    assert_eq!(below.compare(&BigInteger::from_i128(i128::MIN)), Order::Less);
    assert_eq!(below.compare(&above), Order::Less);
    assert_eq!(above.compare(&above.duplicate()), Order::Equal);
    assert_eq!(big("99999999999999999999999999999999999999999").compare(&big("100000000000000000000000000000000000000000")), Order::Less);
    assert_eq!(big("-99999999999999999999999999999999999999999").compare(&big("-100000000000000000000000000000000000000000")), Order::Greater);
    assert_eq!(big("100000000000000000000000000000000000000001").compare(&big("100000000000000000000000000000000000000010")), Order::Less);
}

#[test]
fn a_copy_is_equal() {
    for text in ["0", "-1", "42", "-340282366920938463463374607431768211456001"] {
        assert_eq!(big(text).duplicate(), big(text));
    }
}
