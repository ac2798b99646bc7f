use compiler::calculator::{Number, Rpn, BASE};

fn number(limbs: &[i32]) -> Number {
    Number::from_limbs(limbs.to_vec())
}

fn limbs_of(text: &str) -> Option<Vec<i32>> {
    Number::parse(text).map(|n| n.limbs().clone())
}

/// What the calculator makes of `text`: the numbers left, and whether all
/// went well.
fn calculated(text: &str) -> (Vec<Vec<i32>>, bool) {
    let mut rpn = Rpn::new();
    let ok = rpn.parse(text);
    (rpn.numbers().iter().map(|n| n.limbs().clone()).collect(), ok)
}

#[test]
fn base_is_nine_digits() {
    assert_eq!(BASE, 1_000_000_000);
}

#[test]
fn numbers_are_read_in_pieces_of_nine() {
    assert_eq!(limbs_of("0"), Some(vec![0]));
    assert_eq!(limbs_of("123"), Some(vec![123]));
    assert_eq!(limbs_of("123456789"), Some(vec![123456789]));
    assert_eq!(limbs_of("123456789987654321"), Some(vec![987654321, 123456789]));
    assert_eq!(limbs_of("1234567890"), Some(vec![0, 123456789]));
    assert_eq!(limbs_of("111111111222222222333"), Some(vec![333, 222222222, 111111111]));
    assert_eq!(limbs_of(""), Some(vec![]));
}

#[test]
fn pieces_may_have_a_sign() {
    assert_eq!(limbs_of("-5"), Some(vec![-5]));
    assert_eq!(limbs_of("+5"), Some(vec![5]));
    assert_eq!(limbs_of("-12345678"), Some(vec![-12345678]));
    assert_eq!(limbs_of("123456789-1"), Some(vec![-1, 123456789]));
    assert_eq!(limbs_of("000000000+07"), Some(vec![7, 0]));
}

#[test]
fn what_is_no_number() {
    assert_eq!(limbs_of("abc"), None);
    assert_eq!(limbs_of("12a"), None);
    assert_eq!(limbs_of("-"), None);
    assert_eq!(limbs_of("+"), None);
    assert_eq!(limbs_of("1-2"), None);
    assert_eq!(limbs_of("123456789+"), None);
    assert_eq!(limbs_of("1.5"), None);
    assert_eq!(limbs_of("1 2"), None);
    assert_eq!(limbs_of("\u{0663}"), None);
    assert_eq!(limbs_of("12345678\u{00e9}1"), None);
}

#[test]
fn pieces_agree_with_the_standard_parser() {
    for piece in ["0", "7", "-7", "+7", "999999999", "-99999999", "+00000001", "00", "-0"] {
        assert_eq!(limbs_of(piece), Some(vec![piece.parse::<i32>().unwrap()]));
    }
    for piece in ["", "-", "+", "1+", "--1", "1 ", " 1", "a"] {
        if !piece.is_empty() {
            assert_eq!(limbs_of(piece), None);
        }
        assert!(piece.parse::<i32>().is_err());
    }
}

#[test]
fn numbers_are_written_limb_by_limb() {
    assert_eq!(number(&[123]).render(), "123");
    assert_eq!(number(&[987654321, 123456789]).render(), "123456789987654321");
    assert_eq!(number(&[5, 1]).render(), "15");
    assert_eq!(number(&[-5, 1]).render(), "1-5");
    assert_eq!(number(&[0, 0, 7]).render(), "700");
    assert_eq!(number(&[]).render(), "");
    assert_eq!(Number::parse("123456789987654321").unwrap().render(), "123456789987654321");
}

#[test]
fn sum_of_limbs_without_carry() {
    assert_eq!(number(&[1, 2]).add(number(&[10, 20])), number(&[11, 22]));
    assert_eq!(number(&[1]).add(number(&[10, 20, 30])), number(&[11, 20, 30]));
    assert_eq!(number(&[10, 20, 30]).add(number(&[1])), number(&[11, 20, 30]));
    assert_eq!(number(&[]).add(number(&[])), number(&[]));
    assert_eq!(number(&[5]).add(number(&[])), number(&[5]));
    assert_eq!(number(&[]).add(number(&[5, 6])), number(&[5, 6]));
    assert_eq!(number(&[-5]).add(number(&[3])), number(&[-2]));
}

#[test]
fn limb_that_reaches_the_base_carries_one() {
    assert_eq!(number(&[999999999]).add(number(&[1])), number(&[1000000000, 1]));
    assert_eq!(number(&[999999999, 5]).add(number(&[2, 6])), number(&[1000000001, 12]));
    assert_eq!(
        number(&[999999999, 999999999]).add(number(&[1])),
        number(&[1000000000, 1000000000, 1])
    );
    assert_eq!(number(&[500000000]).add(number(&[500000000, 7])), number(&[1000000000, 8]));
    assert_eq!(number(&[999999999]).add(number(&[0])), number(&[999999999]));
}

#[test]
fn sum_is_not_the_left_or_the_right_number() {
    let sum = number(&[1, 2, 3]).add(number(&[4, 5]));
    assert_eq!(sum, number(&[5, 7, 3]));
    assert_ne!(sum, number(&[1, 2, 3]));
    assert_ne!(sum, number(&[4, 5]));
}

#[test]
fn limbs_that_leave_the_range_cannot_be_added() {
    assert!(number(&[1, 2]).can_add(&number(&[3])));
    assert!(number(&[i32::MAX - 1]).can_add(&number(&[1])));
    assert!(!number(&[i32::MAX]).can_add(&number(&[1])));
    assert!(!number(&[i32::MIN]).can_add(&number(&[-1])));
    assert!(number(&[999999999, i32::MAX - 1]).can_add(&number(&[1])));
    assert!(!number(&[999999999, i32::MAX]).can_add(&number(&[1])));
    assert!(number(&[999999998, i32::MAX]).can_add(&number(&[1])));
    assert!(number(&[]).can_add(&number(&[])));
    assert_eq!(
        number(&[999999999, i32::MAX - 1]).add(number(&[1])),
        number(&[1000000000, i32::MAX, 1])
    );
}

#[test]
fn calculator_starts_with_nothing() {
    let rpn = Rpn::new();
    assert!(rpn.numbers().is_empty());
}

#[test]
fn push_then_eval() {
    let mut rpn = Rpn::new();
    rpn.push_value(number(&[1, 2]));
    assert_eq!(rpn.numbers(), &vec![number(&[1, 2])]);
    assert_eq!(rpn.eval(), number(&[1, 2]));
    assert!(rpn.numbers().is_empty());
}

#[test]
fn binary_takes_two_and_puts_one() {
    let mut rpn = Rpn::new();
    rpn.push_value(number(&[1]));
    rpn.push_value(number(&[2]));
    rpn.push_value(number(&[3]));
    rpn.binary(|a, b| {
        assert_eq!(a, Number::from_limbs(vec![2]));
        assert_eq!(b, Number::from_limbs(vec![3]));
        Number::from_limbs(vec![23])
    });
    assert_eq!(rpn.numbers(), &vec![number(&[1]), number(&[23])]);
    rpn.binary(|a, _| a);
    assert_eq!(rpn.eval(), number(&[1]));
}

#[test]
fn add_sums_the_two_on_top() {
    let mut rpn = Rpn::new();
    rpn.push_value(number(&[7]));
    rpn.push_value(number(&[999999999]));
    rpn.push_value(number(&[1, 1]));
    rpn.add();
    assert_eq!(rpn.numbers(), &vec![number(&[7]), number(&[1000000000, 2])]);
    rpn.add();
    assert_eq!(rpn.eval(), number(&[1000000007, 3]));
}

#[test]
fn text_in_reverse_polish_notation() {
    assert_eq!(calculated("1 2 +"), (vec![vec![3]], true));
    assert_eq!(calculated("1 2 3 + +"), (vec![vec![6]], true));
    assert_eq!(calculated("1 2 + 3 +"), (vec![vec![6]], true));
    assert_eq!(calculated("  12\t34\n"), (vec![vec![12], vec![34]], true));
    assert_eq!(calculated(""), (vec![], true));
    assert_eq!(calculated("999999999 1 +"), (vec![vec![1000000000, 1]], true));
    assert_eq!(
        calculated("123456789987654321 1 +"),
        (vec![vec![987654322, 123456789]], true)
    );
    assert_eq!(calculated("1 2+"), (vec![vec![1]], false));
    assert_eq!(calculated("1 +2"), (vec![vec![1]], false));
    assert_eq!(calculated("1 2 +3"), (vec![vec![3], vec![3]], true));
}

#[test]
fn what_the_calculator_cannot_do_ends_the_work() {
    assert_eq!(calculated("+"), (vec![], false));
    assert_eq!(calculated("1 +"), (vec![vec![1]], false));
    assert_eq!(calculated("1 2 - 3"), (vec![vec![1], vec![2]], false));
    assert_eq!(calculated("1 2 *"), (vec![vec![1], vec![2]], false));
    assert_eq!(calculated("1 2 /"), (vec![vec![1], vec![2]], false));
    assert_eq!(calculated("1 2 ^"), (vec![vec![1], vec![2]], false));
    assert_eq!(calculated("1 x 2"), (vec![vec![1]], false));
    assert_eq!(calculated("-5"), (vec![], false));
    assert_eq!(calculated("5-"), (vec![], false));
}

#[test]
fn sums_out_of_range_end_the_work() {
    let mut rpn = Rpn::new();
    rpn.push_value(number(&[i32::MAX]));
    rpn.push_value(number(&[1]));
    assert!(!rpn.parse(" +"));
    assert_eq!(rpn.numbers(), &vec![number(&[i32::MAX]), number(&[1])]);
}

#[test]
fn blanks_beyond_ascii_part_numbers() {
    assert_eq!(calculated("1\u{00a0}2\u{2003}+"), (vec![vec![3]], true));
}
