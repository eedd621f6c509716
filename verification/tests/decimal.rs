use matrix_quant::decimal::{
    absolute, ceiling, difference, floor, larger, lit, normal, opposite, or_else, product, quotient,
    round, shown, smaller, sum, zero, Dec,
};

fn d(s: &str) -> Dec {
    Dec::read(s).unwrap()
}

fn t(x: Option<Dec>) -> String {
    x.unwrap().text()
}

#[test]
fn decimals_are_read_and_written() {
    assert_eq!(d("1.50").text(), "1.50");
    assert_eq!(d("-0.001").text(), "-0.001");
    assert_eq!(d("+7").text(), "7");
    assert_eq!(d("0.00").text(), "0.00");
    assert_eq!(d("1e3").text(), "1000");
    assert!(Dec::read("abc").is_none());
    assert!(Dec::read("").is_none());
    assert_eq!(opposite(zero()).text(), "-0");
}

#[test]
fn arithmetic_is_exact_where_it_can_be() {
    assert_eq!(t(sum(Some(d("0.1")), Some(d("0.2")))), "0.3");
    assert_eq!(t(difference(Some(d("1")), Some(d("0.35")))), "0.65");
    assert_eq!(t(product(Some(d("1.5")), Some(d("-2.5")))), "-3.75");
    assert_eq!(t(quotient(Some(d("1")), Some(d("8")))), "0.125");
    assert_eq!(t(quotient(Some(d("2")), Some(d("3")))), "0.6666666666666666666666666667");
}

#[test]
fn arithmetic_without_a_result_gives_none() {
    assert!(quotient(Some(d("1")), Some(zero())).is_none());
    assert!(sum(None, Some(d("1"))).is_none());
    let largest = d("79228162514264337593543950335");
    assert!(sum(Some(largest), Some(d("1"))).is_none());
    assert!(product(Some(largest), Some(d("2"))).is_none());
    assert!(difference(Some(opposite(largest)), Some(d("1"))).is_none());
    assert!(quotient(Some(largest), Some(d("0.1"))).is_none());
}

#[test]
fn order_goes_by_value() {
    assert!(d("1.0").equals(d("1.00")));
    assert!(d("-1").below(d("0.5")));
    assert!(d("2").above(d("1.99")));
    assert!(!d("2").above(d("2.0")));
    assert!(opposite(zero()).equals(zero()));
    assert_eq!(larger(d("1.0"), d("1.00")).text(), "1.0");
    assert_eq!(larger(d("1"), d("3")).text(), "3");
    assert_eq!(smaller(d("1"), d("3")).text(), "1");
    assert!(d("0.0").is_zero() && !d("0.0").is_positive() && !d("0.0").is_negative());
    assert!(d("-3").is_negative() && d("-3").is_minus());
}

#[test]
fn whole_numbers_below_and_above() {
    assert_eq!(floor(d("1.9")).text(), "1");
    assert_eq!(floor(d("-1.1")).text(), "-2");
    assert_eq!(ceiling(d("1.1")).text(), "2");
    assert_eq!(ceiling(d("-1.9")).text(), "-1");
    assert_eq!(floor(d("5")).text(), "5");
    assert_eq!(ceiling(d("-0.5")).text(), "-0");
}

#[test]
fn rounding_goes_to_the_even_digit() {
    assert_eq!(round(d("2.345"), 2).text(), "2.34");
    assert_eq!(round(d("2.355"), 2).text(), "2.36");
    assert_eq!(round(d("2.3551"), 2).text(), "2.36");
    assert_eq!(round(d("-2.345"), 2).text(), "-2.34");
    assert_eq!(round(d("-0.001"), 2).text(), "0.00");
    assert_eq!(round(d("1.5"), 6).text(), "1.5");
}

#[test]
fn normal_form_has_no_zeros_at_the_end() {
    assert_eq!(normal(d("1.500")).text(), "1.5");
    assert_eq!(normal(d("100")).text(), "100");
    assert_eq!(normal(d("-0.00")).text(), "0");
    assert_eq!(normal(d("10.0")).text(), "10");
    assert_eq!(shown(d("1.2345"), 2).text(), "1.23");
    assert_eq!(shown(d("1.9999"), 2).text(), "2");
}

#[test]
fn literals_and_parts() {
    assert_eq!(lit(25, 1).text(), "2.5");
    assert_eq!(lit(5, 4).text(), "0.0005");
    let (negative, lo, mid, hi, scale) = d("-12.34").parts();
    assert_eq!((negative, lo, mid, hi, scale), (true, 1234, 0, 0, 2));
    assert_eq!(Dec::from_parts(true, 1234, 0, 0, 2).unwrap().text(), "-12.34");
    assert!(Dec::from_parts(false, 1, 0, 0, 29).is_none());
    assert_eq!(Dec::from_parts(false, 0, 1, 0, 0).unwrap().text(), "4294967296");
    assert_eq!(absolute(d("-3.0")).text(), "3.0");
    assert_eq!(or_else(None, d("7")).text(), "7");
    assert_eq!(or_else(Some(d("1")), d("7")).text(), "1");
}
