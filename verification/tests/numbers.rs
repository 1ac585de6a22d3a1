use let_smi_core::binary64::Binary64;
use let_smi_core::json::{normalize_js_numbers, Json, JsonNumber};

fn number(value: f64) -> Binary64 {
    Binary64::from_bits(value.to_bits())
}

/// A sequence of numbers that looks like chance.
struct Mix(u64);

impl Mix {
    fn next(&mut self) -> u64 {
        self.0 = self.0.wrapping_add(0x9e37_79b9_7f4a_7c15);
        let mut z = self.0;
        z = (z ^ (z >> 30)).wrapping_mul(0xbf58_476d_1ce4_e5b9);
        z = (z ^ (z >> 27)).wrapping_mul(0x94d0_49bb_1331_11eb);
        z ^ (z >> 31)
    }
}

fn values() -> Vec<f64> {
    let mut list = vec![
        0.0,
        1.0,
        0.1,
        100.0,
        f64::MIN_POSITIVE,
        f64::from_bits(1),
        f64::from_bits(0x000f_ffff_ffff_ffff),
        f64::MAX,
        4_503_599_627_370_497.5,
        9_007_199_254_740_993.0,
    ];
    let mut mix = Mix(7);
    while list.len() < 300 {
        let value = f64::from_bits(mix.next() >> 1);
        if value.is_finite() {
            list.push(value);
        }
        list.push((mix.next() % 10_000_000) as f64 / 1_000.0);
    }
    list
}

#[test]
fn sums_are_those_of_doubles() {
    let list = values();
    for a in &list {
        for b in &list {
            let sum = number(*a).sum_with(number(*b));
            assert_eq!(sum.bits, (a + b).to_bits(), "{a:e} + {b:e}");
        }
    }
}

#[test]
fn products_are_those_of_doubles() {
    let list = values();
    for a in &list {
        for b in &list {
            let product = number(*a).product_with(number(*b));
            assert_eq!(product.bits, (a * b).to_bits(), "{a:e} * {b:e}");
        }
    }
}

#[test]
fn quotients_are_those_of_doubles() {
    let list = values();
    for a in &list {
        for b in list.iter().filter(|b| **b > 0.0) {
            let quotient = number(*a).quotient_by(number(*b));
            assert_eq!(quotient.bits, (a / b).to_bits(), "{a:e} / {b:e}");
        }
    }
}

#[test]
fn signs_stay_with_the_dividend() {
    assert_eq!(number(-5.0).divide(number(2.0)), number(-2.5));
    assert_eq!(number(-0.0).divide(number(2.0)), number(-0.0));
    assert_eq!(number(-5.0).multiply(number(2.0)), number(-10.0));
    assert_eq!(number(5.0).divide(number(3.0)), number(5.0 / 3.0));
}

#[test]
fn infinity_swallows_everything() {
    let endless = number(f64::INFINITY);
    assert_eq!(endless.sum_with(number(1.0)), endless);
    assert_eq!(number(1.0).sum_with(endless), endless);
    assert_eq!(endless.product_with(number(2.0)), endless);
    assert_eq!(endless.quotient_by(number(2.0)), endless);
    assert_eq!(number(2.0).quotient_by(endless), number(0.0));
    assert_eq!(number(f64::MAX).sum_with(number(f64::MAX)), endless);
}

#[test]
fn integers_and_ratios_are_rounded_to_the_nearest() {
    let mut mix = Mix(3);
    for _ in 0..2_000 {
        let n = mix.next() >> (mix.next() % 64);
        assert_eq!(Binary64::from_u64(n).bits, (n as f64).to_bits(), "{n}");
        let d = (mix.next() >> 40) + 1;
        let small = n >> 11;
        assert_eq!(
            Binary64::from_ratio(u128::from(small), d).bits,
            (small as f64 / d as f64).to_bits(),
            "{small} / {d}"
        );
        let wide = u128::from(n) << (mix.next() % 50);
        assert_eq!(Binary64::from_ratio(wide, 1).bits, (wide as f64).to_bits());
    }
}

#[test]
fn ranges_follow_the_order_of_doubles() {
    assert!(number(-0.0).is_percent());
    assert!(number(100.0).is_percent());
    assert!(!number(100.000_000_1).is_percent());
    assert!(!number(f64::NAN).is_percent());
    assert!(number(-99.0).is_plausible_celsius());
    assert!(!number(301.0).is_plausible_celsius());
    assert!(!number(f64::INFINITY).is_finite());
    assert!(number(f64::NAN).is_nan());
    assert!(number(-2.0).at_most(number(1.0)));
    assert!(!number(f64::NAN).at_most(number(1.0)));
}

fn unsigned(value: u64) -> Json {
    Json::Number(JsonNumber::Unsigned(value))
}

#[test]
fn converts_large_safe_integers_to_javascript_numbers() {
    let value = normalize_js_numbers(&Json::Object(vec![
        ("bytes".to_string(), unsigned(24_000_000_000)),
        ("sampledAt".to_string(), unsigned(1_700_000_000_000)),
    ]));
    match value {
        Json::Object(fields) => {
            assert!(matches!(
                fields[1].1,
                Json::Number(JsonNumber::Float(value)) if value == number(1_700_000_000_000.0)
            ));
            assert!(matches!(
                fields[0].1,
                Json::Number(JsonNumber::Float(value)) if value == number(24_000_000_000.0)
            ));
        }
        other => panic!("expected an object, got {other:?}"),
    }
}

#[test]
fn small_and_unsafe_integers_stay_integers() {
    for kept in [u64::from(u32::MAX), 9_007_199_254_740_992] {
        let value = normalize_js_numbers(&Json::Array(vec![unsigned(kept)]));
        match value {
            Json::Array(items) => assert!(matches!(
                items[0],
                Json::Number(JsonNumber::Unsigned(value)) if value == kept
            )),
            other => panic!("expected an array, got {other:?}"),
        }
    }
    assert!(matches!(
        normalize_js_numbers(&Json::Number(JsonNumber::Negative(-5_000_000_000))),
        Json::Number(JsonNumber::Float(value)) if value == number(-5.0e9)
    ));
    assert!(matches!(
        normalize_js_numbers(&Json::Number(JsonNumber::Negative(5_000_000_000))),
        Json::Number(JsonNumber::Float(value)) if value == number(5.0e9)
    ));
}
