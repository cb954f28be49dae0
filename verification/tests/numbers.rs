use tiny_rng::Rand;
use xpress_calc::number::Number;
use xpress_calc::number::Numeral;

fn samples() -> Vec<f64> {
    vec![
        0.0,
        -0.0,
        1.0,
        -1.0,
        0.5,
        -0.5,
        2.0,
        1e300,
        -1e300,
        5e-324,
        -5e-324,
        2.2250738585072014e-308,
        f64::MAX,
        f64::MIN,
        f64::INFINITY,
        f64::NEG_INFINITY,
        f64::NAN,
        -f64::NAN,
        f64::from_bits(0x7FF0_0000_0000_0001),
        f64::from_bits(0xFFFF_FFFF_FFFF_FFFF),
        3.141592653589793,
        1024.0,
        -1024.0,
    ]
}

#[test]
fn comparisons_are_those_of_doubles() {
    for a in samples() {
        let x = Number::from_bits(a.to_bits());
        assert_eq!(a.is_nan(), x.is_nan(), "is_nan {a}");
        assert_eq!(a != 0.0, x.is_truthy(), "is_truthy {a}");
        assert_eq!(a.to_bits(), x.to_bits());
        for b in samples() {
            let y = Number::from_bits(b.to_bits());
            assert_eq!(a == b, x.equals(y), "{a} == {b}");
            assert_eq!(a < b, x.less_than(y), "{a} < {b}");
            assert_eq!(a <= b, x.at_most(y), "{a} <= {b}");
        }
    }
}

#[test]
fn truth_is_one_and_falsehood_zero() {
    assert_eq!(1.0f64.to_bits(), Number::from_bool(true).to_bits());
    assert_eq!(0.0f64.to_bits(), Number::from_bool(false).to_bits());
}

#[test]
fn unit_fraction_is_the_sample_over_two_to_the_32() {
    let mut n: u32 = 1;
    let mut cases = vec![0u32, 1, 2, 3, 5, 0x7FFF_FFFF, 0x8000_0000, 0x8000_0001, u32::MAX];
    for _ in 0..2000 {
        n = n.wrapping_mul(1664525).wrapping_add(1013904223);
        cases.push(n);
        cases.push(n >> (n % 32));
    }
    for sample in cases {
        let expected = sample as f64 * 2.3283064365386963E-10;
        assert_eq!(
            expected.to_bits(),
            Number::unit_fraction(sample).to_bits(),
            "sample {sample}"
        );
        assert!(expected >= 0.0 && expected < 1.0);
    }
}

#[test]
fn unit_fraction_of_a_sample_is_what_the_generator_gives() {
    let mut floats = tiny_rng::Rng::from_seed(0);
    let mut samples = tiny_rng::Rng::from_seed(0);
    for _ in 0..100 {
        let expected = floats.rand_f64();
        let sample = samples.rand_u32();
        assert_eq!(expected.to_bits(), Number::unit_fraction(sample).to_bits());
    }
}

#[test]
fn constants_are_the_nearest_doubles() {
    assert_eq!(
        std::f64::consts::PI,
        Numeral::pi().as_str().parse::<f64>().unwrap()
    );
    assert_eq!(
        std::f64::consts::E,
        Numeral::e().as_str().parse::<f64>().unwrap()
    );
    assert_eq!(0.5, Numeral::half().as_str().parse::<f64>().unwrap());
    assert!(Numeral::half().same(&Numeral::parse("0.5").unwrap()));
    assert!(!Numeral::half().same(&Numeral::parse(".5").unwrap()));
    assert_eq!(Numeral::half(), Numeral::half().clone());
}

#[test]
fn every_numeral_is_a_double_for_the_standard_library() {
    for text in ["0", "-0", "007", "1.", ".5", "-.5", "-5.", "123456789012345678901234567890", "0.1"] {
        let numeral = Numeral::parse(text).unwrap();
        assert!(numeral.as_str().parse::<f64>().is_ok(), "{text}");
    }
    for text in ["", "-", ".", "-.", "+1", "1e5", "inf", "NaN", "1 ", " 1", "--1", "1..", "\u{2212}1"] {
        assert!(Numeral::parse(text).is_err(), "{text}");
    }
}
