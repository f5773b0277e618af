//! The numbers that observations give, and the names of units.

use metrique_otel::float::Float;
use metrique_otel::metrics::unit_to_otel;
use metrique_otel::observation::{Observation, Sample};
use metrique_writer_core::unit::{NegativeScale, PositiveScale};
use metrique_writer_core::Unit;

fn float(v: f64) -> Float {
    Float { bits: v.to_bits() }
}

fn awkward_numbers() -> Vec<f64> {
    let mut numbers = vec![
        0.0,
        0.5,
        0.999_999_999_999_999_9,
        1.0,
        1.5,
        2.0,
        41.999,
        42.0,
        1e-300,
        5e-324,
        2.225_073_858_507_201e-308,
        4_503_599_627_370_495.5,
        4_503_599_627_370_496.0,
        9_007_199_254_740_993.0,
        9_223_372_036_854_774_784.0,
        9_223_372_036_854_775_808.0,
        9_223_372_036_854_777_856.0,
        18_446_744_073_709_549_568.0,
        18_446_744_073_709_551_616.0,
        1e19,
        1e30,
        f64::MAX,
        f64::MIN_POSITIVE,
        f64::EPSILON,
        f64::INFINITY,
        f64::NAN,
    ];
    let mut bits: u64 = 0x3fd5_5555_5555_5555;
    while bits < 0x4500_0000_0000_0000 {
        numbers.push(f64::from_bits(bits));
        bits += 0x0008_1234_5678_9abc;
    }
    let negated: Vec<f64> = numbers.iter().map(|v| -v).collect();
    numbers.extend(negated);
    numbers
}

#[test]
fn floats_become_u64_as_a_cast_makes_them() {
    for v in awkward_numbers() {
        assert_eq!(float(v).to_u64(), v.max(0.0) as u64, "{v}");
    }
}

#[test]
fn floats_become_i64_as_a_cast_makes_them() {
    for v in awkward_numbers() {
        assert_eq!(float(v).to_i64(), v as i64, "{v}");
    }
}

#[test]
fn counters_clamp_at_zero() {
    assert_eq!(Observation::Unsigned(7).count(), Some(7));
    assert_eq!(Observation::Floating(float(3.9)).count(), Some(3));
    assert_eq!(Observation::Floating(float(-3.9)).count(), Some(0));
    assert_eq!(Observation::Floating(float(-0.0)).count(), Some(0));
    assert_eq!(Observation::Floating(float(f64::NAN)).count(), Some(0));
    assert_eq!(Observation::Floating(float(f64::NEG_INFINITY)).count(), Some(0));
    assert_eq!(Observation::Floating(float(f64::INFINITY)).count(), Some(u64::MAX));
    let sum = Observation::Repeated { total: float(12.5), occurrences: 4 };
    assert_eq!(sum.count(), Some(12));
    let negative = Observation::Repeated { total: float(-12.5), occurrences: 4 };
    assert_eq!(negative.count(), Some(0));
    let never = Observation::Repeated { total: float(12.5), occurrences: 0 };
    assert_eq!(never.count(), Some(12));
    assert_eq!(Observation::Unknown.count(), None);
}

#[test]
fn up_down_counters_go_both_ways() {
    assert_eq!(Observation::Unsigned(7).delta(), Some(7));
    assert_eq!(Observation::Unsigned(i64::MAX as u64).delta(), Some(i64::MAX));
    assert_eq!(Observation::Unsigned(i64::MAX as u64 + 1).delta(), Some(i64::MIN));
    assert_eq!(Observation::Unsigned(u64::MAX).delta(), Some(-1));
    assert_eq!(Observation::Floating(float(-3.9)).delta(), Some(-3));
    assert_eq!(Observation::Floating(float(1e300)).delta(), Some(i64::MAX));
    assert_eq!(Observation::Floating(float(-1e300)).delta(), Some(i64::MIN));
    assert_eq!(Observation::Floating(float(f64::NAN)).delta(), Some(0));
    let sum = Observation::Repeated { total: float(-12.5), occurrences: 0 };
    assert_eq!(sum.delta(), Some(-12));
    assert_eq!(Observation::Unknown.delta(), None);
}

#[test]
fn histograms_and_gauges_take_the_mean_of_a_sum() {
    assert_eq!(Observation::Unsigned(7).sample(), Some(Sample::Whole(7)));
    assert_eq!(
        Observation::Floating(float(-1.5)).sample(),
        Some(Sample::Exact(float(-1.5)))
    );
    assert_eq!(
        Observation::Repeated { total: float(10.0), occurrences: 4 }.sample(),
        Some(Sample::Mean { total: float(10.0), occurrences: 4 })
    );
    assert_eq!(
        Observation::Repeated { total: float(10.0), occurrences: 0 }.sample(),
        None
    );
    assert_eq!(Observation::Unknown.sample(), None);
}

#[test]
fn units_have_their_names_on_the_wire() {
    assert_eq!(unit_to_otel(Unit::None), "1");
    assert_eq!(unit_to_otel(Unit::Count), "1");
    assert_eq!(unit_to_otel(Unit::Percent), "%");
    assert_eq!(unit_to_otel(Unit::Second(NegativeScale::Micro)), "us");
    assert_eq!(unit_to_otel(Unit::Second(NegativeScale::Milli)), "ms");
    assert_eq!(unit_to_otel(Unit::Second(NegativeScale::One)), "s");
    assert_eq!(unit_to_otel(Unit::Custom("furlong")), "furlong");
    let scales = [
        (PositiveScale::One, ""),
        (PositiveScale::Kilo, "K"),
        (PositiveScale::Mega, "M"),
        (PositiveScale::Giga, "G"),
        (PositiveScale::Tera, "T"),
    ];
    for (scale, prefix) in scales {
        assert_eq!(unit_to_otel(Unit::Byte(scale)), format!("{prefix}By"));
        assert_eq!(unit_to_otel(Unit::BytePerSecond(scale)), format!("{prefix}By/s"));
        assert_eq!(unit_to_otel(Unit::Bit(scale)), format!("{prefix}bit"));
        assert_eq!(unit_to_otel(Unit::BitPerSecond(scale)), format!("{prefix}bit/s"));
    }
}
