use omabeam::desktop::hypr_number;
use omabeam::single::Single;

fn single(value: f32) -> Single {
    Single {
        bits: value.to_bits(),
    }
}

/// Bits that reach every size of number, and the ends of each.
fn samples() -> Vec<f32> {
    let mut list = vec![
        0.0,
        -0.0,
        1.0,
        -1.0,
        0.5,
        1.5,
        2.5,
        0.1,
        0.02,
        0.98,
        0.002,
        1.25,
        1.6,
        1.3333334,
        59.94,
        60.0,
        1536.0,
        1920.0,
        16777215.0,
        16777216.0,
        16777217.0,
        f32::MAX,
        f32::MIN,
        f32::MIN_POSITIVE,
        f32::from_bits(1),
        f32::from_bits(0x007f_ffff),
        f32::from_bits(0x00ff_ffff),
        f32::from_bits(0x0100_0000),
        f32::from_bits(0x0100_0001),
        f32::INFINITY,
        f32::NEG_INFINITY,
        f32::NAN,
    ];
    let mut bits: u32 = 0x1234_5678;
    for _ in 0..200 {
        bits = bits.wrapping_mul(1_664_525).wrapping_add(1_013_904_223);
        list.push(f32::from_bits(bits));
        // Of the sizes that displays and their parts have.
        list.push(f32::from_bits(0x3800_0000 + bits % 0x1000_0000));
    }
    list
}

fn same(ours: Single, theirs: f32) -> bool {
    (theirs.is_nan() && f32::from_bits(ours.bits).is_nan()) || ours.bits == theirs.to_bits()
}

#[test]
fn sums_and_differences_are_those_of_the_machine() {
    for a in samples() {
        for b in samples() {
            assert!(same(single(a).sum(single(b)), a + b), "{a:e} + {b:e}");
            assert!(same(single(a).difference(single(b)), a - b), "{a:e} - {b:e}");
        }
    }
}

#[test]
fn products_and_quotients_are_those_of_the_machine() {
    for a in samples() {
        for b in samples() {
            assert!(same(single(a).product(single(b)), a * b), "{a:e} * {b:e}");
            assert!(same(single(a).quotient(single(b)), a / b), "{a:e} / {b:e}");
        }
    }
}

#[test]
fn numbers_are_ordered_as_by_the_machine() {
    for a in samples() {
        for b in samples() {
            let (x, y) = (single(a), single(b));
            assert_eq!(x.less(y), a < b, "{a:e} < {b:e}");
            assert_eq!(x.at_most(y), a <= b, "{a:e} <= {b:e}");
            // Of two zeros either is the larger.
            if a != 0.0 || b != 0.0 {
                assert!(same(x.max(y), a.max(b)), "the larger of {a:e} and {b:e}");
                assert!(same(x.min(y), a.min(b)), "the smaller of {a:e} and {b:e}");
            }
        }
        let within = single(a).clamp(single(0.02), single(1.0));
        assert!(same(within, a.clamp(0.02, 1.0)), "{a:e} in its bounds");
        assert!(same(single(a).abs(), a.abs()));
        assert!(same(single(a).negate(), -a));
    }
}

#[test]
fn numbers_are_rounded_as_by_the_machine() {
    for a in samples() {
        if !a.is_finite() {
            continue;
        }
        assert!(same(single(a).round_whole(), a.round()), "{a:e}");
        if a.abs() < 1e12 {
            assert_eq!(single(a).round(), a.abs().round() as u64, "{a:e}");
            assert_eq!(
                single(a).decimal_digits(1).to_string(),
                format!("{:.0}", a.abs()),
                "{a:e}"
            );
        }
    }
    for n in [0, 1, -1, 60, 1921, 16_777_217, -16_777_219, i64::MAX, i64::MIN] {
        assert!(same(Single::of(n), n as f32), "{n}");
    }
}

/// What the compositor is told, written with the machine's numbers.
fn told(value: f32) -> String {
    let rounded = value.round();
    if (value - rounded).abs() < 0.0005 {
        format!("{}", rounded as i32)
    } else {
        format!("{value:.4}")
            .trim_end_matches('0')
            .trim_end_matches('.')
            .to_string()
    }
}

#[test]
fn numbers_are_written_without_needless_digits() {
    assert_eq!(hypr_number(single(1.0)), "1");
    assert_eq!(hypr_number(single(1.25)), "1.25");
    assert_eq!(hypr_number(single(1.666667)), "1.6667");
    assert_eq!(hypr_number(single(1.0004)), "1");
    assert_eq!(hypr_number(single(59.94)), "59.94");
    assert_eq!(hypr_number(single(0.0005)), "0.0005");
    assert_eq!(hypr_number(single(5000.25)), "5000.25");
    assert_eq!(hypr_number(single(-1.5)), "-1.5");
    assert_eq!(hypr_number(single(1e20)), "2147483647");
    assert_eq!(hypr_number(single(f32::NAN)), "NaN");
    assert_eq!(hypr_number(single(f32::INFINITY)), "inf");
    for value in samples() {
        assert_eq!(hypr_number(single(value)), told(value), "{value:e}");
    }
}
