use llama_adapter::binary64::Binary64;

fn b(x: f64) -> Binary64 {
    Binary64::from_bits(x.to_bits())
}

fn same(got: Binary64, want: f64) -> bool {
    if want.is_nan() {
        f64::from_bits(got.to_bits()).is_nan()
    } else {
        got.to_bits() == want.to_bits()
    }
}

fn check(x: f64, y: f64) {
    assert!(same(b(x).plus(b(y)), x + y), "{:e} + {:e}", x, y);
    assert!(same(b(x).minus(b(y)), x - y), "{:e} - {:e}", x, y);
    assert!(same(b(x).times(b(y)), x * y), "{:e} * {:e}", x, y);
    assert!(same(b(x).over(b(y)), x / y), "{:e} / {:e}", x, y);
    assert_eq!(b(x).reaches(b(y)), x >= y, "{:e} >= {:e}", x, y);
    assert_eq!(b(x).exceeds_zero(), x > 0.0, "{:e} > 0", x);
    assert_eq!(b(x).to_count(), x.max(0.0) as u64, "{:e} as count", x);
    assert!(same(b(x).to_ratio(), x.clamp(0.0, 1.0)), "{:e} clamped", x);
}

/// Values at the edges of the format.
fn edges() -> Vec<f64> {
    let mut values = vec![
        0.0,
        1.0,
        2.0,
        3.0,
        0.1,
        0.42,
        0.5,
        100.0,
        1000.0,
        1.5,
        1e-300,
        1e300,
        1e308,
        4.0e18,
        1.8446744073709550e19,
        1.8446744073709552e19,
        9007199254740992.0,
        9007199254740993.0,
        f64::MAX,
        f64::MIN_POSITIVE,
        f64::from_bits(1),
        f64::from_bits(2),
        f64::from_bits(3),
        f64::from_bits(0xf_ffff_ffff_ffff),
        f64::from_bits(0x10_0000_0000_0001),
        f64::from_bits(0x1f_ffff_ffff_ffff),
        f64::from_bits(0x20_0000_0000_0000),
        1.0 + f64::EPSILON,
        1.0 - f64::EPSILON / 2.0,
        f64::INFINITY,
        f64::NAN,
    ];
    for i in 0..values.len() {
        values.push(-values[i]);
    }
    values
}

#[test]
fn arithmetic_agrees_with_the_machine_at_the_edges() {
    let values = edges();
    for &x in &values {
        for &y in &values {
            check(x, y);
        }
    }
}

#[test]
fn arithmetic_agrees_with_the_machine_on_many_patterns() {
    let mut state = 0x9e37_79b9_7f4a_7c15u64;
    let mut next = || {
        state ^= state << 13;
        state ^= state >> 7;
        state ^= state << 17;
        state
    };
    for _ in 0..60_000 {
        let p = next();
        let q = next();
        check(f64::from_bits(p), f64::from_bits(q));
        // A pair of close exponents, where rounding is at work.
        let near = (q & 0x800f_ffff_ffff_ffff) | (((p >> 52) & 0x7ff).wrapping_add(q >> 58) & 0x7ff) << 52;
        check(f64::from_bits(p), f64::from_bits(near));
        // Small counts, as an engine reports them.
        check((p % 100_000) as f64 / 8.0, (q % 1_000) as f64);
        assert!(same(Binary64::from_count(p), p as f64), "{} as double", p);
        assert!(same(Binary64::from_count(p % 1000), (p % 1000) as f64));
    }
}

#[test]
fn counts_come_back_as_they_were() {
    for n in [0u64, 1, 2, 987, 12345, (1 << 52) - 1, 1 << 52, (1 << 53) - 1] {
        assert_eq!(Binary64::from_count(n).to_count(), n);
    }
    // One more bit is too many.
    assert_eq!(Binary64::from_count((1 << 53) + 1).to_count(), 1 << 53);
}
