use headlint::binary64::{bit_length, hundredths_of, pow2_u128, quotient, to_double};

/// The exact value of a positive finite `f64` as `(m, e)` with value `m * 2^e`.
fn parts(v: f64) -> (u128, i32) {
    let bits = v.to_bits();
    let exp = ((bits >> 52) & 0x7ff) as i32;
    let frac = (bits & ((1u64 << 52) - 1)) as u128;
    if exp == 0 { (frac, -1074) } else { (frac | (1u128 << 52), exp - 1075) }
}

/// Whether `m1 * 2^e1 == m2 * 2^e2`.
fn same_value(a: (u128, i32), b: (u128, i32)) -> bool {
    let (mut a, mut b) = (a, b);
    while a.0 > 0 && a.0 % 2 == 0 {
        a = (a.0 / 2, a.1 + 1);
    }
    while b.0 > 0 && b.0 % 2 == 0 {
        b = (b.0 / 2, b.1 + 1);
    }
    a == b
}

#[test]
fn small_helpers() {
    assert_eq!(pow2_u128(0), 1);
    assert_eq!(pow2_u128(127), 1u128 << 127);
    assert_eq!(bit_length(0), 0);
    assert_eq!(bit_length(1), 1);
    assert_eq!(bit_length(255), 8);
    assert_eq!(bit_length(u128::MAX), 128);
    assert_eq!(hundredths_of(1 << 52, -52), 100);
    assert_eq!(hundredths_of(3, 0), 300);
    // 1/8 in hundredths is 12.5: the tie goes to the even 12
    assert_eq!(hundredths_of(1, -3), 12);
    assert_eq!(hundredths_of(3, -3), 38);
}

#[test]
fn doubles_match_f64() {
    for n in [1u64, 3, (1 << 53) - 1, 1 << 53, (1 << 53) + 1, (1 << 53) + 3, u64::MAX, u64::MAX - 2048, 2010000000000000001] {
        assert_eq!(to_double(n as u128), (n as f64) as u128, "{n}");
    }
    let mut seed: u64 = 0x2545_f491_4f6c_dd1d;
    let mut next = || {
        seed ^= seed << 13;
        seed ^= seed >> 7;
        seed ^= seed << 17;
        let bits = (seed >> 58) as u32 + 1;
        if bits >= 64 { seed } else { (seed & ((1u64 << bits) - 1)).max(1) }
    };
    for _ in 0..20000 {
        let (w, h) = (next(), next());
        let (x, y) = (to_double(w as u128), to_double(h as u128));
        assert_eq!(x, (w as f64) as u128, "{w}");
        let (m, e) = quotient(x, y);
        assert!(same_value((m, e), parts(w as f64 / h as f64)), "{w}/{h}: {m} * 2^{e}");
    }
}
