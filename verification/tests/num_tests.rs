use raytrace::num::{isqrt, div_trunc, SCALE};

#[test]
fn isqrt_small_values() {
    assert_eq!(isqrt(0), 0);
    assert_eq!(isqrt(1), 1);
    assert_eq!(isqrt(2), 1);
    assert_eq!(isqrt(3), 1);
    assert_eq!(isqrt(4), 2);
    assert_eq!(isqrt(15), 3);
    assert_eq!(isqrt(16), 4);
    assert_eq!(isqrt(24), 4);
    assert_eq!(isqrt(25), 5);
}

#[test]
fn isqrt_large_values() {
    assert_eq!(isqrt(100_000_000_000_000_000_000), 10_000_000_000);
    assert_eq!(isqrt(u64::MAX as u128), 4294967295);
    let s = SCALE as u128;
    assert_eq!(isqrt(25 * s * s), 5 * s);
    assert_eq!(isqrt(25 * s * s - 1), 5 * s - 1);
}

#[test]
fn div_trunc_rounds_toward_zero() {
    assert_eq!(div_trunc(7, 2), 3);
    assert_eq!(div_trunc(-7, 2), -3);
    assert_eq!(div_trunc(6, 2), 3);
    assert_eq!(div_trunc(-6, 2), -3);
    assert_eq!(div_trunc(0, 5), 0);
    assert_eq!(div_trunc(-1, 65536), 0);
}
