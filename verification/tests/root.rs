use mandelbrot::root::sqrt;

#[test]
fn sqrt_of_squares() {
    for r in [0u64, 1, 2, 3, 65_536, 4_294_967_296, u64::MAX] {
        assert_eq!(sqrt((r as u128) * (r as u128)), r);
    }
}

#[test]
fn sqrt_rounds_down() {
    assert_eq!(sqrt(2), 1);
    assert_eq!(sqrt(3), 1);
    assert_eq!(sqrt(15), 3);
    assert_eq!(sqrt(17), 4);
    assert_eq!(sqrt(99), 9);
    assert_eq!(sqrt(u128::MAX), u64::MAX);
    assert_eq!(sqrt((1u128 << 64) - 1), (1u64 << 32) - 1);
}

#[test]
fn sqrt_brackets_its_argument() {
    for n in [5u128, 1_000_003, 20_615_843_020_800, (1u128 << 100) + 12345] {
        let r = sqrt(n) as u128;
        assert!(r * r <= n);
        assert!((r + 1) * (r + 1) > n);
    }
    assert_eq!(sqrt(20_615_843_020_800), 4_540_467);
}
