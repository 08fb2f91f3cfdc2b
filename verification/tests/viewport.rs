use mandelbrot::complex::Complex;
use mandelbrot::fixed::{Fixed, SCALE};
use mandelbrot::viewport::Viewport;

fn fx(n: i16) -> Fixed {
    Fixed::from_int(n)
}

fn classic() -> Viewport {
    Viewport::new(fx(-2), fx(1), fx(-1), fx(1)).unwrap()
}

#[test]
fn viewport_keeps_its_bounds() {
    let v = classic();
    assert_eq!(v.x_min(), fx(-2));
    assert_eq!(v.x_max(), fx(1));
    assert_eq!(v.y_min(), fx(-1));
    assert_eq!(v.y_max(), fx(1));
}

#[test]
fn viewport_needs_an_interior() {
    assert!(Viewport::new(fx(1), fx(1), fx(-1), fx(1)).is_none());
    assert!(Viewport::new(fx(2), fx(1), fx(-1), fx(1)).is_none());
    assert!(Viewport::new(fx(-2), fx(1), fx(1), fx(1)).is_none());
    assert!(Viewport::new(fx(-2), fx(1), fx(1), fx(-1)).is_none());
    assert!(Viewport::new(Fixed { bits: 0 }, Fixed { bits: 1 }, Fixed { bits: 0 }, Fixed { bits: 1 })
        .is_some());
}

#[test]
fn first_pixel_maps_to_the_min_corner() {
    let c = classic().map(0, 0, 4, 4);
    assert_eq!(c, Complex::new(fx(-2), fx(-1)));
}

#[test]
fn last_pixel_maps_strictly_inside() {
    // -2 + 3 * 3/4 = 1/4 and -1 + 2 * 3/4 = 1/2: short of the far edges 1 and 1
    let c = classic().map(3, 3, 4, 4);
    assert_eq!(c, Complex::new(Fixed { bits: SCALE / 4 }, Fixed { bits: SCALE / 2 }));
    assert!(c.re < fx(1));
    assert!(c.im < fx(1));
}

#[test]
fn map_interpolates_linearly() {
    let v = classic();
    assert_eq!(v.map(2, 2, 4, 4), Complex::new(Fixed { bits: -SCALE / 2 }, fx(0)));
    assert_eq!(v.map(1, 0, 3, 1), Complex::new(fx(-1), fx(-1)));
    assert_eq!(v.map(2, 1, 3, 2), Complex::new(fx(0), fx(0)));
}

#[test]
fn map_rounds_the_offset_down() {
    // a span of one raw unit: every pixel but none reaches the next unit
    let v = Viewport::new(Fixed { bits: -3 }, Fixed { bits: -2 }, Fixed { bits: 10 }, Fixed { bits: 20 })
        .unwrap();
    assert_eq!(v.map(2, 0, 3, 3), Complex::new(Fixed { bits: -3 }, Fixed { bits: 10 }));
    // 10 * 1/3 = 3.33 -> 3, 10 * 2/3 = 6.67 -> 6
    assert_eq!(v.map(0, 1, 3, 3).im, Fixed { bits: 13 });
    assert_eq!(v.map(0, 2, 3, 3).im, Fixed { bits: 16 });
}

#[test]
fn map_spans_the_whole_range() {
    let v = Viewport::new(
        Fixed { bits: i64::MIN },
        Fixed { bits: i64::MAX },
        Fixed { bits: i64::MIN },
        Fixed { bits: i64::MAX },
    ).unwrap();
    assert_eq!(v.map(0, 0, usize::MAX, usize::MAX).re, Fixed { bits: i64::MIN });
    let far = v.map(usize::MAX - 1, usize::MAX - 1, usize::MAX, usize::MAX);
    assert!(far.re < Fixed { bits: i64::MAX });
    assert!(far.re > Fixed { bits: 0 });
    assert_eq!(v.map(1, 1, 2, 2), Complex::new(Fixed { bits: -1 }, Fixed { bits: -1 }));
}
