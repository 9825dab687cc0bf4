use mandelbrot_zoom::color::{
    interpolate_channel, interpolate_color, Fraction, Rgb, DEN_MAX, OPAQUE,
};

fn frac(num: u64, den: u64) -> Fraction {
    Fraction::new(num, den).unwrap()
}

#[test]
fn fraction_new_accepts_unit_interval() {
    assert_eq!(Fraction::new(0, 1), Some(Fraction { num: 0, den: 1 }));
    assert_eq!(Fraction::new(3, 4), Some(Fraction { num: 3, den: 4 }));
    assert_eq!(Fraction::new(7, 7), Some(Fraction { num: 7, den: 7 }));
    assert_eq!(Fraction::new(DEN_MAX, DEN_MAX), Some(Fraction { num: DEN_MAX, den: DEN_MAX }));
}

#[test]
fn fraction_new_rejects_zero_denominator() {
    assert_eq!(Fraction::new(0, 0), None);
    assert_eq!(Fraction::new(1, 0), None);
}

#[test]
fn fraction_new_rejects_more_than_one() {
    assert_eq!(Fraction::new(5, 4), None);
}

#[test]
fn fraction_new_rejects_large_denominator() {
    assert_eq!(Fraction::new(1, DEN_MAX + 1), None);
}

#[test]
fn fraction_is_wf_matches_new() {
    assert!(Fraction { num: 1, den: 2 }.is_wf());
    assert!(!Fraction { num: 3, den: 2 }.is_wf());
    assert!(!Fraction { num: 0, den: 0 }.is_wf());
    assert!(Fraction::zero().is_wf());
    assert!(Fraction::one().is_wf());
}

#[test]
fn zero_and_one_are_the_endpoints() {
    assert_eq!(Fraction::zero(), Fraction { num: 0, den: 1 });
    assert_eq!(Fraction::one(), Fraction { num: 1, den: 1 });
}

#[test]
fn channel_at_zero_is_first() {
    assert_eq!(interpolate_channel(17, 200, frac(0, 9)), 17);
    assert_eq!(interpolate_channel(200, 17, Fraction::zero()), 200);
    assert_eq!(interpolate_channel(255, 0, frac(0, DEN_MAX)), 255);
}

#[test]
fn channel_at_one_is_second() {
    assert_eq!(interpolate_channel(17, 200, frac(9, 9)), 200);
    assert_eq!(interpolate_channel(200, 17, Fraction::one()), 17);
    assert_eq!(interpolate_channel(0, 255, frac(DEN_MAX, DEN_MAX)), 255);
}

#[test]
fn channel_midpoint_rounds_half_up() {
    // 0 * 1/2 + 255 * 1/2 = 127.5
    assert_eq!(interpolate_channel(0, 255, frac(1, 2)), 128);
    assert_eq!(interpolate_channel(255, 0, frac(1, 2)), 128);
    // 10 * 3/4 + 20 * 1/4 = 12.5
    assert_eq!(interpolate_channel(10, 20, frac(1, 4)), 13);
    // 20 * 3/4 + 10 * 1/4 = 17.5
    assert_eq!(interpolate_channel(20, 10, frac(1, 4)), 18);
}

#[test]
fn channel_rounds_to_nearest() {
    // 0 * 2/3 + 100 * 1/3 = 33.33
    assert_eq!(interpolate_channel(0, 100, frac(1, 3)), 33);
    // 0 * 1/3 + 100 * 2/3 = 66.67
    assert_eq!(interpolate_channel(0, 100, frac(2, 3)), 67);
    // 3 * 0.9 + 4 * 0.1 = 3.1
    assert_eq!(interpolate_channel(3, 4, frac(1, 10)), 3);
    // 3 * 0.4 + 4 * 0.6 = 3.6
    assert_eq!(interpolate_channel(3, 4, frac(6, 10)), 4);
}

#[test]
fn channel_of_equal_endpoints_is_constant() {
    for num in 0..=16u64 {
        assert_eq!(interpolate_channel(91, 91, frac(num, 16)), 91);
    }
}

#[test]
fn channel_is_monotonic_upwards() {
    let mut last = interpolate_channel(12, 240, frac(0, 1000));
    assert_eq!(last, 12);
    for num in 1..=1000u64 {
        let c = interpolate_channel(12, 240, frac(num, 1000));
        assert!(c >= last);
        assert!((12..=240).contains(&c));
        last = c;
    }
    assert_eq!(last, 240);
}

#[test]
fn channel_is_monotonic_downwards() {
    let mut last = interpolate_channel(240, 12, frac(0, 1000));
    assert_eq!(last, 240);
    for num in 1..=1000u64 {
        let c = interpolate_channel(240, 12, frac(num, 1000));
        assert!(c <= last);
        assert!((12..=240).contains(&c));
        last = c;
    }
    assert_eq!(last, 12);
}

#[test]
fn channel_is_monotonic_across_denominators() {
    // 1/3 < 2/5 < 1/2 < 5/8
    let a = interpolate_channel(0, 255, frac(1, 3));
    let b = interpolate_channel(0, 255, frac(2, 5));
    let c = interpolate_channel(0, 255, frac(1, 2));
    let d = interpolate_channel(0, 255, frac(5, 8));
    assert_eq!((a, b, c, d), (85, 102, 128, 159));
}

#[test]
fn color_blends_each_channel() {
    let a = Rgb { r: 0, g: 100, b: 255 };
    let b = Rgb { r: 255, g: 200, b: 0 };
    assert_eq!(interpolate_color(a, b, frac(0, 5)), a);
    assert_eq!(interpolate_color(a, b, frac(5, 5)), b);
    assert_eq!(interpolate_color(a, b, frac(1, 2)), Rgb { r: 128, g: 150, b: 128 });
    assert_eq!(interpolate_color(a, b, frac(1, 5)), Rgb { r: 51, g: 120, b: 204 });
}

#[test]
fn rgba_appends_opaque_alpha() {
    assert_eq!(OPAQUE, 255);
    assert_eq!(Rgb { r: 1, g: 2, b: 3 }.to_rgba(), [1, 2, 3, 255]);
}
