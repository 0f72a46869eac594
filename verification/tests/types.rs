use image2::fixed::SCALE;
use image2::{Bgr, Bgra, Cmyk, Color, Fixed, Gray, Rgb, RgbPacked, Rgba, Type, Yuv};

#[test]
fn test_type_and_color_name() {
    assert!(<u8 as Type>::name() != <u16 as Type>::name());
    assert!(<u8 as Type>::name() == <u8 as Type>::name());
}

#[test]
fn type_names() {
    assert_eq!(<u8 as Type>::name(), "u8");
    assert_eq!(<u16 as Type>::name(), "u16");
}

#[test]
fn round_trip_is_exact_for_every_sample() {
    for v in 0..=255u8 {
        assert_eq!(u8::from_norm(v.to_norm()), v);
    }
    for v in 0..=65535u16 {
        assert_eq!(u16::from_norm(v.to_norm()), v);
    }
}

#[test]
fn normalized_values_are_exact() {
    assert_eq!(0u8.to_norm().raw, 0);
    assert_eq!(255u8.to_norm().raw, SCALE);
    assert_eq!(1u8.to_norm().raw, 16843009);
    assert_eq!(127u8.to_norm().raw, 127 * 16843009);
    assert_eq!(128u8.to_norm().raw, 128 * 16843009 + 1);
    assert_eq!(0u16.to_norm().raw, 0);
    assert_eq!(65535u16.to_norm().raw, SCALE);
    assert_eq!(1u16.to_norm().raw, 65537);
    assert_eq!(32768u16.to_norm().raw, 32768 * 65537 + 1);
}

#[test]
fn complement_of_a_normalized_sample_is_a_normalized_sample() {
    for v in 0..=255u8 {
        assert_eq!((255 - v).to_norm().raw, SCALE - v.to_norm().raw);
    }
    for v in 0..=65535u16 {
        assert_eq!((65535 - v).to_norm().raw, SCALE - v.to_norm().raw);
    }
}

#[test]
fn from_norm_rounds_to_nearest_and_saturates() {
    assert_eq!(u8::from_norm(Fixed { raw: 0 }), 0);
    assert_eq!(u8::from_norm(Fixed { raw: SCALE }), 255);
    assert_eq!(u8::from_norm(Fixed { raw: SCALE / 2 }), 128);
    assert_eq!(u8::from_norm(Fixed { raw: 8421504 }), 0);
    assert_eq!(u8::from_norm(Fixed { raw: 8421505 }), 1);
    assert_eq!(u8::from_norm(Fixed { raw: SCALE + 1 }), 255);
    assert_eq!(u8::from_norm(Fixed { raw: i64::MAX }), 255);
    assert_eq!(u8::from_norm(Fixed { raw: -1 }), 0);
    assert_eq!(u8::from_norm(Fixed { raw: i64::MIN }), 0);
    assert_eq!(u16::from_norm(Fixed { raw: SCALE / 2 }), 32768);
    assert_eq!(u16::from_norm(Fixed { raw: 32768 }), 0);
    assert_eq!(u16::from_norm(Fixed { raw: 32769 }), 1);
    assert_eq!(u16::from_norm(Fixed::from_int(7)), 65535);
}

#[test]
fn samples_compare_by_value() {
    assert!(3u8.same(&3));
    assert!(!3u8.same(&4));
    assert!(700u16.same(&700));
    assert!(!700u16.same(&701));
}

#[test]
fn color_models() {
    assert_eq!((Gray::name(), Gray::channels(), Gray::has_alpha()), ("gray", 1, false));
    assert_eq!((Rgb::name(), Rgb::channels(), Rgb::has_alpha()), ("rgb", 3, false));
    assert_eq!((Bgr::name(), Bgr::channels(), Bgr::has_alpha()), ("bgr", 3, false));
    assert_eq!(
        (RgbPacked::name(), RgbPacked::channels(), RgbPacked::has_alpha()),
        ("rgb_packed", 1, false)
    );
    assert_eq!((Rgba::name(), Rgba::channels(), Rgba::has_alpha()), ("rgba", 4, true));
    assert_eq!((Bgra::name(), Bgra::channels(), Bgra::has_alpha()), ("bgra", 4, true));
    assert_eq!((Cmyk::name(), Cmyk::channels(), Cmyk::has_alpha()), ("cmyk", 4, false));
    assert_eq!((Yuv::name(), Yuv::channels(), Yuv::has_alpha()), ("yuv", 3, false));
    assert!(Gray::name() != Rgb::name());
}
