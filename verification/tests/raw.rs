use image2::fixed::SCALE;
use image2::raw::{Raw, RawData};
use image2::{Bgr, Bgra, Cmyk, Fixed, Gray, Image, Rgb, RgbPacked, Rgba, Yuv};

fn mosaic() -> Raw {
    Raw { width: 3, height: 2, cpp: 1, data: RawData::Integer(vec![0, 257, 32768, 65535, 127, 129]) }
}

fn color() -> Raw {
    Raw {
        width: 2,
        height: 1,
        cpp: 3,
        data: RawData::Integer(vec![0, 65535, 257, 514, 771, 1028]),
    }
}

#[test]
fn mosaic_becomes_a_gray_image() {
    let image: Image<u16, Gray> = mosaic().to_gray_image().unwrap();
    assert_eq!((image.width, image.height), (3, 2));
    assert_eq!(image.data, vec![0, 257, 32768, 65535, 127, 129]);
    let narrow: Image<u8, Gray> = mosaic().to_gray_image().unwrap();
    assert_eq!(narrow.data, vec![0, 1, 128, 255, 0, 1]);
    assert!(mosaic().to_rgb_image::<u8>().is_none());
}

#[test]
fn color_frame_becomes_a_color_image() {
    let image: Image<u8, Rgb> = color().to_rgb_image().unwrap();
    assert_eq!((image.width, image.height), (2, 1));
    assert_eq!(image.data, vec![0, 255, 1, 2, 3, 4]);
    assert_eq!(image.get(1, 0, 2), 4);
    assert!(color().to_gray_image::<u8>().is_none());
}

#[test]
fn frame_of_real_samples_is_clamped() {
    let raw = Raw {
        width: 2,
        height: 2,
        cpp: 1,
        data: RawData::Float(vec![
            Fixed { raw: 0 },
            Fixed { raw: SCALE / 2 },
            Fixed { raw: 2 * SCALE },
            Fixed { raw: -SCALE },
        ]),
    };
    let image: Image<u8, Gray> = raw.to_gray_image().unwrap();
    assert_eq!(image.data, vec![0, 128, 255, 0]);
}

#[test]
fn frame_with_the_wrong_number_of_samples_is_no_image() {
    let mut short = color();
    short.data = RawData::Integer(vec![1, 2, 3, 4, 5]);
    assert!(short.to_rgb_image::<u8>().is_none());
    let mut long = mosaic();
    long.data = RawData::Integer(vec![0; 7]);
    assert!(long.to_gray_image::<u8>().is_none());
    let four = Raw { width: 1, height: 1, cpp: 4, data: RawData::Integer(vec![1, 2, 3, 4]) };
    assert!(four.to_rgb_image::<u8>().is_none());
    let huge = Raw { width: usize::MAX, height: usize::MAX, cpp: 1, data: RawData::Integer(vec![1]) };
    assert!(huge.to_gray_image::<u8>().is_none());
}

#[test]
fn frame_to_an_image_of_its_own_layout() {
    let image: Image<u8, Rgb> = color().to_image();
    assert_eq!(image.data, vec![0, 255, 1, 2, 3, 4]);
    let gray: Image<u16, Gray> = mosaic().to_image();
    assert_eq!(gray.data, vec![0, 257, 32768, 65535, 127, 129]);
}

#[test]
fn raw_data_length_and_samples() {
    let data = RawData::Integer(vec![65535, 0]);
    assert_eq!(data.len(), 2);
    assert_eq!(data.get::<u8>(0), 255);
    assert_eq!(data.get::<u8>(1), 0);
    let real = RawData::Float(vec![Fixed::one()]);
    assert_eq!(real.len(), 1);
    assert_eq!(real.get::<u16>(0), 65535);
}

#[test]
fn mosaic_to_an_image_of_any_layout() {
    let rgb: Image<u8, Rgb> = mosaic().to_image();
    assert_eq!((rgb.width, rgb.height), (3, 2));
    assert_eq!(rgb.data, vec![0, 0, 0, 1, 1, 1, 128, 128, 128, 255, 255, 255, 0, 0, 0, 1, 1, 1]);
    let bgra: Image<u8, Bgra> = mosaic().to_image();
    assert_eq!(bgra.data[..12], [0, 0, 0, 255, 1, 1, 1, 255, 128, 128, 128, 255]);
    let cmyk: Image<u8, Cmyk> = mosaic().to_image();
    assert_eq!(cmyk.data[..16], [0, 0, 0, 255, 0, 0, 0, 254, 0, 0, 0, 127, 0, 0, 0, 0]);
    let packed: Image<u16, RgbPacked> = mosaic().to_image();
    assert_eq!(packed.data, vec![0, 257, 32768, 65535, 127, 129]);
    let yuv: Image<u8, Yuv> = mosaic().to_image();
    for (i, v) in [0u8, 1, 128, 255, 0, 1].iter().enumerate() {
        assert_eq!(yuv.data[3 * i], *v);
        assert!(yuv.data[3 * i + 1] == 127 || yuv.data[3 * i + 1] == 128);
        assert!(yuv.data[3 * i + 2] == 127 || yuv.data[3 * i + 2] == 128);
    }
}

#[test]
fn color_frame_to_an_image_of_any_layout() {
    let frame = || Raw {
        width: 2,
        height: 1,
        cpp: 3,
        data: RawData::Integer(vec![65535, 0, 0, 7710, 15420, 23130]),
    };
    let rgb: Image<u8, Rgb> = frame().to_image();
    assert_eq!(rgb.data, vec![255, 0, 0, 30, 60, 90]);
    let bgr: Image<u8, Bgr> = frame().to_image();
    assert_eq!(bgr.data, vec![0, 0, 255, 90, 60, 30]);
    let rgba: Image<u8, Rgba> = frame().to_image();
    assert_eq!(rgba.data, vec![255, 0, 0, 255, 30, 60, 90, 255]);
    let gray: Image<u8, Gray> = frame().to_image();
    assert_eq!(gray.data, vec![85, 60]);
    let cmyk: Image<u8, Cmyk> = frame().to_image();
    assert_eq!(cmyk.data[..4], [0, 255, 255, 0]);
    assert_eq!(cmyk.data[4..], [170, 85, 0, 165]);
    let yuv: Image<u8, Yuv> = frame().to_image();
    assert_eq!(yuv.data[..3], [76, 84, 255]);
}
