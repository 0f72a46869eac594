use image2::filter::{Convert, Invert};
use image2::fixed::SCALE;
use image2::{Bgra, Cmyk, Filter, Fixed, Gray, Image, Model, Rgb, Rgba, Transform, Yuv};

fn gradient(width: usize, height: usize) -> Image<u16, Rgb> {
    let mut image: Image<u16, Rgb> = Image::new(width, height);
    for y in 0..height {
        for x in 0..width {
            image.set(x, y, 0, (x * 1000) as u16);
            image.set(x, y, 1, (y * 1300) as u16);
            image.set(x, y, 2, ((x + y) * 500) as u16);
        }
    }
    image
}

#[test]
fn test_image_buffer_new() {
    let mut image: Image<u8, Rgb> = Image::new(1000, 1000);
    let mut dest = image.new_like();
    image.set_f(3, 15, 0, Fixed::one());

    let index = image.index(3, 15);
    assert_eq!(image.data[index], 255);
    Invert.eval(&mut dest, &[&image]);
}

#[test]
fn invert_of_black_image_with_one_white_sample() {
    let mut image: Image<u8, Rgb> = Image::new(1000, 1000);
    let mut dest = image.new_like();
    image.set_f(3, 15, 0, Fixed::one());
    assert_eq!(image.get(3, 15, 0), 255);
    Invert.eval(&mut dest, &[&image]);
    assert_eq!(dest.width, 1000);
    assert_eq!(dest.height, 1000);
    assert_eq!(dest.data.len(), 3_000_000);
    let white = dest.index(3, 15);
    for (i, v) in dest.data.iter().enumerate() {
        assert_eq!(*v, 255 - image.data[i]);
        if i == white {
            assert_eq!(*v, 0);
        } else {
            assert_eq!(*v, 255);
        }
    }
}

#[test]
fn test_invert() {
    let image = gradient(40, 30);
    let mut dest = image.new_like();
    Invert.eval(&mut dest, &[&image]);
    assert_eq!(dest.data.len(), image.data.len());
    for (i, v) in dest.data.iter().enumerate() {
        assert_eq!(*v, 65535 - image.data[i]);
    }
    assert_eq!(Invert.compute_at(2, 1, 0, &[&image]).raw, SCALE - image.get_f(2, 1, 0).raw);
}

#[test]
fn test_to_grayscale() {
    let image = gradient(40, 30);
    let mut dest: Image<u16, Gray> = image.new_like_with_type_and_color::<u16, Gray>();
    Convert::<Gray>::new().eval(&mut dest, &[&image]);
    assert_eq!(dest.data.len(), 40 * 30);
    for y in 0..30 {
        for x in 0..40 {
            let sum = image.get(x, y, 0) as u64 + image.get(x, y, 1) as u64 + image.get(x, y, 2) as u64;
            let mean = ((2 * sum + 3) / 6) as i64;
            let got = dest.get(x, y, 0) as i64;
            assert!((got - mean).abs() <= 1, "at ({}, {}): {} against {}", x, y, got, mean);
        }
    }
}

#[test]
fn grayscale_of_exact_thirds() {
    let mut image: Image<u8, Rgb> = Image::new(1, 1);
    image.set(0, 0, 0, 255);
    image.set(0, 0, 1, 0);
    image.set(0, 0, 2, 0);
    let f = Convert::<Gray>::new().compute_at(0, 0, 0, &[&image]);
    assert_eq!(f.raw, 1431655765);
    let mut dest: Image<u8, Gray> = image.new_like_with_color::<Gray>();
    Convert::<Gray>::new().eval(&mut dest, &[&image]);
    assert_eq!(dest.get(0, 0, 0), 85);
}

#[test]
fn grayscale_leaves_alpha_out() {
    let mut image: Image<u8, Rgba> = Image::new(1, 1);
    image.set(0, 0, 0, 30);
    image.set(0, 0, 1, 60);
    image.set(0, 0, 2, 90);
    image.set(0, 0, 3, 255);
    let mut dest: Image<u8, Gray> = image.new_like_with_color::<Gray>();
    Convert::<Gray>::new().eval(&mut dest, &[&image]);
    assert_eq!(dest.get(0, 0, 0), 60);
}

#[test]
fn new_image_is_zero_and_sized_by_color() {
    let rgb: Image<u8, Rgb> = Image::new(7, 5);
    assert_eq!(rgb.data.len(), 7 * 5 * 3);
    assert!(rgb.data.iter().all(|v| *v == 0));
    let rgba: Image<u16, Rgba> = rgb.new_like_with_type_and_color::<u16, Rgba>();
    assert_eq!(rgba.width, 7);
    assert_eq!(rgba.height, 5);
    assert_eq!(rgba.data.len(), 7 * 5 * 4);
    let gray: Image<u8, Gray> = rgb.new_like_with_color::<Gray>();
    assert_eq!(gray.data.len(), 35);
    let empty: Image<u8, Rgb> = Image::new(0, 9);
    assert_eq!(empty.data.len(), 0);
}

#[test]
fn index_is_row_major_and_channel_minor() {
    let mut image: Image<u8, Rgb> = Image::new(4, 3);
    assert_eq!(image.index(0, 0), 0);
    assert_eq!(image.index(1, 0), 3);
    assert_eq!(image.index(0, 1), 12);
    assert_eq!(image.index(3, 2), (2 * 4 + 3) * 3);
    image.set(3, 2, 1, 77);
    assert_eq!(image.data[(2 * 4 + 3) * 3 + 1], 77);
    assert_eq!(image.get(3, 2, 1), 77);
    assert_eq!(image.data.iter().filter(|v| **v != 0).count(), 1);
}

#[test]
fn normalized_accessors_round_and_clamp() {
    let mut image: Image<u8, Gray> = Image::new(2, 2);
    image.set_f(0, 0, 0, Fixed { raw: SCALE / 2 });
    assert_eq!(image.get(0, 0, 0), 128);
    image.set_f(1, 0, 0, Fixed::from_int(3));
    assert_eq!(image.get(1, 0, 0), 255);
    image.set_f(0, 1, 0, Fixed::from_int(-2));
    assert_eq!(image.get(0, 1, 0), 0);
    image.set(1, 1, 0, 51);
    assert_eq!(image.get_f(1, 1, 0).raw, 858993459);
    assert_eq!(image.get_f(1, 0, 0).raw, SCALE);
}

#[test]
fn convert_type_goes_through_normalized_values() {
    let mut image: Image<u8, Gray> = Image::new(3, 1);
    image.set(0, 0, 0, 0);
    image.set(1, 0, 0, 128);
    image.set(2, 0, 0, 255);
    let wide: Image<u16, Gray> = image.convert_type::<u16>();
    assert_eq!(wide.data, vec![0u16, 32896, 65535]);
    let back: Image<u8, Gray> = wide.convert_type::<u8>();
    assert_eq!(back.data, image.data);
    let mut fine: Image<u16, Gray> = Image::new(2, 1);
    fine.set(0, 0, 0, 127);
    fine.set(1, 0, 0, 129);
    let coarse: Image<u8, Gray> = fine.convert_type::<u8>();
    assert_eq!(coarse.data, vec![0u8, 1]);
}

#[test]
fn rows_can_be_filled_one_by_one_in_any_order() {
    let image = gradient(9, 7);
    let mut whole = image.new_like();
    Invert.eval(&mut whole, &[&image]);
    let mut by_rows = image.new_like();
    for y in (0..7).rev() {
        let row: Vec<u16> = Invert.eval_row::<u16, Rgb, u16, Rgb>(9, y, &[&image]);
        assert_eq!(row.len(), 27);
        assert_eq!(row[3 * 4 + 1], 65535 - image.get(4, y, 1));
        by_rows.set_row(y, &row);
    }
    assert_eq!(by_rows.data, whole.data);
    let gray: Vec<u8> = Convert::<Gray>::new().eval_row::<u16, Rgb, u8, Gray>(9, 2, &[&image]);
    assert_eq!(gray.len(), 9);
    let none: Vec<u8> = Invert.eval_row::<u16, Rgb, u8, Rgb>(0, 0, &[&image]);
    assert!(none.is_empty());
}

#[test]
fn set_row_overwrites_one_row() {
    let mut image: Image<u8, Rgb> = Image::new(2, 3);
    image.set_row(1, &vec![1, 2, 3, 4, 5, 6]);
    assert_eq!(image.data, vec![0, 0, 0, 0, 0, 0, 1, 2, 3, 4, 5, 6, 0, 0, 0, 0, 0, 0]);
    image.set_row(2, &vec![9; 6]);
    image.set_row(0, &vec![7; 6]);
    assert_eq!(image.data, vec![7, 7, 7, 7, 7, 7, 1, 2, 3, 4, 5, 6, 9, 9, 9, 9, 9, 9]);
}

#[test]
fn filter_followed_by_a_transform() {
    let image = gradient(5, 4);
    let twice = image2::AndThen::new(Invert, image2::Complement);
    let mut dest = image.new_like();
    twice.eval(&mut dest, &[&image]);
    assert_eq!(dest.data, image.data);
    assert_eq!(twice.compute_at(3, 2, 1, &[&image]).raw, image.get_f(3, 2, 1).raw);
    let half = image2::AndThen::new(Invert, image2::Scaled { factor: Fixed { raw: SCALE / 2 } });
    let mut white: Image<u8, Gray> = Image::new(1, 1);
    assert_eq!(half.compute_at(0, 0, 0, &[&white]).raw, SCALE / 2);
    let mut dest = white.new_like();
    half.eval(&mut dest, &[&white]);
    assert_eq!(dest.get(0, 0, 0), 128);
    white.set(0, 0, 0, 255);
    assert_eq!(half.compute_at(0, 0, 0, &[&white]).raw, 0);
    let nested = image2::AndThen::new(half, image2::Complement);
    assert_eq!(nested.compute_at(0, 0, 0, &[&white]).raw, SCALE);
}

#[test]
fn transforms() {
    assert_eq!(image2::Complement.apply(Fixed { raw: 5 }).raw, SCALE - 5);
    assert_eq!(image2::Complement.apply(Fixed::from_int(2)).raw, -SCALE);
    assert_eq!(image2::Complement.apply(Fixed { raw: i64::MIN }).raw, i64::MAX);
    let third = image2::Scaled { factor: Fixed::from_ratio(1, 3) };
    assert_eq!(third.apply(Fixed::from_int(3)).raw, SCALE - 1);
    assert_eq!(third.apply(Fixed::zero()).raw, 0);
}

#[test]
fn conversion_moves_primaries_between_layouts() {
    let mut image: Image<u8, Bgra> = Image::new(1, 1);
    image.set(0, 0, 0, 10);
    image.set(0, 0, 1, 20);
    image.set(0, 0, 2, 30);
    image.set(0, 0, 3, 40);
    let mut rgba: Image<u8, Rgba> = image.new_like_with_color::<Rgba>();
    Convert::<Rgba>::new().eval(&mut rgba, &[&image]);
    assert_eq!(rgba.data, vec![30, 20, 10, 40]);
    let mut rgb: Image<u8, Rgb> = image.new_like_with_color::<Rgb>();
    Convert::<Rgb>::new().eval(&mut rgb, &[&image]);
    assert_eq!(rgb.data, vec![30, 20, 10]);
    let mut back: Image<u8, Bgra> = rgb.new_like_with_color::<Bgra>();
    Convert::<Bgra>::new().eval(&mut back, &[&rgb]);
    assert_eq!(back.data, vec![10, 20, 30, 255]);
    assert_eq!(Convert::<Rgb>::new().compute_at(0, 0, 0, &[&image]).raw, image.get_f(0, 0, 2).raw);
}

#[test]
fn conversion_from_inks_and_from_chrominance() {
    let mut cmyk: Image<u8, Cmyk> = Image::new(2, 1);
    cmyk.data = vec![0, 255, 255, 0, 0, 0, 0, 255];
    let mut rgb: Image<u8, Rgb> = cmyk.new_like_with_color::<Rgb>();
    Convert::<Rgb>::new().eval(&mut rgb, &[&cmyk]);
    assert_eq!(rgb.data, vec![255, 0, 0, 0, 0, 0]);
    let mut yuv: Image<u8, Yuv> = Image::new(2, 1);
    yuv.data = vec![76, 84, 255, 200, 128, 128];
    let mut rgb: Image<u8, Rgb> = yuv.new_like_with_color::<Rgb>();
    Convert::<Rgb>::new().eval(&mut rgb, &[&yuv]);
    assert!(rgb.data[0] >= 253);
    assert!(rgb.data[1] <= 2);
    assert!(rgb.data[2] <= 2);
    for v in &rgb.data[3..] {
        assert!((*v as i32 - 200).abs() <= 1);
    }
}

#[test]
fn color_models_of_the_layouts() {
    assert_eq!(<Gray as image2::Color>::model(), Model::Gray);
    assert_eq!(<Rgb as image2::Color>::model(), Model::Rgb);
    assert_eq!(<image2::Bgr as image2::Color>::model(), Model::Bgr);
    assert_eq!(<image2::RgbPacked as image2::Color>::model(), Model::RgbPacked);
    assert_eq!(<Rgba as image2::Color>::model(), Model::Rgba);
    assert_eq!(<Bgra as image2::Color>::model(), Model::Bgra);
    assert_eq!(<Cmyk as image2::Color>::model(), Model::Cmyk);
    assert_eq!(<Yuv as image2::Color>::model(), Model::Yuv);
    for m in [
        Model::Gray,
        Model::Rgb,
        Model::Bgr,
        Model::RgbPacked,
        Model::Rgba,
        Model::Bgra,
        Model::Cmyk,
        Model::Yuv,
    ] {
        let expected = match m {
            Model::Gray | Model::RgbPacked => (1, false),
            Model::Rgb | Model::Bgr | Model::Yuv => (3, false),
            Model::Cmyk => (4, false),
            Model::Rgba | Model::Bgra => (4, true),
        };
        assert_eq!((m.channels(), m.has_alpha()), expected);
    }
}
