use image2::diff::Diff;
use image2::filter::Invert;
use image2::{Error, Filter, Gray, Image, Rgb};

fn gradient(width: usize, height: usize) -> Image<u16, Rgb> {
    let mut image: Image<u16, Rgb> = Image::new(width, height);
    for y in 0..height {
        for x in 0..width {
            image.set(x, y, 0, (x * 1000) as u16);
            image.set(x, y, 1, (y * 1300) as u16);
            image.set(x, y, 2, ((x + y) * 500) as u16);
        }
    }
    image
}

fn checker(width: usize, height: usize) -> Image<u8, Gray> {
    let mut image: Image<u8, Gray> = Image::new(width, height);
    for y in 0..height {
        for x in 0..width {
            if (x / 2 + y / 2) % 2 == 0 {
                image.set(x, y, 0, 255);
            }
        }
    }
    image
}

#[test]
fn test_hash() {
    let a = gradient(40, 30);
    let b = gradient(40, 30);
    assert!(a.hash() == b.hash());
    assert!(a.hash().diff(&b.hash()) == 0);
    let mut c = a.new_like();
    Invert.eval(&mut c, &[&a]);
    assert!(c.hash() != a.hash());
    assert!(c.hash().diff(&a.hash()) != 0);
}

#[test]
fn hash_has_one_bit_for_each_cell() {
    let image = checker(16, 16);
    let mut expected: u64 = 0;
    for j in 0..8 {
        for i in 0..8 {
            if (i + j) % 2 == 0 {
                expected |= 1 << (j * 8 + i);
            }
        }
    }
    let h = image.hash();
    assert_eq!(h.digest, expected);
    let mut inverted = image.new_like();
    Invert.eval(&mut inverted, &[&image]);
    assert_eq!(inverted.hash().digest, !expected);
    assert_eq!(h.diff(&inverted.hash()), 64);
}

#[test]
fn hash_of_black_white_and_small_images() {
    let black: Image<u8, Rgb> = Image::new(10, 10);
    assert_eq!(black.hash().digest, 0);
    let mut white: Image<u8, Rgb> = Image::new(10, 10);
    let mut dest = white.new_like();
    Invert.eval(&mut dest, &[&white]);
    white = dest;
    assert_eq!(white.hash().digest, u64::MAX);
    let none: Image<u8, Rgb> = Image::new(0, 0);
    assert_eq!(none.hash().digest, 0);
    let mut dot: Image<u8, Gray> = Image::new(1, 1);
    dot.set(0, 0, 0, 255);
    assert_eq!(dot.hash().digest, 1 << 63);
}

#[test]
fn cell_with_mean_of_exactly_one_half_has_no_bit() {
    let mut image: Image<u8, Gray> = Image::new(16, 8);
    for y in 0..8 {
        for x in 0..16 {
            if x % 2 == 0 {
                image.set(x, y, 0, 255);
            }
        }
    }
    assert_eq!(image.hash().digest, 0);
    let mut inverted = image.new_like();
    Invert.eval(&mut inverted, &[&image]);
    assert_eq!(inverted.hash().digest, 0);
    assert_eq!(image.hash().diff(&inverted.hash()), 0);
}

#[test]
fn distance_counts_the_bits_that_differ() {
    let a = image2::hash::Hash { digest: 0b1011 };
    let b = image2::hash::Hash { digest: 0b0110 };
    assert_eq!(a.diff(&b), 3);
    assert_eq!(b.diff(&a), 3);
    assert_eq!(a.diff(&a), 0);
    assert_eq!(image2::hash::Hash { digest: 0 }.diff(&image2::hash::Hash { digest: u64::MAX }), 64);
    assert_eq!(image2::hash::Hash { digest: 1 << 63 }.diff(&image2::hash::Hash { digest: 0 }), 1);
}

#[test]
fn diff_applied_to_the_other_image_gives_the_first() {
    let a = gradient(12, 9);
    let mut b = gradient(12, 9);
    b.set(0, 0, 0, 9);
    b.set(11, 8, 2, 1);
    b.set(5, 4, 1, 65535);
    let d = a.diff(&b).unwrap();
    assert_eq!(d.len(), 3);
    assert!(!d.is_empty());
    assert_eq!(d.entries, vec![(0, 0, 0, a.get(0, 0, 0)), (5, 4, 1, a.get(5, 4, 1)), (
        11,
        8,
        2,
        a.get(11, 8, 2),
    )]);
    assert_eq!(d.apply(&mut b), Ok(()));
    assert_eq!(b.data, a.data);
}

#[test]
fn diff_of_unrelated_images() {
    let a = gradient(7, 5);
    let mut b = a.new_like();
    let mut state: u32 = 99;
    for v in b.data.iter_mut() {
        state = state.wrapping_mul(1103515245).wrapping_add(12345);
        *v = (state >> 16) as u16 % 4 * 1000;
    }
    let d = a.diff(&b).unwrap();
    let differing = a.data.iter().zip(b.data.iter()).filter(|(x, y)| x != y).count();
    assert_eq!(d.len(), differing);
    d.apply(&mut b).unwrap();
    assert_eq!(b.data, a.data);
}

#[test]
fn diff_of_equal_images_is_empty() {
    let a = gradient(6, 6);
    let mut b = gradient(6, 6);
    let d = a.diff(&b).unwrap();
    assert!(d.is_empty());
    assert_eq!(d.len(), 0);
    assert_eq!(d.apply(&mut b), Ok(()));
    assert_eq!(b.data, a.data);
}

#[test]
fn diff_of_images_of_other_dimensions_is_refused() {
    let a = gradient(6, 4);
    assert_eq!(a.diff(&gradient(4, 6)).err(), Some(Error::ShapeMismatch));
    assert_eq!(a.diff(&gradient(6, 5)).err(), Some(Error::ShapeMismatch));
    assert_eq!(a.diff(&gradient(7, 4)).err(), Some(Error::ShapeMismatch));
    assert!(a.diff(&gradient(6, 4)).is_ok());
}

#[test]
fn diff_outside_the_target_is_refused_and_writes_nothing() {
    let d: Diff<u16> = Diff { entries: vec![(0, 0, 0, 5), (3, 0, 0, 6)] };
    let mut small: Image<u16, Rgb> = Image::new(3, 3);
    assert_eq!(d.apply(&mut small), Err(Error::OutOfBounds));
    assert!(small.data.iter().all(|v| *v == 0));
    let rows: Diff<u16> = Diff { entries: vec![(0, 3, 0, 5)] };
    assert_eq!(rows.apply(&mut small), Err(Error::OutOfBounds));
    let channels: Diff<u16> = Diff { entries: vec![(0, 0, 3, 5)] };
    assert_eq!(channels.apply(&mut small), Err(Error::OutOfBounds));
    let mut large: Image<u16, Rgb> = Image::new(4, 1);
    assert_eq!(d.apply(&mut large), Ok(()));
    assert_eq!(large.get(0, 0, 0), 5);
    assert_eq!(large.get(3, 0, 0), 6);
}

#[test]
fn later_entries_overwrite_earlier_ones() {
    let d: Diff<u16> = Diff { entries: vec![(1, 1, 0, 5), (1, 1, 0, 6)] };
    let mut image: Image<u16, Gray> = Image::new(2, 2);
    assert_eq!(d.apply(&mut image), Ok(()));
    assert_eq!(image.data, vec![0, 0, 0, 6]);
}
