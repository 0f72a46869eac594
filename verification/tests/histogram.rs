use image2::fixed::SCALE;
use image2::{Histogram, Image, Rgb};

fn filled(counts: &[usize]) -> Histogram {
    let mut h = Histogram::new(counts.len());
    for (i, n) in counts.iter().enumerate() {
        h.set_bin(i, *n);
    }
    h
}

fn counts(h: &Histogram) -> Vec<usize> {
    h.bins().into_iter().map(|(_, n)| n).collect()
}

#[test]
fn test_histogram_basic() {
    let image = Image::<u8, Rgb>::new(100, 100);
    let hist = image.histogram(255);

    assert_eq!(hist.len(), 3);
    for h in hist {
        assert!(h.bin(0) == 100 * 100);
        assert!(h.min_index() == 1);
        assert!(h.max_index() == 0);
        assert!(h.distribution()[0].raw == SCALE);
        assert!(h.distribution().into_iter().skip(1).map(|f| f.raw).sum::<i64>() == 0);
    }
}

#[test]
fn new_histogram_is_empty() {
    let h = Histogram::new(4);
    assert_eq!(h.len(), 4);
    assert!(!h.is_empty());
    assert_eq!(h.sum(), 0);
    assert_eq!(h.bins(), vec![(0, 0), (1, 0), (2, 0), (3, 0)]);
    assert!(Histogram::new(0).is_empty());
    assert_eq!(Histogram::new(0).len(), 0);
}

#[test]
fn sum_is_the_sum_of_the_bins() {
    let mut h = Histogram::new(5);
    let mut state: u32 = 12345;
    for _ in 0..1000 {
        state = state.wrapping_mul(1103515245).wrapping_add(12345);
        let v = (state >> 16) as u8;
        if state & 1 == 0 {
            h.add_value(v);
        } else {
            h.incr_bin((v % 5) as usize);
        }
        assert_eq!(h.sum(), counts(&h).iter().sum::<usize>());
    }
    assert_eq!(h.sum(), 1000);
    h.set_bin(2, 7);
    assert_eq!(h.sum(), counts(&h).iter().sum::<usize>());
}

#[test]
fn join_adds_bin_by_bin() {
    let h1 = filled(&[1, 2, 3, 0]);
    let h2 = filled(&[10, 0, 5, 7]);
    let joined = Histogram::join(&[h1.clone(), h2.clone()]);
    assert_eq!(joined.len(), 4);
    for i in 0..4 {
        assert_eq!(joined.bin(i), h1.bin(i) + h2.bin(i));
    }
    assert_eq!(counts(&joined), vec![11, 2, 8, 7]);
    assert_eq!(joined.sum(), h1.sum() + h2.sum());
    assert_eq!(joined.sum(), 28);
    let twice = Histogram::join(&[h1.clone(), h1.clone()]);
    assert_eq!(counts(&twice), vec![2, 4, 6, 0]);
    let alone = Histogram::join(&[h2.clone()]);
    assert_eq!(alone, h2);
    let three = Histogram::join(&[h1.clone(), h2, h1]);
    assert_eq!(counts(&three), vec![12, 4, 11, 7]);
}

#[test]
fn values_fall_into_the_nearest_bin() {
    let mut h = Histogram::new(3);
    h.add_value(0u8);
    assert_eq!(counts(&h), vec![1, 0, 0]);
    h.add_value(63u8);
    assert_eq!(counts(&h), vec![2, 0, 0]);
    h.add_value(64u8);
    assert_eq!(counts(&h), vec![2, 1, 0]);
    h.add_value(128u8);
    assert_eq!(counts(&h), vec![2, 2, 0]);
    h.add_value(191u8);
    assert_eq!(counts(&h), vec![2, 3, 0]);
    h.add_value(192u8);
    assert_eq!(counts(&h), vec![2, 3, 1]);
    h.add_value(255u8);
    assert_eq!(counts(&h), vec![2, 3, 2]);
    h.add_value(65535u16);
    h.add_value(16383u16);
    h.add_value(16384u16);
    assert_eq!(counts(&h), vec![3, 4, 3]);
    assert_eq!(h.sum(), 10);
}

#[test]
fn one_bin_takes_everything() {
    let mut h = Histogram::new(1);
    h.add_value(0u8);
    h.add_value(255u8);
    h.add_value(100u8);
    assert_eq!(counts(&h), vec![3]);
}

#[test]
fn as_many_bins_as_values() {
    let mut h = Histogram::new(256);
    for v in 0..=255u8 {
        h.add_value(v);
    }
    assert!(counts(&h).iter().all(|n| *n == 1));
    assert_eq!(h.count(1), 256);
    assert_eq!(h.count(0), 0);
}

#[test]
fn incr_and_set_bin() {
    let mut h = Histogram::new(3);
    h.incr_bin(2);
    h.incr_bin(2);
    h.incr_bin(0);
    assert_eq!(counts(&h), vec![1, 0, 2]);
    assert_eq!(h.bin(2), 2);
    assert_eq!(h.sum(), 3);
    h.set_bin(1, 9);
    assert_eq!(counts(&h), vec![1, 9, 2]);
    assert_eq!(h.sum(), 12);
    h.set_bin(2, 0);
    assert_eq!(h.sum(), 10);
}

#[test]
fn min_and_max_pick_the_first_of_equals() {
    let h = filled(&[4, 1, 7, 1, 7]);
    assert_eq!(h.min_index(), 1);
    assert_eq!(h.max_index(), 2);
    let flat = filled(&[3, 3, 3]);
    assert_eq!(flat.min_index(), 0);
    assert_eq!(flat.max_index(), 0);
    let zeros = Histogram::new(3);
    assert_eq!(zeros.min_index(), 0);
    assert_eq!(zeros.max_index(), 0);
    let none = Histogram::new(0);
    assert_eq!(none.min_index(), 0);
    assert_eq!(none.max_index(), 0);
    let full = filled(&[usize::MAX]);
    assert_eq!(full.min_index(), 0);
    assert_eq!(full.max_index(), 0);
}

#[test]
fn count_counts_bins_with_a_value() {
    let h = filled(&[4, 1, 7, 1, 7, 7]);
    assert_eq!(h.count(7), 3);
    assert_eq!(h.count(1), 2);
    assert_eq!(h.count(4), 1);
    assert_eq!(h.count(0), 0);
}

#[test]
fn distribution_is_the_share_of_each_bin() {
    let h = filled(&[1, 2, 0, 1]);
    let shares: Vec<i64> = h.distribution().into_iter().map(|f| f.raw).collect();
    assert_eq!(shares, vec![SCALE / 4, SCALE / 2, 0, SCALE / 4]);
    let thirds = filled(&[1, 2]);
    let shares: Vec<i64> = thirds.distribution().into_iter().map(|f| f.raw).collect();
    assert_eq!(shares, vec![1431655765, 2863311531]);
}

#[test]
fn distribution_of_nothing_is_zero() {
    let h = Histogram::new(3);
    let shares: Vec<i64> = h.distribution().into_iter().map(|f| f.raw).collect();
    assert_eq!(shares, vec![0, 0, 0]);
}

#[test]
fn image_histogram_counts_each_channel() {
    let mut image: Image<u8, Rgb> = Image::new(2, 2);
    image.set(0, 0, 0, 255);
    image.set(1, 0, 0, 255);
    image.set(0, 1, 0, 128);
    image.set(1, 1, 1, 200);
    let hists = image.histogram(3);
    assert_eq!(hists.len(), 3);
    assert_eq!(counts(&hists[0]), vec![1, 1, 2]);
    assert_eq!(counts(&hists[1]), vec![3, 0, 1]);
    assert_eq!(counts(&hists[2]), vec![4, 0, 0]);
    assert!(hists.iter().all(|h| h.sum() == 4));
}
