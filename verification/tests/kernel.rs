use image2::fixed::SCALE;
use image2::kernel::{self, Kernel};
use image2::{Filter, Fixed, Gray, Image, Rgb};

fn fx(v: f64) -> Fixed {
    Fixed { raw: (v * 4294967296.0).round() as i64 }
}

fn gradient(width: usize, height: usize) -> Image<u16, Rgb> {
    let mut image: Image<u16, Rgb> = Image::new(width, height);
    for y in 0..height {
        for x in 0..width {
            image.set(x, y, 0, (x * 1000) as u16);
            image.set(x, y, 1, (y * 1300) as u16);
            image.set(x, y, 2, ((x + y) * 500) as u16);
        }
    }
    image
}

fn gaussian(n: usize, std: f64) -> Kernel {
    assert!(n % 2 != 0);
    let std2 = std * std;
    let a = 1.0 / (2.0 * std::f64::consts::PI * std2);
    let centre = (n / 2) as f64;
    let mut k = Kernel::create(n, n, |i, j| {
        let dx = i as f64 - centre;
        let dy = j as f64 - centre;
        let x = (dx * dx + dy * dy) / (2.0 * std2);
        fx(a * std::f64::consts::E.powf(-1.0 * x))
    });
    k.normalize();
    k
}

fn left_half_white() -> Image<u8, Gray> {
    let mut image: Image<u8, Gray> = Image::new(5, 5);
    for y in 0..5 {
        for x in 0..2 {
            image.set(x, y, 0, 255);
        }
    }
    image
}

#[test]
fn test_kernel() {
    let image = gradient(40, 30);
    let mut dest = image.new_like();
    let k = Kernel::from([[fx(-1.0), fx(-1.0), fx(-1.0)], [fx(-1.0), fx(8.0), fx(-1.0)], [
        fx(-1.0),
        fx(-1.0),
        fx(-1.0),
    ]]);
    k.eval(&mut dest, &[&image]);
    assert_eq!(dest.data.len(), image.data.len());
    // The image is linear in x and y, so away from the border the weights,
    // which sum to zero, cancel.
    for y in 1..29 {
        for x in 1..39 {
            for c in 0..3 {
                assert_eq!(dest.get(x, y, c), 0);
            }
        }
    }
    // At the left border the cell outside stands for the border pixel.
    let f = k.compute_at(0, 5, 0, &[&image]);
    let step = image.get_f(1, 5, 0).raw;
    assert_eq!(f.raw, -3 * step);
}

#[test]
fn test_gaussian_blur() {
    let mut image: Image<u8, Rgb> = Image::new(24, 16);
    for y in 0..16 {
        for x in 0..24 {
            image.set(x, y, 0, 200);
            image.set(x, y, 1, 100);
            image.set(x, y, 2, 50);
        }
    }
    let mut dest = image.new_like();
    let k = gaussian(5, 1.4);
    k.eval(&mut dest, &[&image]);
    for c in 0..3 {
        let mut before: u64 = 0;
        let mut after: u64 = 0;
        for y in 0..16 {
            for x in 0..24 {
                before += image.get(x, y, c) as u64;
                after += dest.get(x, y, c) as u64;
            }
        }
        let mean_before = before as f64 / (24.0 * 16.0);
        let mean_after = after as f64 / (24.0 * 16.0);
        assert!((mean_before - mean_after).abs() <= 1.0);
    }
}

#[test]
fn gaussian_weights_sum_to_one_after_normalize() {
    for n in [3usize, 5, 7, 9] {
        let k = gaussian(n, 1.4);
        assert_eq!(k.rows, n);
        assert_eq!(k.cols, n);
        let sum = k.sum();
        assert!((sum.raw - SCALE).abs() <= (n * n) as i64);
        assert!(k.data.iter().all(|row| row.iter().all(|w| w.raw > 0)));
        let centre = k.data[n / 2][n / 2];
        for j in 0..n {
            for i in 0..n {
                assert!(k.data[j][i].raw <= centre.raw);
                assert_eq!(k.data[j][i], k.data[n - 1 - j][n - 1 - i]);
                assert_eq!(k.data[j][i], k.data[i][j]);
            }
        }
    }
}

#[test]
fn test_sobel() {
    let image = left_half_white();
    let k = kernel::sobel();
    assert_eq!(k.a, kernel::sobel_x());
    assert_eq!(k.b, kernel::sobel_y());
    assert_eq!(k.compute_at(2, 2, 0, &[&image]).raw, 4 * SCALE);
    assert_eq!(k.compute_at(1, 2, 0, &[&image]).raw, 4 * SCALE);
    assert_eq!(k.compute_at(4, 2, 0, &[&image]).raw, 0);
    assert_eq!(k.compute_at(0, 0, 0, &[&image]).raw, 0);
    let mut dest = image.new_like();
    k.eval(&mut dest, &[&image]);
    for y in 0..5 {
        assert_eq!(dest.get(0, y, 0), 0);
        assert_eq!(dest.get(1, y, 0), 255);
        assert_eq!(dest.get(2, y, 0), 255);
        assert_eq!(dest.get(3, y, 0), 0);
        assert_eq!(dest.get(4, y, 0), 0);
    }
}

#[test]
fn sobel_kernels() {
    let x = kernel::sobel_x();
    let y = kernel::sobel_y();
    let rows = |k: &Kernel| -> Vec<Vec<i64>> {
        k.data.iter().map(|r| r.iter().map(|w| w.raw / SCALE).collect()).collect()
    };
    assert_eq!(rows(&x), vec![vec![1, 0, -1], vec![2, 0, -2], vec![1, 0, -1]]);
    assert_eq!(rows(&y), vec![vec![1, 2, 1], vec![0, 0, 0], vec![-1, -2, -1]]);
    assert_eq!(x.sum().raw, 0);
    let mut unchanged = x.clone();
    unchanged.normalize();
    assert_eq!(unchanged, x);
    let image = left_half_white();
    assert_eq!(x.compute_at(2, 2, 0, &[&image]).raw, 4 * SCALE);
    assert_eq!(x.compute_at(1, 2, 0, &[&image]).raw, 4 * SCALE);
    assert_eq!(y.compute_at(2, 2, 0, &[&image]).raw, 0);
}

#[test]
fn identity_kernel_reproduces_the_image() {
    let image = gradient(17, 9);
    let zero = Fixed::zero();
    let k = Kernel::from([[zero, zero, zero], [zero, Fixed::one(), zero], [zero, zero, zero]]);
    let mut dest = image.new_like();
    k.eval(&mut dest, &[&image]);
    assert_eq!(dest.data, image.data);
    let mut wide = Kernel::new(1, 5);
    wide.data[0][2] = Fixed::one();
    let mut dest = image.new_like();
    wide.eval(&mut dest, &[&image]);
    assert_eq!(dest.data, image.data);
}

#[test]
fn new_and_square_are_zero() {
    let k = Kernel::new(2, 3);
    assert_eq!((k.rows, k.cols), (2, 3));
    assert_eq!(k.data, vec![vec![Fixed::zero(); 3]; 2]);
    let s = Kernel::square(4);
    assert_eq!((s.rows, s.cols), (4, 4));
    assert_eq!(s.data, vec![vec![Fixed::zero(); 4]; 4]);
    assert_eq!(s.sum().raw, 0);
}

#[test]
fn create_calls_the_function_with_column_then_row() {
    let k = Kernel::create(2, 3, |i, j| Fixed { raw: (10 * j + i) as i64 });
    let raws: Vec<Vec<i64>> = k.data.iter().map(|r| r.iter().map(|w| w.raw).collect()).collect();
    assert_eq!(raws, vec![vec![0, 1, 2], vec![10, 11, 12]]);
}

#[test]
fn normalize_divides_by_the_sum() {
    let mut k = Kernel::from(vec![vec![Fixed::from_int(1), Fixed::from_int(2)], vec![
        Fixed::from_int(3),
        Fixed::from_int(2),
    ]]);
    assert_eq!(k.sum().raw, 8 * SCALE);
    k.normalize();
    let raws: Vec<Vec<i64>> = k.data.iter().map(|r| r.iter().map(|w| w.raw).collect()).collect();
    assert_eq!(raws, vec![vec![SCALE / 8, SCALE / 4], vec![3 * SCALE / 8, SCALE / 4]]);
    assert_eq!(k.sum().raw, SCALE);
}

#[test]
fn kernels_from_rows() {
    let a = Kernel::from(vec![vec![fx(1.0), fx(2.0), fx(3.0)], vec![fx(4.0), fx(5.0), fx(6.0)]]);
    assert_eq!((a.rows, a.cols), (2, 3));
    let r0 = [fx(1.0), fx(2.0), fx(3.0)];
    let r1 = [fx(4.0), fx(5.0), fx(6.0)];
    let rows: [&[Fixed]; 2] = [&r0, &r1];
    let b = Kernel::from(&rows[..]);
    assert_eq!(a, b);
    let c = Kernel::from([[fx(1.0), fx(2.0)], [fx(3.0), fx(4.0)]]);
    assert_eq!((c.rows, c.cols), (2, 2));
    assert_eq!(c.data, vec![vec![fx(1.0), fx(2.0)], vec![fx(3.0), fx(4.0)]]);
    let none = Kernel::from(Vec::<Vec<Fixed>>::new());
    assert_eq!((none.rows, none.cols), (0, 0));
}

#[test]
fn window_is_clamped_to_the_edge() {
    let mut image: Image<u8, Gray> = Image::new(3, 1);
    image.set(0, 0, 0, 255);
    let k = Kernel::from(vec![vec![Fixed::one(), Fixed::zero(), Fixed::zero()]]);
    assert_eq!(k.compute_at(0, 0, 0, &[&image]).raw, SCALE);
    assert_eq!(k.compute_at(1, 0, 0, &[&image]).raw, SCALE);
    assert_eq!(k.compute_at(2, 0, 0, &[&image]).raw, 0);
    let tall = Kernel::from(vec![vec![Fixed::one()], vec![Fixed::one()], vec![Fixed::one()]]);
    assert_eq!(tall.compute_at(0, 0, 0, &[&image]).raw, 3 * SCALE);
}

#[test]
fn pairs_of_kernels_combine_cell_by_cell() {
    let mut image: Image<u8, Gray> = Image::new(1, 1);
    image.set(0, 0, 0, 255);
    let row = |a: i32, b: i32, c: i32| {
        Kernel::from(vec![vec![Fixed::from_int(a), Fixed::from_int(b), Fixed::from_int(c)]])
    };
    let a = || row(6, 5, 1);
    let b = || row(4, 2, 1);
    let sum = a() + b();
    assert_eq!(sum.compute_at(0, 0, 0, &[&image]).raw, 19 * SCALE);
    let difference = a() - b();
    assert_eq!(difference.compute_at(0, 0, 0, &[&image]).raw, 5 * SCALE);
    let product = a() * b();
    assert_eq!(product.compute_at(0, 0, 0, &[&image]).raw, 35 * SCALE);
    let quotient = a() / b();
    assert_eq!(quotient.compute_at(0, 0, 0, &[&image]).raw, 5 * SCALE);
    let remainder = a() % b();
    assert_eq!(remainder.compute_at(0, 0, 0, &[&image]).raw, 3 * SCALE);
    let mut dest = image.new_like();
    quotient.eval(&mut dest, &[&image]);
    assert_eq!(dest.get(0, 0, 0), 255);
    let wide = a() + Kernel::new(3, 5);
    assert_eq!(wide.compute_at(0, 0, 0, &[&image]).raw, 12 * SCALE);
}

#[test]
fn quotient_over_an_empty_response_is_zero() {
    let image: Image<u8, Gray> = Image::new(1, 1);
    let quotient = Kernel::from(vec![vec![Fixed::one()]]) / Kernel::from(vec![vec![Fixed::one()]]);
    assert_eq!(quotient.compute_at(0, 0, 0, &[&image]).raw, 0);
}

#[test]
fn averaging_kernel_keeps_a_constant_channel() {
    let mut image: Image<u8, Rgb> = Image::new(6, 5);
    for y in 0..5 {
        for x in 0..6 {
            image.set(x, y, 0, 200);
            image.set(x, y, 1, 77);
            image.set(x, y, 2, (x * 40) as u8);
        }
    }
    let q = Fixed { raw: SCALE / 4 };
    let e = Fixed { raw: SCALE / 8 };
    let s = Fixed { raw: SCALE / 16 };
    let k = Kernel::from([[s, e, s], [e, q, e], [s, e, s]]);
    assert_eq!(k.sum().raw, SCALE);
    for y in 0..5 {
        for x in 0..6 {
            for c in 0..2 {
                let r = k.compute_at(x, y, c, &[&image]).raw;
                let v = image.get_f(x, y, c).raw;
                assert!(2 * (r - v).abs() <= 9);
            }
        }
    }
    let mut dest = image.new_like();
    k.eval(&mut dest, &[&image]);
    for y in 0..5 {
        for x in 0..6 {
            assert_eq!(dest.get(x, y, 0), 200);
            assert_eq!(dest.get(x, y, 1), 77);
        }
    }
}
