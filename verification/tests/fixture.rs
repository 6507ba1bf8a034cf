use convolve::counting_kernel;
use convolve::cycling_image;
use convolve::get_image_and_kernel;
use convolve::fixture::BENCHMARK_COLS;
use convolve::fixture::BENCHMARK_KERNEL_SIZE;
use convolve::fixture::BENCHMARK_ROWS;
use convolve::naive_convolve;
use convolve::ConvolveError;

#[test]
fn cycling_image_counts_to_99_and_starts_over() {
    let img = cycling_image(3, 70).unwrap();
    assert_eq!((img.rows(), img.cols()), (3, 70));
    let cells = img.as_slice();
    assert_eq!(cells.len(), 210);
    assert_eq!(cells[0], 0);
    assert_eq!(cells[99], 99);
    assert_eq!(cells[100], 0);
    assert_eq!(cells[209], 9);
    for (i, cell) in cells.iter().enumerate() {
        assert_eq!(*cell, (i % 100) as i32);
    }
    assert_eq!(img.get_pixel(1, 30), Ok(&0));
    assert_eq!(img.get_pixel(2, 69), Ok(&9));
}

#[test]
fn cycling_image_may_be_empty() {
    let img = cycling_image(0, 9).unwrap();
    assert_eq!((img.rows(), img.cols()), (0, 9));
    assert!(img.as_slice().is_empty());
}

#[test]
fn cycling_image_rejects_dimensions_whose_product_overflows() {
    assert_eq!(cycling_image(usize::MAX, 2), Err(ConvolveError::DimensionError));
}

#[test]
fn counting_kernel_counts_up_from_zero() {
    let ker = counting_kernel(3).unwrap();
    assert_eq!((ker.rows(), ker.cols()), (3, 3));
    assert_eq!(ker.as_slice(), &[0, 1, 2, 3, 4, 5, 6, 7, 8]);
    let none = counting_kernel(0).unwrap();
    assert_eq!((none.rows(), none.cols()), (0, 0));
}

#[test]
fn counting_kernel_rejects_sides_whose_values_leave_32_bits() {
    assert_eq!(counting_kernel(46341), Err(ConvolveError::DimensionError));
    assert_eq!(counting_kernel(usize::MAX), Err(ConvolveError::DimensionError));
}

#[test]
fn benchmark_sizes() {
    assert_eq!(BENCHMARK_ROWS, 7680 * 4);
    assert_eq!(BENCHMARK_COLS, 4320 * 4);
    assert_eq!(BENCHMARK_KERNEL_SIZE, 3);
}

#[test]
fn last_cell_of_a_small_benchmark_run() {
    // The last window of a 4-by-100 cycling grid is rows 1..=3, columns 97..=99:
    // 97 98 99 in each row, against 0 1 2 / 3 4 5 / 6 7 8.
    let img = cycling_image(4, 100).unwrap();
    let ker = counting_kernel(3).unwrap();
    let out = naive_convolve(&img, &ker).unwrap();
    let expected = (98 + 2 * 99) + (3 * 97 + 4 * 98 + 5 * 99) + (6 * 97 + 7 * 98 + 8 * 99);
    assert_eq!(out.as_slice().last(), Some(&expected));
}

#[test]
fn benchmark_fixture_has_the_documented_shape_and_contents() {
    let (image, kernel) = get_image_and_kernel();
    assert_eq!((image.rows(), image.cols()), (30720, 17280));
    let cells = image.as_slice();
    assert_eq!(cells.len(), 530841600);
    assert_eq!(&cells[..3], &[0, 1, 2]);
    assert_eq!(&cells[98..102], &[98, 99, 0, 1]);
    assert_eq!(cells[530841599], 99);
    assert_eq!(image.get_pixel(1, 0), Ok(&80));
    assert_eq!((kernel.rows(), kernel.cols()), (3, 3));
    assert_eq!(kernel.as_slice(), &[0, 1, 2, 3, 4, 5, 6, 7, 8]);
}
