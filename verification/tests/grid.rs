use convolve::row_view_mut;
use convolve::ConvolveError;
use convolve::Image;

fn sample() -> Image<i32> {
    Image::new(2, 3, vec![10, 11, 12, 20, 21, 22]).unwrap()
}

#[test]
fn new_accepts_matching_length() {
    let img = sample();
    assert_eq!(img.rows(), 2);
    assert_eq!(img.cols(), 3);
    assert_eq!(img.as_slice(), &[10, 11, 12, 20, 21, 22]);
}

#[test]
fn new_rejects_short_and_long_buffers() {
    assert_eq!(Image::new(2, 3, vec![1, 2, 3, 4, 5]), Err(ConvolveError::DimensionError));
    assert_eq!(Image::new(2, 3, vec![1, 2, 3, 4, 5, 6, 7]), Err(ConvolveError::DimensionError));
    assert_eq!(Image::<i32>::new(1, 1, vec![]), Err(ConvolveError::DimensionError));
}

#[test]
fn new_rejects_dimensions_whose_product_overflows() {
    assert_eq!(Image::new(usize::MAX, 2, vec![0u8; 4]), Err(ConvolveError::DimensionError));
}

#[test]
fn new_accepts_empty_grids() {
    let img = Image::<i32>::new(0, 5, vec![]).unwrap();
    assert_eq!(img.rows(), 0);
    assert_eq!(img.cols(), 5);
    assert!(img.as_slice().is_empty());
    let img = Image::<i32>::new(4, 0, vec![]).unwrap();
    assert_eq!(img.rows(), 4);
    assert_eq!(img.cols(), 0);
}

#[test]
fn filled_sets_every_cell() {
    let img = Image::filled(3, 2, 7i32).unwrap();
    assert_eq!(img.rows(), 3);
    assert_eq!(img.cols(), 2);
    assert_eq!(img.as_slice(), &[7, 7, 7, 7, 7, 7]);
}

#[test]
fn filled_rejects_dimensions_whose_product_overflows() {
    assert_eq!(Image::filled(usize::MAX, 2, 0u8), Err(ConvolveError::DimensionError));
}

#[test]
fn get_pixel_is_row_major() {
    let img = sample();
    assert_eq!(img.get_pixel(0, 0), Ok(&10));
    assert_eq!(img.get_pixel(0, 2), Ok(&12));
    assert_eq!(img.get_pixel(1, 0), Ok(&20));
    assert_eq!(img.get_pixel(1, 2), Ok(&22));
}

#[test]
fn get_pixel_rejects_positions_outside() {
    let img = sample();
    assert_eq!(img.get_pixel(2, 0), Err(ConvolveError::OutOfBounds));
    assert_eq!(img.get_pixel(0, 3), Err(ConvolveError::OutOfBounds));
    assert_eq!(img.get_pixel(usize::MAX, usize::MAX), Err(ConvolveError::OutOfBounds));
}

#[test]
fn get_pixel_mut_writes_one_cell() {
    let mut img = sample();
    *img.get_pixel_mut(1, 1).unwrap() = -5;
    assert_eq!(img.as_slice(), &[10, 11, 12, 20, -5, 22]);
    assert_eq!(img.rows(), 2);
    assert_eq!(img.cols(), 3);
}

#[test]
fn get_pixel_mut_rejects_positions_outside() {
    let mut img = sample();
    assert_eq!(img.get_pixel_mut(2, 0), Err(ConvolveError::OutOfBounds));
    assert_eq!(img.get_pixel_mut(1, 3), Err(ConvolveError::OutOfBounds));
    assert_eq!(img.as_slice(), &[10, 11, 12, 20, 21, 22]);
}

#[test]
fn row_is_a_view_of_cols_cells() {
    let img = sample();
    assert_eq!(img.row(0), Ok(&[10, 11, 12][..]));
    assert_eq!(img.row(1), Ok(&[20, 21, 22][..]));
}

#[test]
fn row_rejects_rows_outside() {
    let img = sample();
    assert_eq!(img.row(2), Err(ConvolveError::OutOfBounds));
    let empty = Image::<i32>::new(0, 3, vec![]).unwrap();
    assert_eq!(empty.row(0), Err(ConvolveError::OutOfBounds));
}

#[test]
fn row_of_a_grid_without_columns_is_empty() {
    let img = Image::<i32>::new(2, 0, vec![]).unwrap();
    assert_eq!(img.row(1), Ok(&[][..]));
}

#[test]
fn error_messages_differ() {
    assert_eq!(ConvolveError::DimensionError.message(), "grid dimensions do not fit");
    assert_eq!(ConvolveError::OutOfBounds.message(), "index outside the grid");
}

#[test]
fn row_view_mut_writes_one_row() {
    let mut cells = vec![1, 2, 3, 4, 5, 6];
    let view = row_view_mut(&mut cells, 3, 1).unwrap();
    assert_eq!(view, &[4, 5, 6]);
    view[0] = 40;
    view[2] = 60;
    assert_eq!(cells, [1, 2, 3, 40, 5, 60]);
    let view = row_view_mut(&mut cells, 2, 0).unwrap();
    view[1] = -2;
    assert_eq!(cells, [1, -2, 3, 40, 5, 60]);
}

#[test]
fn row_view_mut_rejects_rows_past_the_end() {
    let mut cells = vec![1, 2, 3, 4, 5, 6];
    assert_eq!(row_view_mut(&mut cells, 3, 2), Err(ConvolveError::OutOfBounds));
    assert_eq!(row_view_mut(&mut cells, 4, 1), Err(ConvolveError::OutOfBounds));
    assert_eq!(row_view_mut(&mut cells, 7, 0), Err(ConvolveError::OutOfBounds));
    assert_eq!(row_view_mut(&mut cells, 2, usize::MAX), Err(ConvolveError::OutOfBounds));
    assert_eq!(cells, [1, 2, 3, 4, 5, 6]);
}

#[test]
fn row_view_mut_of_a_buffer_without_columns_is_empty() {
    let mut cells = vec![1, 2];
    assert_eq!(row_view_mut(&mut cells, 0, 5), Ok(&mut [][..]));
    let mut none: Vec<i32> = vec![];
    assert_eq!(row_view_mut(&mut none, 0, 0), Ok(&mut [][..]));
    assert_eq!(row_view_mut(&mut none, 1, 0), Err(ConvolveError::OutOfBounds));
}
