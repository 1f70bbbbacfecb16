use mandelbrot::chessboard::{draw_square, BOARD_SIDE};
use mandelbrot::color::Color;

/// Tests that the generated image has the correct dimensions.
/// It checks that for a given number of cells, the chessboard image size is 500x500 pixels.
#[test]
fn test_image_size() {
    let cell_count = 10; // Example value
    let img = draw_square(cell_count);
    assert_eq!(img.dimensions(), (500, 500));
}

/// Tests that each square in the chessboard has the correct size and color.
/// It verifies that each square is consistently sized based on the number of cells per side
/// and alternates colors correctly in a checkerboard pattern.
#[test]
fn test_square_size() {
    let cell_count = 10;
    let img = draw_square(cell_count);
    let square_size = 500 / cell_count;

    // Check each square for correct size and color
    for x in 0..cell_count {
        let start_x = x * square_size;
        for y in 0..cell_count {
            let start_y = y * square_size;
            let expected_color = if (x + y) % 2 == 0 {
                Color::new(255, 255, 255)
            } else {
                Color::new(0, 0, 0)
            };

            // Check all pixels in the current square
            for i in start_x..start_x + square_size {
                for j in start_y..start_y + square_size {
                    assert_eq!(img.get_pixel(i, j), Some(expected_color), "Mismatch at ({}, {})", i, j);
                }
            }
        }
    }
}

/// Tests the checkerboard color pattern of the chessboard.
/// This test uses a minimal board size of 2x2 cells to ensure that the colors alternate correctly
/// across the chessboard, forming a valid checkerboard pattern.
#[test]
fn test_checkerboard_pattern() {
    let cell_count = 2; // Minimal non-trivial board
    let img = draw_square(cell_count);
    let square_size = 500 / cell_count;

    // Check that the checkerboard pattern alternates correctly
    for i in 0..cell_count {
        for j in 0..cell_count {
            let expected_color = if (i + j) % 2 == 0 {
                Color::new(255, 255, 255)
            } else {
                Color::new(0, 0, 0)
            };
            for x in 0..square_size {
                for y in 0..square_size {
                    assert_eq!(
                        img.get_pixel((i * square_size + x) as u32, (j * square_size + y) as u32),
                        Some(expected_color)
                    );
                }
            }
        }
    }
}

#[test]
fn single_cell_board_is_white() {
    let img = draw_square(1);
    for x in 0..BOARD_SIDE {
        for y in 0..BOARD_SIDE {
            assert_eq!(img.get_pixel(x, y), Some(Color::new(255, 255, 255)));
        }
    }
}

#[test]
fn board_leaves_black_margin_where_side_is_no_multiple() {
    // 500 / 3 = 166: the squares cover 498 pixels, two columns and rows stay black.
    let img = draw_square(3);
    assert_eq!(img.dimensions(), (500, 500));
    let white = Color::new(255, 255, 255);
    let black = Color::new(0, 0, 0);
    assert_eq!(img.get_pixel(0, 0), Some(white));
    assert_eq!(img.get_pixel(165, 165), Some(white));
    assert_eq!(img.get_pixel(166, 0), Some(black));
    assert_eq!(img.get_pixel(166, 166), Some(white));
    assert_eq!(img.get_pixel(332, 0), Some(white));
    assert_eq!(img.get_pixel(497, 497), Some(white));
    for k in 0..BOARD_SIDE {
        assert_eq!(img.get_pixel(498, k), Some(black));
        assert_eq!(img.get_pixel(499, k), Some(black));
        assert_eq!(img.get_pixel(k, 498), Some(black));
        assert_eq!(img.get_pixel(k, 499), Some(black));
    }
}

#[test]
fn board_with_more_cells_than_pixels_is_black() {
    let img = draw_square(501);
    assert_eq!(img.dimensions(), (500, 500));
    for x in 0..BOARD_SIDE {
        for y in 0..BOARD_SIDE {
            assert_eq!(img.get_pixel(x, y), Some(Color::new(0, 0, 0)));
        }
    }
    let huge = draw_square(u32::MAX);
    assert_eq!(huge.get_pixel(0, 0), Some(Color::new(0, 0, 0)));
    assert_eq!(huge.get_pixel(499, 499), Some(Color::new(0, 0, 0)));
}

#[test]
fn board_of_five_hundred_cells_alternates_by_pixel() {
    let img = draw_square(500);
    for x in 0..BOARD_SIDE {
        for y in 0..BOARD_SIDE {
            let expected = if (x + y) % 2 == 0 {
                Color::new(255, 255, 255)
            } else {
                Color::new(0, 0, 0)
            };
            assert_eq!(img.get_pixel(x, y), Some(expected));
        }
    }
}

#[test]
fn pixels_outside_the_grid_are_none() {
    let img = draw_square(10);
    assert_eq!(img.get_pixel(500, 0), None);
    assert_eq!(img.get_pixel(0, 500), None);
    assert_eq!(img.get_pixel(u32::MAX, u32::MAX), None);
}

#[test]
fn raw_bytes_are_row_major_rgb() {
    let img = draw_square(4);
    let (width, height) = img.dimensions();
    let raw = img.as_raw();
    assert_eq!(raw.len(), 3 * 500 * 500);
    for y in 0..height {
        for x in 0..width {
            let at = 3 * (y as usize * width as usize + x as usize);
            let color = img.get_pixel(x, y).unwrap();
            assert_eq!((raw[at], raw[at + 1], raw[at + 2]), (color.r, color.g, color.b));
        }
    }
    // Column 130 of row 0 lies in the second square of the top row: black.
    assert_eq!(img.get_pixel(130, 0), Some(Color::new(0, 0, 0)));
    assert_eq!(raw[3 * 130], 0);
    // Column 0 of row 130 lies in the first square of the second row: black too.
    assert_eq!(raw[3 * (130 * 500)], 0);
    // Column 130 of row 130 is white again.
    assert_eq!(raw[3 * (130 * 500 + 130)], 255);
}
