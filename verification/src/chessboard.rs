//! A chessboard of `cell_count` by `cell_count` squares on a fixed canvas.

use vstd::prelude::*;
use vstd::arithmetic::div_mod::{
    lemma_div_pos_is_pos, lemma_fundamental_div_mod, lemma_fundamental_div_mod_converse,
    lemma_mod_bound,
};
use vstd::arithmetic::mul::{lemma_mul_inequality, lemma_mul_is_commutative};
use crate::canvas::{new_grid, put_pixel, PixelGrid};
use crate::color::Color;

verus! {

/// Width and height of the canvas that the board is drawn on, in pixels.
pub const BOARD_SIDE: u32 = 500;

/// Side of one square of the board, in pixels: the canvas side divided by the
/// number of cells, rounded down.
pub open spec fn square_side(cell_count: u32) -> int {
    BOARD_SIDE as int / cell_count as int
}

/// The colour of pixel `(x, y)` of the board with `cell_count` cells per side.
///
/// The squares fill the canvas from the top left corner. A square is white
/// when the sum of its column and row is even and black when it is odd. The
/// margin that the squares leave at the right and at the bottom, where the
/// canvas side is no multiple of `cell_count`, is black.
pub open spec fn chessboard_color(cell_count: u32, x: u32, y: u32) -> Color {
    let side = square_side(cell_count);
    let on_board = side > 0 && x < cell_count * side && y < cell_count * side;
    if on_board && (x as int / side + y as int / side) % 2 == 0 {
        Color::white()
    } else {
        Color::black()
    }
}

/// Whether pixel `(px, py)` lies before the position `(i, j, x, y)` in the
/// order in which the squares are filled: square column `i`, square row `j`,
/// then column `x` and row `y` inside the square.
spec fn drawn_before(side: int, i: int, j: int, x: int, y: int, px: int, py: int) -> bool {
    let ci = px / side;
    let cj = py / side;
    let ox = px % side;
    let oy = py % side;
    ci < i || (ci == i && (cj < j || (cj == j && (ox < x || (ox == x && oy < y)))))
}

/// The canvas while the board is being drawn: the pixels before position
/// `(i, j, x, y)` have their final colour, the others are still black.
spec fn partly_drawn(image: PixelGrid, cell_count: u32, i: int, j: int, x: int, y: int) -> bool {
    &&& image.width() == BOARD_SIDE
    &&& image.height() == BOARD_SIDE
    &&& forall|px: u32, py: u32|
        px < BOARD_SIDE && py < BOARD_SIDE ==> #[trigger] image.pixel(px, py) == if drawn_before(
            square_side(cell_count),
            i,
            j,
            x,
            y,
            px as int,
            py as int,
        ) {
            chessboard_color(cell_count, px, py)
        } else {
            Color::black()
        }
}

/// Quotient and remainder of a coordinate by the square side.
proof fn lemma_cell_split(side: int, p: int)
    requires
        side > 0,
        p >= 0,
    ensures
        0 <= p / side,
        0 <= p % side < side,
        p == (p / side) * side + p % side,
{
    lemma_fundamental_div_mod(p, side);
    lemma_mod_bound(p, side);
    lemma_div_pos_is_pos(p, side);
    lemma_mul_is_commutative(side, p / side);
}

/// The squares never reach beyond the canvas.
proof fn lemma_board_fits(cell_count: u32)
    requires
        cell_count > 0,
    ensures
        0 <= cell_count * square_side(cell_count) <= BOARD_SIDE,
{
    lemma_cell_split(cell_count as int, BOARD_SIDE as int);
    lemma_mul_is_commutative(cell_count as int, square_side(cell_count));
}

/// A pixel of square column `c` lies left of the end of the board.
proof fn lemma_cell_on_board(cell_count: u32, side: int, c: int, o: int)
    requires
        side > 0,
        0 <= c < cell_count,
        0 <= o < side,
    ensures
        0 <= c * side + o < cell_count * side,
        (c * side + o) / side == c,
        (c * side + o) % side == o,
{
    lemma_mul_inequality(c + 1, cell_count as int, side);
    lemma_mul_inequality(0, c, side);
    assert((c + 1) * side == c * side + side) by (nonlinear_arith);
    lemma_fundamental_div_mod_converse(c * side + o, side, c, o);
}

/// A pixel whose square column is `cell_count` or more lies off the board.
proof fn lemma_cell_off_board(cell_count: u32, side: int, p: int)
    requires
        side > 0,
        p >= 0,
        p / side >= cell_count,
    ensures
        p >= cell_count * side,
{
    lemma_cell_split(side, p);
    lemma_mul_inequality(cell_count as int, p / side, side);
}

proof fn lemma_nothing_drawn(image: PixelGrid, cell_count: u32)
    requires
        cell_count > 0,
        square_side(cell_count) > 0,
        image.width() == BOARD_SIDE,
        image.height() == BOARD_SIDE,
        forall|px: u32, py: u32|
            px < BOARD_SIDE && py < BOARD_SIDE ==> #[trigger] image.pixel(px, py)
                == Color::black(),
    ensures
        partly_drawn(image, cell_count, 0, 0, 0, 0),
{
    let side = square_side(cell_count);
    assert forall|px: u32, py: u32| px < BOARD_SIDE && py < BOARD_SIDE implies !drawn_before(
        side,
        0,
        0,
        0,
        0,
        px as int,
        py as int,
    ) by {
        lemma_cell_split(side, px as int);
        lemma_cell_split(side, py as int);
    }
}

proof fn lemma_pixel_drawn(
    before: PixelGrid,
    after: PixelGrid,
    cell_count: u32,
    i: int,
    j: int,
    x: int,
    y: int,
    color: Color,
)
    requires
        cell_count > 0,
        square_side(cell_count) > 0,
        0 <= i < cell_count,
        0 <= j < cell_count,
        0 <= x < square_side(cell_count),
        0 <= y < square_side(cell_count),
        color == if (i + j) % 2 == 0 {
            Color::white()
        } else {
            Color::black()
        },
        partly_drawn(before, cell_count, i, j, x, y),
        after.width() == before.width(),
        after.height() == before.height(),
        0 <= i * square_side(cell_count) + x < BOARD_SIDE,
        0 <= j * square_side(cell_count) + y < BOARD_SIDE,
        crate::canvas::grid_pixels(after) == crate::canvas::grid_pixels(before).insert(
            (
                (i * square_side(cell_count) + x) as u32,
                (j * square_side(cell_count) + y) as u32,
            ),
            color,
        ),
    ensures
        partly_drawn(after, cell_count, i, j, x, y + 1),
{
    let side = square_side(cell_count);
    let qx = i * side + x;
    let qy = j * side + y;
    lemma_cell_on_board(cell_count, side, i, x);
    lemma_cell_on_board(cell_count, side, j, y);
    assert forall|px: u32, py: u32| px < BOARD_SIDE && py < BOARD_SIDE implies #[trigger] after.pixel(
        px,
        py,
    ) == if drawn_before(side, i, j, x, y + 1, px as int, py as int) {
        chessboard_color(cell_count, px, py)
    } else {
        Color::black()
    } by {
        lemma_cell_split(side, px as int);
        lemma_cell_split(side, py as int);
        if px == qx && py == qy {
            assert(drawn_before(side, i, j, x, y + 1, px as int, py as int));
            assert(chessboard_color(cell_count, px, py) == color);
        } else {
            assert(after.pixel(px, py) == before.pixel(px, py));
            assert(drawn_before(side, i, j, x, y + 1, px as int, py as int) == drawn_before(
                side,
                i,
                j,
                x,
                y,
                px as int,
                py as int,
            ));
        }
    }
}

proof fn lemma_column_drawn(image: PixelGrid, cell_count: u32, i: int, j: int, x: int)
    requires
        square_side(cell_count) > 0,
        partly_drawn(image, cell_count, i, j, x, square_side(cell_count)),
    ensures
        partly_drawn(image, cell_count, i, j, x + 1, 0),
{
    let side = square_side(cell_count);
    assert forall|px: u32, py: u32| px < BOARD_SIDE && py < BOARD_SIDE implies drawn_before(
        side,
        i,
        j,
        x + 1,
        0,
        px as int,
        py as int,
    ) == drawn_before(side, i, j, x, side, px as int, py as int) by {
        lemma_cell_split(side, px as int);
        lemma_cell_split(side, py as int);
    }
}

proof fn lemma_square_drawn(image: PixelGrid, cell_count: u32, i: int, j: int)
    requires
        square_side(cell_count) > 0,
        partly_drawn(image, cell_count, i, j, square_side(cell_count), 0),
    ensures
        partly_drawn(image, cell_count, i, j + 1, 0, 0),
{
    let side = square_side(cell_count);
    assert forall|px: u32, py: u32| px < BOARD_SIDE && py < BOARD_SIDE implies drawn_before(
        side,
        i,
        j + 1,
        0,
        0,
        px as int,
        py as int,
    ) == drawn_before(side, i, j, side, 0, px as int, py as int) by {
        lemma_cell_split(side, px as int);
        lemma_cell_split(side, py as int);
    }
}

proof fn lemma_band_drawn(image: PixelGrid, cell_count: u32, i: int)
    requires
        cell_count > 0,
        square_side(cell_count) > 0,
        partly_drawn(image, cell_count, i, cell_count as int, 0, 0),
    ensures
        partly_drawn(image, cell_count, i + 1, 0, 0, 0),
{
    let side = square_side(cell_count);
    assert forall|px: u32, py: u32| px < BOARD_SIDE && py < BOARD_SIDE implies #[trigger] image.pixel(
        px,
        py,
    ) == if drawn_before(side, i + 1, 0, 0, 0, px as int, py as int) {
        chessboard_color(cell_count, px, py)
    } else {
        Color::black()
    } by {
        lemma_cell_split(side, px as int);
        lemma_cell_split(side, py as int);
        if py as int / side >= cell_count {
            lemma_cell_off_board(cell_count, side, py as int);
        }
    }
}

proof fn lemma_board_drawn(image: PixelGrid, cell_count: u32)
    requires
        cell_count > 0,
        square_side(cell_count) > 0,
        partly_drawn(image, cell_count, cell_count as int, 0, 0, 0),
    ensures
        forall|px: u32, py: u32|
            px < BOARD_SIDE && py < BOARD_SIDE ==> #[trigger] image.pixel(px, py)
                == chessboard_color(cell_count, px, py),
{
    let side = square_side(cell_count);
    assert forall|px: u32, py: u32| px < BOARD_SIDE && py < BOARD_SIDE implies #[trigger] image.pixel(
        px,
        py,
    ) == chessboard_color(cell_count, px, py) by {
        lemma_cell_split(side, px as int);
        lemma_cell_split(side, py as int);
        if px as int / side >= cell_count {
            lemma_cell_off_board(cell_count, side, px as int);
        }
    }
}

/// Draws a chessboard with `cell_count` squares per side on a canvas of
/// `BOARD_SIDE` by `BOARD_SIDE` pixels.
///
/// With more cells than the canvas has pixels per side the squares have no
/// size and the canvas stays black.
pub fn draw_square(cell_count: u32) -> (image: PixelGrid)
    requires
        cell_count > 0,
    ensures
        image.width() == BOARD_SIDE,
        image.height() == BOARD_SIDE,
        forall|x: u32, y: u32|
            x < BOARD_SIDE && y < BOARD_SIDE ==> #[trigger] image.pixel(x, y) == chessboard_color(
                cell_count,
                x,
                y,
            ),
{
    let size: u32 = BOARD_SIDE;
    let square_size: u32 = size / cell_count;
    let mut image = new_grid(size, size);
    if square_size == 0 {
        return image;
    }
    proof {
        lemma_board_fits(cell_count);
        lemma_nothing_drawn(image, cell_count);
    }
    let mut i: u32 = 0;
    while i < cell_count
        invariant
            cell_count > 0,
            square_size == square_side(cell_count),
            square_size > 0,
            cell_count * square_size <= BOARD_SIDE,
            i <= cell_count,
            partly_drawn(image, cell_count, i as int, 0, 0, 0),
        decreases cell_count - i,
    {
        let mut j: u32 = 0;
        while j < cell_count
            invariant
                cell_count > 0,
                square_size == square_side(cell_count),
                square_size > 0,
                cell_count * square_size <= BOARD_SIDE,
                i < cell_count,
                j <= cell_count,
                partly_drawn(image, cell_count, i as int, j as int, 0, 0),
            decreases cell_count - j,
        {
            proof {
                lemma_cell_on_board(cell_count, square_size as int, i as int, 0);
                lemma_cell_on_board(cell_count, square_size as int, j as int, 0);
            }
            let color = if (i + j) % 2 == 0 {
                Color::new(255, 255, 255)
            } else {
                Color::new(0, 0, 0)
            };
            let mut x: u32 = 0;
            while x < square_size
                invariant
                    cell_count > 0,
                    square_size == square_side(cell_count),
                    square_size > 0,
                    cell_count * square_size <= BOARD_SIDE,
                    i < cell_count,
                    j < cell_count,
                    x <= square_size,
                    color == if (i + j) % 2 == 0 {
                        Color::white()
                    } else {
                        Color::black()
                    },
                    partly_drawn(image, cell_count, i as int, j as int, x as int, 0),
                decreases square_size - x,
            {
                let mut y: u32 = 0;
                while y < square_size
                    invariant
                        cell_count > 0,
                        square_size == square_side(cell_count),
                        square_size > 0,
                        cell_count * square_size <= BOARD_SIDE,
                        i < cell_count,
                        j < cell_count,
                        x < square_size,
                        y <= square_size,
                        color == if (i + j) % 2 == 0 {
                            Color::white()
                        } else {
                            Color::black()
                        },
                        partly_drawn(image, cell_count, i as int, j as int, x as int, y as int),
                    decreases square_size - y,
                {
                    proof {
                        lemma_cell_on_board(cell_count, square_size as int, i as int, x as int);
                        lemma_cell_on_board(cell_count, square_size as int, j as int, y as int);
                    }
                    let px = i * square_size + x;
                    let py = j * square_size + y;
                    let ghost before = image;
                    put_pixel(&mut image, px, py, color);
                    proof {
                        lemma_pixel_drawn(
                            before,
                            image,
                            cell_count,
                            i as int,
                            j as int,
                            x as int,
                            y as int,
                            color,
                        );
                    }
                    y += 1;
                }
                proof {
                    lemma_column_drawn(image, cell_count, i as int, j as int, x as int);
                }
                x += 1;
            }
            proof {
                lemma_square_drawn(image, cell_count, i as int, j as int);
            }
            j += 1;
        }
        proof {
            lemma_band_drawn(image, cell_count, i as int);
        }
        i += 1;
    }
    proof {
        lemma_board_drawn(image, cell_count);
    }
    image
}

} // verus!
