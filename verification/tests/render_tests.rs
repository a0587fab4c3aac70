use pacman_maze::color::Color;
use pacman_maze::framebuffer::FrameBuffer;
use pacman_maze::maze::Maze;
use pacman_maze::render::{cell_to_color, draw_cell, paint_floor, render_maze, stake_rows};

fn maze(rows: &[&str]) -> Maze {
    rows.iter().map(|r| r.chars().collect()).collect()
}

fn coloured(fb: &FrameBuffer, c: Color) -> Vec<(i32, i32)> {
    let mut out = Vec::new();
    for y in 0..fb.image_height() {
        for x in 0..fb.image_width() {
            if fb.get_pixel(x, y) == c {
                out.push((x, y));
            }
        }
    }
    out
}

#[test]
fn cells_have_their_minimap_colours() {
    assert_eq!(cell_to_color('+'), Color::wall());
    assert_eq!(cell_to_color('-'), Color::wall());
    assert_eq!(cell_to_color('|'), Color::wall());
    assert_eq!(cell_to_color('g'), Color::green());
    assert_eq!(cell_to_color('p'), Color::yellow());
    assert_eq!(cell_to_color('c'), Color::white());
    assert_eq!(cell_to_color('e'), Color::black());
    assert_eq!(cell_to_color(' '), Color::black());
}

#[test]
fn a_cell_is_drawn_as_its_square() {
    let mut fb = FrameBuffer::new(8, 8, Color::black(), 1);
    draw_cell(&mut fb, 2, 3, 3, 'g');
    let mut expected = Vec::new();
    for y in 3..6 {
        for x in 2..5 {
            expected.push((x, y));
        }
    }
    assert_eq!(coloured(&fb, Color::green()), expected);
    assert_eq!(coloured(&fb, Color::black()).len(), 64 - 9);
}

#[test]
fn an_empty_corridor_draws_nothing() {
    let mut fb = FrameBuffer::new(4, 4, Color::green(), 1);
    draw_cell(&mut fb, 0, 0, 4, ' ');
    assert_eq!(coloured(&fb, Color::green()).len(), 16);
}

#[test]
fn a_square_is_cut_at_the_edges_of_the_picture() {
    let mut fb = FrameBuffer::new(4, 4, Color::black(), 1);
    draw_cell(&mut fb, 3, 2, 5, 'p');
    assert_eq!(coloured(&fb, Color::yellow()), vec![(3, 2), (3, 3)]);
    let mut fb2 = FrameBuffer::new(4, 4, Color::black(), 1);
    draw_cell(&mut fb2, 10, 10, 3, '+');
    assert_eq!(coloured(&fb2, Color::black()).len(), 16);
}

#[test]
fn a_square_of_side_zero_draws_nothing() {
    let mut fb = FrameBuffer::new(4, 4, Color::black(), 1);
    draw_cell(&mut fb, 1, 1, 0, '+');
    assert_eq!(coloured(&fb, Color::black()).len(), 16);
}

#[test]
fn the_minimap_draws_every_cell_then_the_marker() {
    // Two rows of two cells of side 20: a wall, a coin, the goal, a corridor.
    let m = maze(&["+c", "g "]);
    let mut fb = FrameBuffer::new(40, 40, Color::black(), 1);
    render_maze(&mut fb, &m, 20, 30, 30);
    // The wall fills its block.
    for y in 0..20 {
        for x in 0..20 {
            assert_eq!(fb.get_pixel(x, y), Color::wall());
        }
    }
    // The coin is a 5 by 5 square ten units down its block.
    let mut coin = Vec::new();
    for y in 10..15 {
        for x in 20..25 {
            coin.push((x, y));
        }
    }
    assert_eq!(coloured(&fb, Color::white()), coin);
    // The goal fills its block.
    assert_eq!(coloured(&fb, Color::green()).len(), 400);
    assert_eq!(fb.get_pixel(0, 39), Color::green());
    // The marker is a yellow square of side 10 at (30, 30).
    let mut marker = Vec::new();
    for y in 30..40 {
        for x in 30..40 {
            marker.push((x, y));
        }
    }
    assert_eq!(coloured(&fb, Color::yellow()), marker);
    assert_eq!(fb.get_pixel(25, 25), Color::black());
}

#[test]
fn the_marker_is_drawn_over_the_maze() {
    let m = maze(&["++", "++"]);
    let mut fb = FrameBuffer::new(20, 20, Color::black(), 1);
    render_maze(&mut fb, &m, 10, 5, 5);
    for y in 5..15 {
        for x in 5..15 {
            assert_eq!(fb.get_pixel(x, y), Color::yellow());
        }
    }
    assert_eq!(fb.get_pixel(0, 0), Color::wall());
    assert_eq!(fb.get_pixel(19, 19), Color::wall());
}

#[test]
fn wall_slices_are_held_inside_the_picture() {
    let fb = FrameBuffer::new(10, 100, Color::black(), 1);
    assert_eq!(stake_rows(&fb, -20, 150), (0, 99));
    assert_eq!(stake_rows(&fb, 30, 70), (30, 70));
    assert_eq!(stake_rows(&fb, 0, 99), (0, 99));
    assert_eq!(stake_rows(&fb, 5, -3), (5, (-3isize) as usize));
}

#[test]
fn the_floor_is_the_lower_half_of_the_picture() {
    let mut fb = FrameBuffer::new(3, 5, Color::black(), 1);
    paint_floor(&mut fb, Color::floor());
    for y in 0..5 {
        for x in 0..3 {
            let expected = if y >= 2 { Color::floor() } else { Color::black() };
            assert_eq!(fb.get_pixel(x, y), expected);
        }
    }
    assert_eq!(Color::floor(), Color::new(0x5c, 0x95, 0x99, 255));
}
