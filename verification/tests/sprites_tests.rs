use pacman_maze::color::Color;
use pacman_maze::framebuffer::FrameBuffer;
use pacman_maze::maze::Maze;
use pacman_maze::sprites::{plot_sprite_texel, sprite_cells, sprite_rect, texel_coord, SpriteCell, SpriteRect};

fn maze(rows: &[&str]) -> Maze {
    rows.iter().map(|r| r.chars().collect()).collect()
}

#[test]
fn sprites_are_the_coins_and_enemies_row_by_row() {
    let m = maze(&["+c+e", "|  |", "ec+c"]);
    let cells = sprite_cells(&m);
    assert_eq!(
        cells,
        vec![
            SpriteCell { row: 0, col: 1, kind: 'c' },
            SpriteCell { row: 0, col: 3, kind: 'e' },
            SpriteCell { row: 2, col: 0, kind: 'e' },
            SpriteCell { row: 2, col: 1, kind: 'c' },
            SpriteCell { row: 2, col: 3, kind: 'c' },
        ]
    );
    assert!(sprite_cells(&maze(&["+-+", "| |"])).is_empty());
}

#[test]
fn sprite_block_is_centred_and_cut_at_the_edges() {
    let fb = FrameBuffer::new(100, 60, Color::black(), 1);
    assert_eq!(sprite_rect(&fb, 50, 20), SpriteRect { start_x: 40, end_x: 60, start_y: 20, end_y: 40 });
    assert_eq!(sprite_rect(&fb, 5, 20), SpriteRect { start_x: 0, end_x: 20, start_y: 20, end_y: 40 });
    assert_eq!(sprite_rect(&fb, 95, 21), SpriteRect { start_x: 85, end_x: 100, start_y: 20, end_y: 41 });
    assert_eq!(sprite_rect(&fb, 50, 100), SpriteRect { start_x: 0, end_x: 100, start_y: 0, end_y: 60 });
    assert_eq!(sprite_rect(&fb, 300, 10), SpriteRect { start_x: 295, end_x: 100, start_y: 25, end_y: 35 });
}

#[test]
fn a_huge_sprite_wraps_its_half_like_a_signed_size() {
    let fb = FrameBuffer::new(100, 60, Color::black(), 1);
    // usize::MAX read as an isize is -1, whose half rounds to 0.
    assert_eq!(sprite_rect(&fb, 0, usize::MAX), SpriteRect { start_x: 0, end_x: 100, start_y: 0, end_y: 60 });
    // usize::MAX - 4 reads as -5, whose half rounds to -2.
    assert_eq!(sprite_rect(&fb, 1, usize::MAX - 4).start_x, 3);
}

#[test]
fn texels_scale_to_a_texture_of_side_128() {
    assert_eq!(texel_coord(0, 64), 0);
    assert_eq!(texel_coord(1, 64), 2);
    assert_eq!(texel_coord(63, 64), 126);
    assert_eq!(texel_coord(10, 256), 5);
    assert_eq!(texel_coord(299, 300), 127);
}

#[test]
fn transparent_texels_are_not_drawn() {
    let mut fb = FrameBuffer::new(3, 3, Color::black(), 1);
    plot_sprite_texel(&mut fb, 1, 1, Color::transparent());
    assert_eq!(fb.get_pixel(1, 1), Color::black());
    plot_sprite_texel(&mut fb, 1, 1, Color::white());
    assert_eq!(fb.get_pixel(1, 1), Color::white());
    plot_sprite_texel(&mut fb, 3, 1, Color::white());
    assert_eq!(fb.get_pixel(2, 1), Color::black());
}
