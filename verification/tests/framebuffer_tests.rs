use pacman_maze::color::Color;
use pacman_maze::framebuffer::FrameBuffer;

fn red() -> Color {
    Color::new(255, 0, 0, 255)
}

#[test]
fn new_buffer_is_filled_with_its_colour() {
    let fb = FrameBuffer::new(4, 3, Color::black(), 1);
    assert_eq!(fb.image_width(), 4);
    assert_eq!(fb.image_height(), 3);
    assert_eq!(fb.pixel_size(), 1);
    assert_eq!(fb.background_color(), Color::black());
    for y in 0..3 {
        for x in 0..4 {
            assert_eq!(fb.get_pixel(x, y), Color::black());
        }
    }
    assert_eq!(fb.color_buffer().len(), 12);
}

#[test]
fn read_after_write_gives_the_written_colour() {
    let mut fb = FrameBuffer::new(4, 3, Color::black(), 1);
    fb.set_pixel(2, 1, red());
    assert_eq!(fb.get_pixel(2, 1), red());
    assert_eq!(fb.get_pixel(1, 2), Color::black());
    assert_eq!(fb.get_pixel(3, 1), Color::black());
    assert_eq!(fb.color_buffer()[1 * 4 + 2], red());
}

#[test]
fn write_outside_the_picture_changes_nothing() {
    let mut fb = FrameBuffer::new(4, 3, Color::black(), 1);
    fb.set_pixel(-1, 0, red());
    fb.set_pixel(4, 0, red());
    fb.set_pixel(0, 3, red());
    fb.set_pixel(0, -5, red());
    assert!(fb.color_buffer().iter().all(|&c| c == Color::black()));
}

#[test]
fn read_outside_the_picture_is_blank() {
    let fb = FrameBuffer::new(4, 3, Color::white(), 1);
    assert_eq!(fb.get_pixel(-1, 0), Color::blank());
    assert_eq!(fb.get_pixel(4, 0), Color::blank());
    assert_eq!(fb.get_pixel(0, 3), Color::blank());
    assert_eq!(Color::blank(), Color::new(0, 0, 0, 0));
}

#[test]
fn clear_returns_every_pixel_to_the_background() {
    let mut fb = FrameBuffer::new(5, 2, Color::green(), 3);
    fb.set_pixel(0, 0, red());
    fb.set_pixel(4, 1, red());
    fb.clear();
    for y in 0..2 {
        for x in 0..5 {
            assert_eq!(fb.get_pixel(x, y), Color::green());
        }
    }
    assert_eq!(fb.image_width(), 5);
    assert_eq!(fb.pixel_size(), 3);
}

#[test]
fn empty_picture_has_no_pixels() {
    let fb = FrameBuffer::new(0, 7, Color::black(), 1);
    assert_eq!(fb.color_buffer().len(), 0);
    assert_eq!(fb.get_pixel(0, 0), Color::blank());
}

#[test]
fn named_colours_have_their_channels() {
    assert_eq!(Color::green(), Color::new(0, 128, 0, 255));
    assert_eq!(Color::yellow(), Color::new(255, 255, 0, 255));
    assert_eq!(Color::whitesmoke(), Color::new(245, 245, 245, 255));
    assert_eq!(Color::wall(), Color::new(0x83, 0x6c, 0x92, 255));
    assert_eq!(Color::transparent(), Color::new(152, 0, 136, 255));
    assert_eq!(Color::white(), Color::new(255, 255, 255, 255));
    assert_eq!(Color::black(), Color::new(0, 0, 0, 255));
}
