use vstd::prelude::*;
use crate::color::Color;

verus! {

/// A picture of `image_width` by `image_height` pixels, stored row after row,
/// with the colour it was created in (to which `clear` returns it) and the
/// on-screen size of one of its pixels.
pub struct FrameBuffer {
    color_buffer: Vec<Color>,
    image_width: i32,
    image_height: i32,
    pixel_size: i32,
    color: Color,
}

/// A grid of `w` by `h` pixels, all of colour `c` (rows outermost).
pub open spec fn filled(w: nat, h: nat, c: Color) -> Seq<Seq<Color>> {
    Seq::new(h, |y: int| Seq::new(w, |x: int| c))
}

/// Where `y * w + x` lies when `(x, y)` is a point of a `w` by `h` grid.
proof fn lemma_index_in_grid(w: int, h: int, x: int, y: int)
    by (nonlinear_arith)
    requires
        0 <= x < w,
        0 <= y < h,
    ensures
        0 <= y * w + x < w * h,
        y * w + x <= (h - 1) * w + (w - 1),
{
}

/// Two points of a grid of width `w` share no index.
proof fn lemma_index_unique(w: int, x1: int, y1: int, x2: int, y2: int)
    requires
        0 <= x1 < w,
        0 <= x2 < w,
        0 <= y1,
        0 <= y2,
        y1 * w + x1 == y2 * w + x2,
    ensures
        x1 == x2,
        y1 == y2,
{
    if y1 < y2 {
        assert(y1 * w + w <= y2 * w) by (nonlinear_arith)
            requires y1 < y2, 0 <= x1 < w;
    } else if y2 < y1 {
        assert(y2 * w + w <= y1 * w) by (nonlinear_arith)
            requires y2 < y1, 0 <= x2 < w;
    }
}

impl View for FrameBuffer {
    type V = Seq<Seq<Color>>;

    /// The picture, row by row: `self@[y][x]` is the pixel at column `x` of row `y`.
    closed spec fn view(&self) -> Seq<Seq<Color>> {
        Seq::new(
            self.image_height as nat,
            |y: int| Seq::new(self.image_width as nat, |x: int| self.color_buffer@[y * self.image_width + x]),
        )
    }
}

impl FrameBuffer {
    #[verifier::type_invariant]
    spec fn inv(self) -> bool {
        &&& 0 <= self.image_width
        &&& 0 <= self.image_height
        &&& self.image_width * self.image_height <= i32::MAX
        &&& self.color_buffer@.len() == self.image_width * self.image_height
    }

    /// Number of pixels in a row.
    pub closed spec fn width(&self) -> nat {
        self.image_width as nat
    }

    /// Number of rows.
    pub closed spec fn height(&self) -> nat {
        self.image_height as nat
    }

    /// The colour the picture was created in.
    pub closed spec fn background(&self) -> Color {
        self.color
    }

    /// The on-screen size of one pixel, as given at creation.
    pub closed spec fn spec_pixel_size(&self) -> i32 {
        self.pixel_size
    }

    /// Whether `(x, y)` names a pixel of the picture.
    pub open spec fn in_bounds(&self, x: int, y: int) -> bool {
        0 <= x < self.width() && 0 <= y < self.height()
    }

    /// What a read at `(x, y)` gives: the pixel there, or `Color::blank()`
    /// for a point outside the picture.
    pub open spec fn pixel_or_blank(&self, x: int, y: int) -> Color {
        if self.in_bounds(x, y) {
            self@[y][x]
        } else {
            Color::spec_blank()
        }
    }

    /// The picture after a write of `color` at `(x, y)`: that pixel changes if
    /// it is one of the picture, and nothing else does.
    pub open spec fn view_after_set(&self, x: int, y: int, color: Color) -> Seq<Seq<Color>> {
        if self.in_bounds(x, y) {
            self@.update(y, self@[y].update(x, color))
        } else {
            self@
        }
    }

    /// The view has `height()` rows of `width()` pixels each.
    pub proof fn lemma_view_shape(&self)
        ensures
            self@.len() == self.height(),
            forall|y: int| 0 <= y < self@.len() ==> #[trigger] self@[y].len() == self.width(),
    {
    }

    /// A picture of `image_width` by `image_height` pixels, all of colour `color`.
    /// The pixel count must fit in an `i32`: raylib, which shows the picture,
    /// counts an image's pixels in a C `int`.
    pub fn new(image_width: i32, image_height: i32, color: Color, pixel_size: i32) -> (fb: Self)
        requires
            0 <= image_width,
            0 <= image_height,
            image_width * image_height <= i32::MAX,
        ensures
            fb.width() == image_width,
            fb.height() == image_height,
            fb.background() == color,
            fb.spec_pixel_size() == pixel_size,
            fb@ == filled(image_width as nat, image_height as nat, color),
            forall|px: int, py: int| #![trigger fb@[py][px]] fb.in_bounds(px, py) ==> fb@[py][px] == color,
    {
        let n = (image_width * image_height) as usize;
        let color_buffer = Self::fill(n, color);
        let fb = FrameBuffer { color_buffer, image_width, image_height, pixel_size, color };
        proof {
            assert(fb@ =~~= filled(image_width as nat, image_height as nat, color)) by {
                assert forall|y: int, x: int| 0 <= y < image_height && 0 <= x < image_width implies
                    #[trigger] fb@[y][x] == color by {
                    lemma_index_in_grid(image_width as int, image_height as int, x, y);
                }
            }
        }
        fb
    }

    /// `n` copies of `color`.
    fn fill(n: usize, color: Color) -> (v: Vec<Color>)
        ensures
            v@ == Seq::new(n as nat, |i: int| color),
    {
        let mut v: Vec<Color> = Vec::new();
        for i in 0..n
            invariant
                v@ == Seq::new(i as nat, |k: int| color),
        {
            v.push(color);
            assert(v@ =~= Seq::new((i + 1) as nat, |k: int| color));
        }
        v
    }

    /// Number of pixels in a row.
    pub fn image_width(&self) -> (w: i32)
        ensures
            w == self.width(),
            w * self.height() <= i32::MAX,
    {
        proof {
            use_type_invariant(self);
        }
        self.image_width
    }

    /// Number of rows.
    pub fn image_height(&self) -> (h: i32)
        ensures
            h == self.height(),
            self.width() * h <= i32::MAX,
    {
        proof {
            use_type_invariant(self);
        }
        self.image_height
    }

    /// The on-screen size of one pixel.
    pub fn pixel_size(&self) -> (s: i32)
        ensures
            s == self.spec_pixel_size(),
    {
        self.pixel_size
    }

    /// The colour the picture was created in.
    pub fn background_color(&self) -> (c: Color)
        ensures
            c == self.background(),
    {
        self.color
    }

    /// The pixels, row after row: the pixel at `(x, y)` is entry `y * width + x`.
    pub fn color_buffer(&self) -> (data: &Vec<Color>)
        ensures
            data@.len() == self.width() * self.height(),
            forall|x: int, y: int| #[trigger] self.in_bounds(x, y) ==> data@[y * self.width() + x] == self@[y][x],
    {
        proof {
            use_type_invariant(self);
        }
        &self.color_buffer
    }

    /// Paints the pixel at `(x, y)`; a point outside the picture is ignored.
    pub fn set_pixel(&mut self, x: i32, y: i32, color: Color)
        ensures
            final(self).width() == old(self).width(),
            final(self).height() == old(self).height(),
            final(self).background() == old(self).background(),
            final(self).spec_pixel_size() == old(self).spec_pixel_size(),
            final(self)@ == old(self).view_after_set(x as int, y as int, color),
            final(self)@.len() == old(self)@.len(),
            forall|yy: int| 0 <= yy < old(self)@.len() ==> #[trigger] final(self)@[yy].len() == old(self)@[yy].len(),
            old(self).in_bounds(x as int, y as int) ==> final(self)@[y as int][x as int] == color,
            forall|px: int, py: int|
                #![trigger final(self)@[py][px]]
                old(self).in_bounds(px, py) && !(px == x && py == y) ==> final(self)@[py][px] == old(self)@[py][px],
    {
        proof {
            use_type_invariant(&*self);
        }
        if x >= 0 && x < self.image_width && y >= 0 && y < self.image_height {
            proof {
                lemma_index_in_grid(self.image_width as int, self.image_height as int, x as int, y as int);
            }
            let idx = (y * self.image_width + x) as usize;
            let ghost before = *self;
            self.color_buffer[idx] = color;
            proof {
                let w = self.image_width as int;
                assert forall|y2: int, x2: int|
                    0 <= y2 < self.image_height && 0 <= x2 < w implies #[trigger] self@[y2][x2] == (
                    if y2 == y && x2 == x { color } else { before@[y2][x2] }) by {
                    lemma_index_in_grid(w, self.image_height as int, x2, y2);
                    if y2 * w + x2 == idx {
                        lemma_index_unique(w, x2, y2, x as int, y as int);
                    }
                }
                assert(self@ =~~= before@.update(y as int, before@[y as int].update(x as int, color)));
            }
        }
    }

    /// The pixel at `(x, y)`, or `Color::blank()` for a point outside the picture.
    pub fn get_pixel(&self, x: i32, y: i32) -> (c: Color)
        ensures
            c == self.pixel_or_blank(x as int, y as int),
            self.in_bounds(x as int, y as int) ==> c == self@[y as int][x as int],
            !self.in_bounds(x as int, y as int) ==> c == (Color { r: 0, g: 0, b: 0, a: 0 }),
    {
        proof {
            use_type_invariant(self);
        }
        if x >= 0 && x < self.image_width && y >= 0 && y < self.image_height {
            proof {
                lemma_index_in_grid(self.image_width as int, self.image_height as int, x as int, y as int);
            }
            let idx = (y * self.image_width + x) as usize;
            if idx < self.color_buffer.len() {
                self.color_buffer[idx]
            } else {
                Color::blank()
            }
        } else {
            Color::blank()
        }
    }

    /// Returns every pixel to the colour the picture was created in.
    pub fn clear(&mut self)
        ensures
            final(self).width() == old(self).width(),
            final(self).height() == old(self).height(),
            final(self).background() == old(self).background(),
            final(self).spec_pixel_size() == old(self).spec_pixel_size(),
            final(self)@ == filled(old(self).width(), old(self).height(), old(self).background()),
            forall|px: int, py: int| #![trigger final(self)@[py][px]] old(self).in_bounds(px, py) ==> final(self)@[py][px]
                == old(self).background(),
    {
        proof {
            use_type_invariant(&*self);
        }
        let n = (self.image_width * self.image_height) as usize;
        self.color_buffer = Self::fill(n, self.color);
        proof {
            let w = self.image_width as int;
            assert forall|y: int, x: int| 0 <= y < self.image_height && 0 <= x < w implies
                #[trigger] self@[y][x] == self.color by {
                lemma_index_in_grid(w, self.image_height as int, x, y);
            }
            assert(self@ =~~= filled(self.width(), self.height(), self.color));
        }
    }
}

/// A read gives back what the last write at that point wrote, and a write
/// changes no other pixel; a write outside the picture changes nothing.
pub proof fn lemma_read_after_write(before: FrameBuffer, after: FrameBuffer, x: int, y: int, color: Color, qx: int, qy: int)
    requires
        after.width() == before.width(),
        after.height() == before.height(),
        after@ == before.view_after_set(x, y, color),
    ensures
        after.pixel_or_blank(qx, qy) == (if qx == x && qy == y && before.in_bounds(x, y) {
            color
        } else {
            before.pixel_or_blank(qx, qy)
        }),
{
    before.lemma_view_shape();
}

/// In a picture that is all one colour, as after `new` or `clear`, every
/// point of the picture reads that colour.
pub proof fn lemma_read_filled(fb: FrameBuffer, c: Color, x: int, y: int)
    requires
        fb@ == filled(fb.width(), fb.height(), c),
    ensures
        fb.pixel_or_blank(x, y) == (if fb.in_bounds(x, y) { c } else { Color::spec_blank() }),
{
}

} // verus!
