use vstd::prelude::*;
use crate::color::Color;
use crate::framebuffer::FrameBuffer;
use crate::maze::{Maze, grid};

verus! {

/// The minimap colour of a maze cell: walls (`+`, `-`, `|`) purple, the goal
/// `g` green, the player marker `p` yellow, coins `c` white, anything else black.
pub open spec fn cell_color(cell: char) -> Color {
    if cell == '+' || cell == '-' || cell == '|' {
        Color::spec_wall()
    } else if cell == 'g' {
        Color::spec_green()
    } else if cell == 'p' {
        Color::spec_yellow()
    } else if cell == 'c' {
        Color::spec_white()
    } else {
        Color::spec_black()
    }
}

/// The minimap colour of a maze cell.
pub fn cell_to_color(cell: char) -> (c: Color)
    ensures
        c == cell_color(cell),
{
    match cell {
        '+' => Color::wall(),
        '-' => Color::wall(),
        '|' => Color::wall(),
        'g' => Color::green(),
        'p' => Color::yellow(),
        'c' => Color::white(),
        _ => Color::black(),
    }
}

/// The pixel coordinate that the coordinate `k` becomes when it is handed to
/// the picture as an `i32`.
pub open spec fn as_pixel(k: usize) -> int {
    (k as i32) as int
}

/// Whether some coordinate `k` with `start <= k < start + len` lands on the
/// pixel coordinate `p`.
pub open spec fn covers(start: int, len: int, p: int) -> bool {
    exists|k: usize| start <= k < start + len && #[trigger] as_pixel(k) == p
}

/// The grid `v` with colour `c` on every pixel `(x, y)` for which `pred(x, y)` holds.
pub open spec fn paint(v: Seq<Seq<Color>>, pred: spec_fn(int, int) -> bool, c: Color) -> Seq<Seq<Color>> {
    Seq::new(v.len(), |y: int| Seq::new(v[y].len(), |x: int| if pred(x, y) { c } else { v[y][x] }))
}

/// The grid `v` with the square of side `size` whose corner is `(xo, yo)`
/// painted in colour `c` (as far as it lies on the grid).
pub open spec fn paint_square(v: Seq<Seq<Color>>, xo: int, yo: int, size: int, c: Color) -> Seq<Seq<Color>> {
    paint(v, |x: int, y: int| covers(xo, size, x) && covers(yo, size, y), c)
}

/// What drawing the cell `cell` as a square of side `size` at `(xo, yo)` makes
/// of the grid `v`: an empty corridor draws nothing.
pub open spec fn cell_drawn(v: Seq<Seq<Color>>, xo: int, yo: int, size: int, cell: char) -> Seq<Seq<Color>> {
    if cell == ' ' {
        v
    } else {
        paint_square(v, xo, yo, size, cell_color(cell))
    }
}

/// A range of coordinates grows by one at its end.
proof fn lemma_covers_extend(start: int, n: int, p: int)
    requires
        0 <= start,
        0 <= n,
        start + n <= usize::MAX,
    ensures
        covers(start, n + 1, p) <==> (covers(start, n, p) || as_pixel((start + n) as usize) == p),
{
    if covers(start, n + 1, p) {
        let k = choose|k: usize| start <= k < start + n + 1 && #[trigger] as_pixel(k) == p;
        if k < start + n {
            assert(covers(start, n, p));
        }
    }
    if as_pixel((start + n) as usize) == p {
        let k = (start + n) as usize;
        assert(start <= k < start + n + 1 && as_pixel(k) == p);
    }
    if covers(start, n, p) {
        let k = choose|k: usize| start <= k < start + n && #[trigger] as_pixel(k) == p;
        assert(start <= k < start + n + 1 && as_pixel(k) == p);
    }
}

/// An empty range lands on no pixel.
proof fn lemma_covers_empty(start: int, p: int)
    ensures
        !covers(start, 0, p),
{
}

/// Where every coordinate of the range fits in an `i32`, the range lands on
/// exactly the pixels it names.
pub proof fn lemma_covers_small(start: int, len: int, p: int)
    requires
        0 <= start,
        0 <= len,
        start + len <= i32::MAX + 1,
    ensures
        covers(start, len, p) <==> start <= p < start + len,
{
    if covers(start, len, p) {
        let k = choose|k: usize| start <= k < start + len && #[trigger] as_pixel(k) == p;
        assert(k <= i32::MAX);
        assert((k as i32) as int == k);
    }
    if start <= p < start + len {
        let k = p as usize;
        assert((k as i32) as int == p);
        assert(start <= k < start + len && as_pixel(k) == p);
    }
}

/// Painting with equivalent predicates gives the same grid.
proof fn lemma_paint_same(v: Seq<Seq<Color>>, p1: spec_fn(int, int) -> bool, p2: spec_fn(int, int) -> bool, c: Color)
    requires
        forall|x: int, y: int| #[trigger] p1(x, y) == p2(x, y),
    ensures
        paint(v, p1, c) == paint(v, p2, c),
{
    assert(p1 =~= p2);
}

/// Setting one more pixel of a painted grid paints it with one more point.
proof fn lemma_paint_add_point(
    v: Seq<Seq<Color>>,
    pred: spec_fn(int, int) -> bool,
    next: spec_fn(int, int) -> bool,
    c: Color,
    xi: int,
    yi: int,
    w: nat,
)
    requires
        forall|y: int| 0 <= y < v.len() ==> #[trigger] v[y].len() == w,
        forall|x: int, y: int| #[trigger] next(x, y) == (pred(x, y) || (x == xi && y == yi)),
    ensures
        ({
            let p = paint(v, pred, c);
            (if 0 <= xi < w && 0 <= yi < v.len() { p.update(yi, p[yi].update(xi, c)) } else { p })
                == paint(v, next, c)
        }),
{
    let p = paint(v, pred, c);
    let q = paint(v, next, c);
    if 0 <= xi < w && 0 <= yi < v.len() {
        assert(p.update(yi, p[yi].update(xi, c)) =~~= q);
    } else {
        assert(p =~~= q);
    }
}

/// Draws the cell `cell` as a square of side `block_size` with its corner at
/// `(xo, yo)`, in the cell's minimap colour; an empty corridor draws nothing.
/// Pixels off the picture are skipped.
pub fn draw_cell(framebuffer: &mut FrameBuffer, xo: usize, yo: usize, block_size: usize, cell: char)
    requires
        cell != ' ' ==> xo + block_size <= usize::MAX && yo + block_size <= usize::MAX,
    ensures
        final(framebuffer).width() == old(framebuffer).width(),
        final(framebuffer).height() == old(framebuffer).height(),
        final(framebuffer).background() == old(framebuffer).background(),
        final(framebuffer).spec_pixel_size() == old(framebuffer).spec_pixel_size(),
        final(framebuffer)@ == cell_drawn(old(framebuffer)@, xo as int, yo as int, block_size as int, cell),
{
    if cell == ' ' {
        return;
    }
    let color = cell_to_color(cell);
    let ghost v0 = framebuffer@;
    let ghost bs = block_size as int;
    proof {
        framebuffer.lemma_view_shape();
        let none = |px: int, py: int| false;
        let start = |px: int, py: int| covers(xo as int, 0, px) && covers(yo as int, bs, py);
        lemma_paint_same(v0, none, start, color);
        assert(paint(v0, none, color) =~~= v0);
    }
    let x_end = xo + block_size;
    let y_end = yo + block_size;
    let mut x = xo;
    while x < x_end
        invariant
            xo <= x <= x_end,
            x_end == xo + block_size,
            y_end == yo + block_size,
            y_end <= usize::MAX,
            bs == block_size,
            v0 == old(framebuffer)@,
            forall|y: int| 0 <= y < v0.len() ==> #[trigger] v0[y].len() == old(framebuffer).width(),
            v0.len() == old(framebuffer).height(),
            framebuffer.width() == old(framebuffer).width(),
            framebuffer.height() == old(framebuffer).height(),
            framebuffer.background() == old(framebuffer).background(),
            framebuffer.spec_pixel_size() == old(framebuffer).spec_pixel_size(),
            framebuffer@ == paint(
                v0,
                |px: int, py: int| covers(xo as int, x - xo, px) && covers(yo as int, bs, py),
                color,
            ),
        decreases x_end - x,
    {
        let ghost done = |px: int, py: int| covers(xo as int, x - xo, px) && covers(yo as int, bs, py);
        let ghost col = as_pixel(x);
        proof {
            let start = |px: int, py: int| done(px, py) || (px == col && covers(yo as int, 0, py));
            lemma_paint_same(v0, done, start, color);
        }
        let mut y = yo;
        while y < y_end
            invariant
                yo <= y <= y_end,
                xo <= x < x_end,
                y_end == yo + block_size,
                y_end <= usize::MAX,
                col == as_pixel(x),
                forall|yy: int| 0 <= yy < v0.len() ==> #[trigger] v0[yy].len() == old(framebuffer).width(),
                v0.len() == old(framebuffer).height(),
                framebuffer.width() == old(framebuffer).width(),
                framebuffer.height() == old(framebuffer).height(),
                framebuffer.background() == old(framebuffer).background(),
                framebuffer.spec_pixel_size() == old(framebuffer).spec_pixel_size(),
                framebuffer@ == paint(
                    v0,
                    |px: int, py: int| done(px, py) || (px == col && covers(yo as int, y - yo, py)),
                    color,
                ),
            decreases y_end - y,
        {
            let ghost before = |px: int, py: int| done(px, py) || (px == col && covers(yo as int, y - yo, py));
            let ghost after = |px: int, py: int| done(px, py) || (px == col && covers(yo as int, y + 1 - yo, py));
            let ghost row = as_pixel(y);
            proof {
                assert forall|px: int, py: int| #[trigger] after(px, py) == (before(px, py) || (px == col && py == row)) by {
                    lemma_covers_extend(yo as int, y - yo, py);
                }
                framebuffer.lemma_view_shape();
            }
            framebuffer.set_pixel(x as i32, y as i32, color);
            proof {
                lemma_paint_add_point(v0, before, after, color, col, row, old(framebuffer).width());
            }
            y += 1;
        }
        proof {
            let inner = |px: int, py: int| done(px, py) || (px == col && covers(yo as int, y - yo, py));
            let next = |px: int, py: int| covers(xo as int, x + 1 - xo, px) && covers(yo as int, bs, py);
            assert forall|px: int, py: int| #[trigger] inner(px, py) == next(px, py) by {
                lemma_covers_extend(xo as int, x - xo, px);
            }
            lemma_paint_same(v0, inner, next, color);
        }
        x += 1;
    }
}

/// What the minimap draws for the cell `cell` at row `r`, column `c`: a coin
/// as a small square of side 5, ten units below the top of its block; any
/// other cell as its whole block.
pub open spec fn maze_cell_drawn(v: Seq<Seq<Color>>, cell: char, r: int, c: int, block_size: int) -> Seq<Seq<Color>> {
    if cell == 'c' {
        cell_drawn(v, c * block_size, r * block_size + 10, 5, cell)
    } else {
        cell_drawn(v, c * block_size, r * block_size, block_size, cell)
    }
}

/// The grid `v` after the first `n` cells of row `r` of the maze are drawn, left to right.
pub open spec fn maze_row_drawn(v: Seq<Seq<Color>>, row: Seq<char>, r: int, block_size: int, n: int) -> Seq<Seq<Color>>
    decreases n,
{
    if n <= 0 {
        v
    } else {
        maze_cell_drawn(maze_row_drawn(v, row, r, block_size, n - 1), row[n - 1], r, n - 1, block_size)
    }
}

/// The grid `v` after the first `n` rows of the maze are drawn, top to bottom.
pub open spec fn maze_rows_drawn(v: Seq<Seq<Color>>, g: Seq<Seq<char>>, block_size: int, n: int) -> Seq<Seq<Color>>
    decreases n,
{
    if n <= 0 {
        v
    } else {
        maze_row_drawn(maze_rows_drawn(v, g, block_size, n - 1), g[n - 1], n - 1, block_size, g[n - 1].len() as int)
    }
}

/// The coordinates that drawing the cell `cell` at row `r`, column `c` computes
/// stay within `usize`.
pub open spec fn maze_cell_fits(cell: char, r: int, c: int, block_size: int) -> bool {
    &&& c * block_size <= usize::MAX
    &&& r * block_size <= usize::MAX
    &&& cell == 'c' ==> c * block_size + 5 <= usize::MAX && r * block_size + 15 <= usize::MAX
    &&& (cell != 'c' && cell != ' ') ==> c * block_size + block_size <= usize::MAX && r * block_size
        + block_size <= usize::MAX
}

/// Every cell of the maze can be drawn without leaving `usize`.
pub open spec fn maze_fits(g: Seq<Seq<char>>, block_size: int) -> bool {
    forall|r: int, c: int| 0 <= r < g.len() && 0 <= c < g[r].len() ==> #[trigger] maze_cell_fits(g[r][c], r, c, block_size)
}

/// Draws the minimap: every cell of the maze, row by row and left to right,
/// as a block of side `block_size` (coins as a small square inside their
/// block), then the player marker, a yellow square of side 10 at
/// `(marker_x, marker_y)`.
pub fn render_maze(framebuffer: &mut FrameBuffer, maze: &Maze, block_size: usize, marker_x: usize, marker_y: usize)
    requires
        maze_fits(grid(maze), block_size as int),
        marker_x + 10 <= usize::MAX,
        marker_y + 10 <= usize::MAX,
    ensures
        final(framebuffer).width() == old(framebuffer).width(),
        final(framebuffer).height() == old(framebuffer).height(),
        final(framebuffer).background() == old(framebuffer).background(),
        final(framebuffer).spec_pixel_size() == old(framebuffer).spec_pixel_size(),
        final(framebuffer)@ == cell_drawn(
            maze_rows_drawn(old(framebuffer)@, grid(maze), block_size as int, grid(maze).len() as int),
            marker_x as int,
            marker_y as int,
            10,
            'p',
        ),
{
    let ghost v0 = framebuffer@;
    let ghost g = grid(maze);
    let ghost bs = block_size as int;
    let mut r: usize = 0;
    while r < maze.len()
        invariant
            g == grid(maze),
            bs == block_size,
            maze_fits(g, bs),
            r <= g.len(),
            v0 == old(framebuffer)@,
            framebuffer.width() == old(framebuffer).width(),
            framebuffer.height() == old(framebuffer).height(),
            framebuffer.background() == old(framebuffer).background(),
            framebuffer.spec_pixel_size() == old(framebuffer).spec_pixel_size(),
            framebuffer@ == maze_rows_drawn(v0, g, bs, r as int),
        decreases g.len() - r,
    {
        let row = &maze[r];
        let ghost before_row = framebuffer@;
        let mut c: usize = 0;
        while c < row.len()
            invariant
                g == grid(maze),
                bs == block_size,
                maze_fits(g, bs),
                r < g.len(),
                row@ == g[r as int],
                c <= row@.len(),
                before_row == maze_rows_drawn(v0, g, bs, r as int),
                framebuffer.width() == old(framebuffer).width(),
                framebuffer.height() == old(framebuffer).height(),
                framebuffer.background() == old(framebuffer).background(),
                framebuffer.spec_pixel_size() == old(framebuffer).spec_pixel_size(),
                framebuffer@ == maze_row_drawn(before_row, g[r as int], r as int, bs, c as int),
            decreases row@.len() - c,
        {
            let cell = row[c];
            assert(maze_cell_fits(g[r as int][c as int], r as int, c as int, bs));
            let xo = c * block_size;
            let yo = r * block_size;
            if cell == 'c' {
                draw_cell(framebuffer, xo, yo + 10, 5, cell);
            } else {
                draw_cell(framebuffer, xo, yo, block_size, cell);
            }
            c += 1;
        }
        r += 1;
    }
    draw_cell(framebuffer, marker_x, marker_y, 10, 'p');
}

/// Where the block's coordinates fit in an `i32`, a drawn cell covers exactly
/// its block: every pixel of the block takes the cell's colour (unless the
/// cell is an empty corridor) and every other pixel keeps its colour.
pub proof fn lemma_cell_drawn_exact(v: Seq<Seq<Color>>, xo: int, yo: int, size: int, cell: char, x: int, y: int)
    requires
        0 <= xo,
        0 <= yo,
        0 <= size,
        xo + size <= i32::MAX + 1,
        yo + size <= i32::MAX + 1,
        0 <= y < v.len(),
        0 <= x < v[y].len(),
    ensures
        cell_drawn(v, xo, yo, size, cell).len() == v.len(),
        cell_drawn(v, xo, yo, size, cell)[y].len() == v[y].len(),
        cell_drawn(v, xo, yo, size, cell)[y][x] == (if cell != ' ' && xo <= x < xo + size && yo <= y < yo + size {
            cell_color(cell)
        } else {
            v[y][x]
        }),
{
    lemma_covers_small(xo, size, x);
    lemma_covers_small(yo, size, y);
}

/// The player marker is drawn last: wherever it lies on the picture (at
/// coordinates that fit in an `i32`), its square shows yellow, whatever the
/// maze drew there.
pub proof fn lemma_marker_on_top(v: Seq<Seq<Color>>, g: Seq<Seq<char>>, block_size: int, marker_x: int, marker_y: int, x: int, y: int)
    requires
        0 <= marker_x,
        0 <= marker_y,
        marker_x + 10 <= i32::MAX + 1,
        marker_y + 10 <= i32::MAX + 1,
        marker_x <= x < marker_x + 10,
        marker_y <= y < marker_y + 10,
        0 <= y < maze_rows_drawn(v, g, block_size, g.len() as int).len(),
        0 <= x < maze_rows_drawn(v, g, block_size, g.len() as int)[y].len(),
    ensures
        cell_drawn(maze_rows_drawn(v, g, block_size, g.len() as int), marker_x, marker_y, 10, 'p')[y][x]
            == (Color { r: 255, g: 255, b: 0, a: 255 }),
{
    lemma_cell_drawn_exact(maze_rows_drawn(v, g, block_size, g.len() as int), marker_x, marker_y, 10, 'p', x, y);
}

/// Paints the lower half of the picture (every row from `height / 2` down)
/// in colour `color`: the floor under the 3D view.
pub fn paint_floor(framebuffer: &mut FrameBuffer, color: Color)
    ensures
        final(framebuffer).width() == old(framebuffer).width(),
        final(framebuffer).height() == old(framebuffer).height(),
        final(framebuffer).background() == old(framebuffer).background(),
        final(framebuffer).spec_pixel_size() == old(framebuffer).spec_pixel_size(),
        final(framebuffer)@ == paint(
            old(framebuffer)@,
            |x: int, y: int| old(framebuffer).height() as int / 2 <= y,
            color,
        ),
{
    let width = framebuffer.image_width();
    let height = framebuffer.image_height();
    let ghost v0 = framebuffer@;
    let ghost top = height / 2;
    proof {
        framebuffer.lemma_view_shape();
        let none = |px: int, py: int| false;
        let start = |px: int, py: int| 0 <= px < 0 && top <= py < height;
        lemma_paint_same(v0, none, start, color);
        assert(paint(v0, none, color) =~~= v0);
    }
    let mut x: i32 = 0;
    while x < width
        invariant
            0 <= x <= width,
            width == old(framebuffer).width(),
            height == old(framebuffer).height(),
            top == height / 2,
            v0 == old(framebuffer)@,
            forall|y: int| 0 <= y < v0.len() ==> #[trigger] v0[y].len() == old(framebuffer).width(),
            v0.len() == old(framebuffer).height(),
            framebuffer.width() == old(framebuffer).width(),
            framebuffer.height() == old(framebuffer).height(),
            framebuffer.background() == old(framebuffer).background(),
            framebuffer.spec_pixel_size() == old(framebuffer).spec_pixel_size(),
            framebuffer@ == paint(v0, |px: int, py: int| 0 <= px < x && top <= py < height, color),
        decreases width - x,
    {
        let ghost done = |px: int, py: int| 0 <= px < x && top <= py < height;
        proof {
            let start = |px: int, py: int| done(px, py) || (px == x && top <= py < top);
            lemma_paint_same(v0, done, start, color);
        }
        let mut y: i32 = height / 2;
        while y < height
            invariant
                top <= y <= height,
                0 <= x < width,
                width == old(framebuffer).width(),
                height == old(framebuffer).height(),
                top == height / 2,
                forall|yy: int| 0 <= yy < v0.len() ==> #[trigger] v0[yy].len() == old(framebuffer).width(),
                v0.len() == old(framebuffer).height(),
                framebuffer.width() == old(framebuffer).width(),
                framebuffer.height() == old(framebuffer).height(),
                framebuffer.background() == old(framebuffer).background(),
                framebuffer.spec_pixel_size() == old(framebuffer).spec_pixel_size(),
                framebuffer@ == paint(v0, |px: int, py: int| done(px, py) || (px == x && top <= py < y), color),
            decreases height - y,
        {
            let ghost before = |px: int, py: int| done(px, py) || (px == x && top <= py < y);
            let ghost after = |px: int, py: int| done(px, py) || (px == x && top <= py < y + 1);
            proof {
                assert forall|px: int, py: int| #[trigger] after(px, py) == (before(px, py) || (px == x && py == y)) by {}
                framebuffer.lemma_view_shape();
            }
            framebuffer.set_pixel(x, y, color);
            proof {
                lemma_paint_add_point(v0, before, after, color, x as int, y as int, old(framebuffer).width());
            }
            y += 1;
        }
        proof {
            let inner = |px: int, py: int| done(px, py) || (px == x && top <= py < y);
            let next = |px: int, py: int| 0 <= px < x + 1 && top <= py < height;
            assert forall|px: int, py: int| #[trigger] inner(px, py) == next(px, py) by {}
            lemma_paint_same(v0, inner, next, color);
        }
        x += 1;
    }
    proof {
        let last = |px: int, py: int| 0 <= px < x && top <= py < height;
        let all = |px: int, py: int| old(framebuffer).height() as int / 2 <= py;
        assert(paint(v0, last, color) =~~= paint(v0, all, color));
    }
}

/// The pixels that drawing the cell `cell` at row `r`, column `c` of the
/// minimap paints (where the coordinates fit in an `i32`): nothing for a
/// corridor, a square of side 5 ten units down the block for a coin, the
/// whole block for anything else.
pub open spec fn maze_cell_region(cell: char, r: int, c: int, block_size: int, x: int, y: int) -> bool {
    if cell == ' ' {
        false
    } else if cell == 'c' {
        c * block_size <= x < c * block_size + 5 && r * block_size + 10 <= y < r * block_size + 15
    } else {
        c * block_size <= x < c * block_size + block_size && r * block_size <= y < r * block_size + block_size
    }
}

/// Every coordinate that drawing the cell at row `r`, column `c` of the
/// minimap computes fits in an `i32`.
pub open spec fn cell_fits_i32(r: int, c: int, block_size: int) -> bool {
    c * block_size + block_size + 5 <= i32::MAX + 1 && r * block_size + block_size + 15 <= i32::MAX + 1
}

/// Every coordinate of the minimap fits in an `i32`.
pub open spec fn maze_fits_i32(g: Seq<Seq<char>>, block_size: int) -> bool {
    &&& 0 <= block_size
    &&& forall|r: int, c: int| 0 <= r < g.len() && 0 <= c < g[r].len() ==> #[trigger] cell_fits_i32(r, c, block_size)
}

/// Two grids have the same rows, of the same lengths.
pub open spec fn same_shape(a: Seq<Seq<Color>>, b: Seq<Seq<Color>>) -> bool {
    &&& a.len() == b.len()
    &&& forall|y: int| 0 <= y < a.len() ==> #[trigger] a[y].len() == b[y].len()
}

proof fn lemma_mul_nonneg(a: int, b: int)
    by (nonlinear_arith)
    requires
        0 <= a,
        0 <= b,
    ensures
        0 <= a * b,
{
}

proof fn lemma_mul_step(a: int, b: int, k: int)
    by (nonlinear_arith)
    requires
        0 <= a < b,
        0 <= k,
    ensures
        a * k + k <= b * k,
{
}

proof fn lemma_maze_cell_drawn_shape(v: Seq<Seq<Color>>, cell: char, r: int, c: int, block_size: int)
    ensures
        same_shape(maze_cell_drawn(v, cell, r, c, block_size), v),
{
}

/// One drawn cell of the minimap paints exactly its region in its colour.
proof fn lemma_maze_cell_drawn_pixel(v: Seq<Seq<Color>>, cell: char, r: int, c: int, block_size: int, x: int, y: int)
    requires
        0 <= r,
        0 <= c,
        0 <= block_size,
        c * block_size + block_size + 5 <= i32::MAX + 1,
        r * block_size + block_size + 15 <= i32::MAX + 1,
        0 <= y < v.len(),
        0 <= x < v[y].len(),
    ensures
        maze_cell_drawn(v, cell, r, c, block_size)[y][x] == (if maze_cell_region(cell, r, c, block_size, x, y) {
            cell_color(cell)
        } else {
            v[y][x]
        }),
{
    lemma_mul_nonneg(c, block_size);
    lemma_mul_nonneg(r, block_size);
    if cell == 'c' {
        lemma_cell_drawn_exact(v, c * block_size, r * block_size + 10, 5, cell, x, y);
    } else {
        lemma_cell_drawn_exact(v, c * block_size, r * block_size, block_size, cell, x, y);
    }
}

proof fn lemma_row_drawn_shape(v: Seq<Seq<Color>>, row: Seq<char>, r: int, block_size: int, n: int)
    ensures
        same_shape(maze_row_drawn(v, row, r, block_size, n), v),
    decreases n,
{
    if n > 0 {
        lemma_row_drawn_shape(v, row, r, block_size, n - 1);
        lemma_maze_cell_drawn_shape(maze_row_drawn(v, row, r, block_size, n - 1), row[n - 1], r, n - 1, block_size);
    }
}

proof fn lemma_rows_drawn_shape(v: Seq<Seq<Color>>, g: Seq<Seq<char>>, block_size: int, n: int)
    ensures
        same_shape(maze_rows_drawn(v, g, block_size, n), v),
    decreases n,
{
    if n > 0 {
        lemma_rows_drawn_shape(v, g, block_size, n - 1);
        lemma_row_drawn_shape(maze_rows_drawn(v, g, block_size, n - 1), g[n - 1], n - 1, block_size, g[n - 1].len() as int);
    }
}

/// Cells `m..n` of a row whose regions miss `(x, y)` leave that pixel alone.
proof fn lemma_row_drawn_keeps(v: Seq<Seq<Color>>, row: Seq<char>, r: int, block_size: int, m: int, n: int, x: int, y: int)
    requires
        0 <= m <= n <= row.len(),
        0 <= r,
        0 <= block_size,
        forall|c: int| 0 <= c < row.len() ==> #[trigger] cell_fits_i32(r, c, block_size),
        forall|c: int| m <= c < n ==> !maze_cell_region(#[trigger] row[c], r, c, block_size, x, y),
        0 <= y < v.len(),
        0 <= x < v[y].len(),
    ensures
        maze_row_drawn(v, row, r, block_size, n)[y][x] == maze_row_drawn(v, row, r, block_size, m)[y][x],
    decreases n,
{
    if n > m {
        lemma_row_drawn_keeps(v, row, r, block_size, m, n - 1, x, y);
        let prev = maze_row_drawn(v, row, r, block_size, n - 1);
        lemma_row_drawn_shape(v, row, r, block_size, n - 1);
        assert(cell_fits_i32(r, n - 1, block_size));
        lemma_maze_cell_drawn_pixel(prev, row[n - 1], r, n - 1, block_size, x, y);
    }
}

/// Rows `m..n` whose cells' regions miss `(x, y)` leave that pixel alone.
proof fn lemma_rows_drawn_keeps(v: Seq<Seq<Color>>, g: Seq<Seq<char>>, block_size: int, m: int, n: int, x: int, y: int)
    requires
        0 <= m <= n <= g.len(),
        maze_fits_i32(g, block_size),
        forall|r: int, c: int| m <= r < n && 0 <= c < g[r].len() ==> !maze_cell_region(
            #[trigger] g[r][c],
            r,
            c,
            block_size,
            x,
            y,
        ),
        0 <= y < v.len(),
        0 <= x < v[y].len(),
    ensures
        maze_rows_drawn(v, g, block_size, n)[y][x] == maze_rows_drawn(v, g, block_size, m)[y][x],
    decreases n,
{
    if n > m {
        lemma_rows_drawn_keeps(v, g, block_size, m, n - 1, x, y);
        let prev = maze_rows_drawn(v, g, block_size, n - 1);
        lemma_rows_drawn_shape(v, g, block_size, n - 1);
        let row = g[n - 1];
        if row.len() == 0 {
            assert(maze_row_drawn(prev, row, n - 1, block_size, 0) == prev);
        } else {
            lemma_row_drawn_keeps(prev, row, n - 1, block_size, 0, row.len() as int, x, y);
        }
    }
}

/// A pixel painted by a cell of the minimap keeps that cell's colour to the
/// end, unless the player marker covers it.
proof fn lemma_minimap_pixel_of_cell(
    v: Seq<Seq<Color>>,
    g: Seq<Seq<char>>,
    block_size: int,
    marker_x: int,
    marker_y: int,
    r0: int,
    c0: int,
    x: int,
    y: int,
)
    requires
        maze_fits_i32(g, block_size),
        0 <= r0 < g.len(),
        0 <= c0 < g[r0].len(),
        g[r0][c0] == 'c' ==> block_size >= 15,
        maze_cell_region(g[r0][c0], r0, c0, block_size, x, y),
        0 <= y < v.len(),
        0 <= x < v[y].len(),
        0 <= marker_x,
        0 <= marker_y,
        marker_x + 10 <= i32::MAX + 1,
        marker_y + 10 <= i32::MAX + 1,
        !(marker_x <= x < marker_x + 10 && marker_y <= y < marker_y + 10),
    ensures
        g[r0][c0] != ' ',
        cell_drawn(maze_rows_drawn(v, g, block_size, g.len() as int), marker_x, marker_y, 10, 'p')[y][x] == cell_color(
            g[r0][c0],
        ),
{
    let bs = block_size;
    assert(cell_fits_i32(r0, c0, bs));
    lemma_mul_nonneg(c0, bs);
    lemma_mul_nonneg(r0, bs);
    // The pixel lies before the next column's and the next row's blocks.
    assert(x < c0 * bs + bs && y < r0 * bs + bs);
    let row = g[r0];
    let before = maze_rows_drawn(v, g, bs, r0);
    lemma_rows_drawn_shape(v, g, bs, r0);
    // The cell itself paints the pixel.
    let upto = maze_row_drawn(before, row, r0, bs, c0);
    lemma_row_drawn_shape(before, row, r0, bs, c0);
    lemma_maze_cell_drawn_pixel(upto, row[c0], r0, c0, bs, x, y);
    // The rest of its row leaves it.
    assert forall|c: int| c0 + 1 <= c < row.len() implies !maze_cell_region(#[trigger] row[c], r0, c, bs, x, y) by {
        lemma_mul_step(c0, c, bs);
    }
    lemma_row_drawn_keeps(before, row, r0, bs, c0 + 1, row.len() as int, x, y);
    // The rows below leave it.
    assert forall|r: int, c: int| r0 + 1 <= r < g.len() && 0 <= c < g[r].len() implies !maze_cell_region(
        #[trigger] g[r][c],
        r,
        c,
        bs,
        x,
        y,
    ) by {
        lemma_mul_step(r0, r, bs);
        lemma_mul_nonneg(c, bs);
    }
    lemma_rows_drawn_keeps(v, g, bs, r0 + 1, g.len() as int, x, y);
    // The marker misses it.
    let all = maze_rows_drawn(v, g, bs, g.len() as int);
    lemma_rows_drawn_shape(v, g, bs, g.len() as int);
    lemma_cell_drawn_exact(all, marker_x, marker_y, 10, 'p', x, y);
}

/// The minimap shows every cell that is neither a corridor nor a coin (walls,
/// the goal, enemies) as its whole block, `block_size` on a side, in the
/// cell's colour: blocks of different cells never overlap (when every
/// coordinate fits in an `i32`), and the player marker covers only its own
/// square.
pub proof fn lemma_minimap_shows_blocks(
    v: Seq<Seq<Color>>,
    g: Seq<Seq<char>>,
    block_size: int,
    marker_x: int,
    marker_y: int,
    r0: int,
    c0: int,
    x: int,
    y: int,
)
    requires
        maze_fits_i32(g, block_size),
        0 <= r0 < g.len(),
        0 <= c0 < g[r0].len(),
        g[r0][c0] != ' ',
        g[r0][c0] != 'c',
        c0 * block_size <= x < c0 * block_size + block_size,
        r0 * block_size <= y < r0 * block_size + block_size,
        0 <= y < v.len(),
        0 <= x < v[y].len(),
        0 <= marker_x,
        0 <= marker_y,
        marker_x + 10 <= i32::MAX + 1,
        marker_y + 10 <= i32::MAX + 1,
        !(marker_x <= x < marker_x + 10 && marker_y <= y < marker_y + 10),
    ensures
        cell_drawn(maze_rows_drawn(v, g, block_size, g.len() as int), marker_x, marker_y, 10, 'p')[y][x] == cell_color(
            g[r0][c0],
        ),
{
    lemma_minimap_pixel_of_cell(v, g, block_size, marker_x, marker_y, r0, c0, x, y);
}

/// With blocks at least 15 wide, the minimap shows a coin as a white square of
/// side 5 at the left of its block, ten units down from the block's top.
pub proof fn lemma_minimap_shows_coins(
    v: Seq<Seq<Color>>,
    g: Seq<Seq<char>>,
    block_size: int,
    marker_x: int,
    marker_y: int,
    r0: int,
    c0: int,
    x: int,
    y: int,
)
    requires
        maze_fits_i32(g, block_size),
        block_size >= 15,
        0 <= r0 < g.len(),
        0 <= c0 < g[r0].len(),
        g[r0][c0] == 'c',
        c0 * block_size <= x < c0 * block_size + 5,
        r0 * block_size + 10 <= y < r0 * block_size + 15,
        0 <= y < v.len(),
        0 <= x < v[y].len(),
        0 <= marker_x,
        0 <= marker_y,
        marker_x + 10 <= i32::MAX + 1,
        marker_y + 10 <= i32::MAX + 1,
        !(marker_x <= x < marker_x + 10 && marker_y <= y < marker_y + 10),
    ensures
        cell_drawn(maze_rows_drawn(v, g, block_size, g.len() as int), marker_x, marker_y, 10, 'p')[y][x] == (Color {
            r: 255,
            g: 255,
            b: 255,
            a: 255,
        }),
{
    lemma_minimap_pixel_of_cell(v, g, block_size, marker_x, marker_y, r0, c0, x, y);
}

/// Painting sets exactly the pixels the predicate selects and keeps the
/// shape of the grid.
pub proof fn lemma_paint_pixel(v: Seq<Seq<Color>>, pred: spec_fn(int, int) -> bool, c: Color, x: int, y: int)
    requires
        0 <= y < v.len(),
        0 <= x < v[y].len(),
    ensures
        paint(v, pred, c).len() == v.len(),
        paint(v, pred, c)[y].len() == v[y].len(),
        paint(v, pred, c)[y][x] == (if pred(x, y) { c } else { v[y][x] }),
{
}

/// The floor covers exactly the rows from `height / 2` down: a pixel of the
/// picture takes the floor colour exactly when it lies in those rows.
pub proof fn lemma_floor_rows(v: Seq<Seq<Color>>, height: nat, c: Color, x: int, y: int)
    requires
        0 <= y < v.len(),
        0 <= x < v[y].len(),
    ensures
        paint(v, |px: int, py: int| height as int / 2 <= py, c)[y][x] == (if y >= height as int / 2 {
            c
        } else {
            v[y][x]
        }),
{
}

/// The minimap palette: walls `+`, `-`, `|` are purple `#836c92`, the goal `g`
/// green `#008000`, the marker `p` yellow `#ffff00`, coins `c` white, anything
/// else black; all opaque.
pub proof fn lemma_minimap_palette(cell: char)
    ensures
        (cell == '+' || cell == '-' || cell == '|') ==> cell_color(cell) == (Color { r: 0x83, g: 0x6c, b: 0x92, a: 255 }),
        cell == 'g' ==> cell_color(cell) == (Color { r: 0, g: 128, b: 0, a: 255 }),
        cell == 'p' ==> cell_color(cell) == (Color { r: 255, g: 255, b: 0, a: 255 }),
        cell == 'c' ==> cell_color(cell) == (Color { r: 255, g: 255, b: 255, a: 255 }),
        !(cell == '+' || cell == '-' || cell == '|' || cell == 'g' || cell == 'p' || cell == 'c') ==> cell_color(cell)
            == (Color { r: 0, g: 0, b: 0, a: 255 }),
{
}

/// The rows of the picture that a wall slice spans: from its top, but not
/// above row 0, down to its bottom, but not below the last row. (A bottom
/// above the picture gives a negative last row, read as a `usize`.)
pub fn stake_rows(framebuffer: &FrameBuffer, stake_top: isize, stake_bottom: isize) -> (rows: (usize, usize))
    ensures
        rows.0 == (if stake_top > 0 { stake_top } else { 0 }) as usize,
        rows.1 == (if stake_bottom < framebuffer.height() - 1 {
            stake_bottom as int
        } else {
            framebuffer.height() - 1
        }) as usize,
{
    let last = framebuffer.image_height() as isize - 1;
    let ys = if stake_top > 0 { stake_top } else { 0 };
    let ye = if stake_bottom < last { stake_bottom } else { last };
    (ys as usize, ye as usize)
}

} // verus!