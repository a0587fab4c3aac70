use vstd::prelude::*;
use crate::color::Color;
use crate::framebuffer::FrameBuffer;
use crate::maze::{Maze, grid, has_cell};

verus! {

/// A cell of the maze that is drawn as a billboard sprite: a coin (`'c'`) or an
/// enemy (`'e'`), with its row, column and kind.
#[derive(Clone, Copy, Debug, PartialEq, Eq, Structural)]
pub struct SpriteCell {
    pub row: usize,
    pub col: usize,
    pub kind: char,
}

/// Coins and enemies are drawn as sprites.
pub open spec fn is_sprite(cell: char) -> bool {
    cell == 'c' || cell == 'e'
}

/// The sprite cells among the first `n` cells of row `r`, left to right.
pub open spec fn row_sprites(row: Seq<char>, r: int, n: int) -> Seq<SpriteCell>
    decreases n,
{
    if n <= 0 {
        Seq::empty()
    } else if is_sprite(row[n - 1]) {
        row_sprites(row, r, n - 1).push(SpriteCell { row: r as usize, col: (n - 1) as usize, kind: row[n - 1] })
    } else {
        row_sprites(row, r, n - 1)
    }
}

/// The sprite cells of the first `n` rows of the grid, row by row and left to right.
pub open spec fn grid_sprites(g: Seq<Seq<char>>, n: int) -> Seq<SpriteCell>
    decreases n,
{
    if n <= 0 {
        Seq::empty()
    } else {
        grid_sprites(g, n - 1) + row_sprites(g[n - 1], n - 1, g[n - 1].len() as int)
    }
}

/// The coins and enemies of the maze, in the order in which they are drawn:
/// row by row, left to right.
pub fn sprite_cells(maze: &Maze) -> (cells: Vec<SpriteCell>)
    ensures
        cells@ == grid_sprites(grid(maze), grid(maze).len() as int),
{
    let ghost g = grid(maze);
    let mut cells: Vec<SpriteCell> = Vec::new();
    let mut r: usize = 0;
    while r < maze.len()
        invariant
            g == grid(maze),
            r <= g.len(),
            cells@ == grid_sprites(g, r as int),
        decreases g.len() - r,
    {
        let row = &maze[r];
        let ghost before = cells@;
        let mut c: usize = 0;
        while c < row.len()
            invariant
                g == grid(maze),
                r < g.len(),
                row@ == g[r as int],
                c <= row@.len(),
                before == grid_sprites(g, r as int),
                cells@ == before + row_sprites(g[r as int], r as int, c as int),
            decreases row@.len() - c,
        {
            let cell = row[c];
            if cell == 'c' || cell == 'e' {
                cells.push(SpriteCell { row: r, col: c, kind: cell });
                assert(cells@ =~= before + row_sprites(g[r as int], r as int, c + 1));
            }
            c += 1;
        }
        r += 1;
    }
    cells
}

/// Every entry of the first `n` cells of a row names a sprite cell at its
/// place, and every sprite cell there is named.
proof fn lemma_row_sprites_exact(row: Seq<char>, r: int, n: int)
    requires
        0 <= r <= usize::MAX,
        0 <= n <= row.len(),
        row.len() <= usize::MAX + 1,
    ensures
        forall|i: int| 0 <= i < row_sprites(row, r, n).len() ==> {
            let s = #[trigger] row_sprites(row, r, n)[i];
            &&& s.row == r
            &&& s.col < n
            &&& row[s.col as int] == s.kind
            &&& is_sprite(s.kind)
        },
        forall|c: int| 0 <= c < n && is_sprite(#[trigger] row[c]) ==> row_sprites(row, r, n).contains(
            SpriteCell { row: r as usize, col: c as usize, kind: row[c] },
        ),
        forall|i: int, j: int|
            0 <= i < j < row_sprites(row, r, n).len() ==> #[trigger] row_sprites(row, r, n)[i].col
                < #[trigger] row_sprites(row, r, n)[j].col,
    decreases n,
{
    if n > 0 {
        lemma_row_sprites_exact(row, r, n - 1);
        let prev = row_sprites(row, r, n - 1);
        assert forall|i: int, j: int|
            0 <= i < j < row_sprites(row, r, n).len() implies #[trigger] row_sprites(row, r, n)[i].col
                < #[trigger] row_sprites(row, r, n)[j].col by {
            assert(row_sprites(row, r, n)[i] == prev[i]);
            if j < prev.len() {
                assert(row_sprites(row, r, n)[j] == prev[j]);
            }
        }
        assert forall|c: int| 0 <= c < n && is_sprite(#[trigger] row[c]) implies row_sprites(row, r, n).contains(
            SpriteCell { row: r as usize, col: c as usize, kind: row[c] },
        ) by {
            let s = SpriteCell { row: r as usize, col: c as usize, kind: row[c] };
            if c < n - 1 {
                let i = choose|i: int| 0 <= i < prev.len() && prev[i] == s;
                if is_sprite(row[n - 1]) {
                    assert(row_sprites(row, r, n)[i] == s);
                }
            } else {
                assert(row_sprites(row, r, n)[prev.len() as int] == s);
            }
        }
    }
}

proof fn lemma_grid_sprites_exact(g: Seq<Seq<char>>, n: int)
    requires
        0 <= n <= g.len(),
        g.len() <= usize::MAX + 1,
        forall|r: int| 0 <= r < g.len() ==> #[trigger] g[r].len() <= usize::MAX + 1,
    ensures
        forall|i: int| 0 <= i < grid_sprites(g, n).len() ==> {
            let s = #[trigger] grid_sprites(g, n)[i];
            &&& s.row < n
            &&& has_cell(g, s.row as int, s.col as int)
            &&& g[s.row as int][s.col as int] == s.kind
            &&& is_sprite(s.kind)
        },
        forall|r: int, c: int| 0 <= r < n && has_cell(g, r, c) && is_sprite(#[trigger] g[r][c]) ==> grid_sprites(g, n).contains(
            SpriteCell { row: r as usize, col: c as usize, kind: g[r][c] },
        ),
        forall|i: int, j: int|
            0 <= i < j < grid_sprites(g, n).len() ==> (#[trigger] grid_sprites(g, n)[i]).row < (
            #[trigger] grid_sprites(g, n)[j]).row || (grid_sprites(g, n)[i].row == grid_sprites(g, n)[j].row
                && grid_sprites(g, n)[i].col < grid_sprites(g, n)[j].col),
    decreases n,
{
    if n > 0 {
        lemma_grid_sprites_exact(g, n - 1);
        lemma_row_sprites_exact(g[n - 1], n - 1, g[n - 1].len() as int);
        let prev = grid_sprites(g, n - 1);
        let last = row_sprites(g[n - 1], n - 1, g[n - 1].len() as int);
        let all = grid_sprites(g, n);
        assert forall|i: int, j: int| 0 <= i < j < all.len() implies (#[trigger] all[i]).row < (
            #[trigger] all[j]).row || (all[i].row == all[j].row && all[i].col < all[j].col) by {
            if j < prev.len() {
                assert(all[i] == prev[i]);
                assert(all[j] == prev[j]);
            } else if i < prev.len() {
                assert(all[i] == prev[i]);
                assert(all[j] == last[j - prev.len()]);
            } else {
                assert(all[i] == last[i - prev.len()]);
                assert(all[j] == last[j - prev.len()]);
            }
        }
        assert forall|i: int| 0 <= i < grid_sprites(g, n).len() implies {
            let s = #[trigger] grid_sprites(g, n)[i];
            &&& s.row < n
            &&& has_cell(g, s.row as int, s.col as int)
            &&& g[s.row as int][s.col as int] == s.kind
            &&& is_sprite(s.kind)
        } by {
            if i < prev.len() {
                assert(grid_sprites(g, n)[i] == prev[i]);
            } else {
                assert(grid_sprites(g, n)[i] == last[i - prev.len()]);
            }
        }
        assert forall|r: int, c: int| 0 <= r < n && has_cell(g, r, c) && is_sprite(#[trigger] g[r][c]) implies grid_sprites(g, n).contains(
            SpriteCell { row: r as usize, col: c as usize, kind: g[r][c] },
        ) by {
            let s = SpriteCell { row: r as usize, col: c as usize, kind: g[r][c] };
            if r < n - 1 {
                let i = choose|i: int| 0 <= i < prev.len() && prev[i] == s;
                assert(grid_sprites(g, n)[i] == s);
            } else {
                let i = choose|i: int| 0 <= i < last.len() && last[i] == s;
                assert(grid_sprites(g, n)[prev.len() + i] == s);
            }
        }
    }
}

/// The sprites listed for a maze are exactly its coins `'c'` and enemies
/// `'e'`, in row-major order: each entry names a cell of the maze holding a
/// coin or an enemy of that kind, each such cell is listed, and entries come
/// row by row, left to right, with no cell twice.
pub proof fn lemma_sprites_are_exactly_coins_and_enemies(g: Seq<Seq<char>>)
    requires
        g.len() <= usize::MAX + 1,
        forall|r: int| 0 <= r < g.len() ==> #[trigger] g[r].len() <= usize::MAX + 1,
    ensures
        forall|i: int| 0 <= i < grid_sprites(g, g.len() as int).len() ==> {
            let s = #[trigger] grid_sprites(g, g.len() as int)[i];
            &&& has_cell(g, s.row as int, s.col as int)
            &&& g[s.row as int][s.col as int] == s.kind
            &&& (s.kind == 'c' || s.kind == 'e')
        },
        forall|r: int, c: int|
            has_cell(g, r, c) && (#[trigger] g[r][c] == 'c' || g[r][c] == 'e') ==> grid_sprites(
                g,
                g.len() as int,
            ).contains(SpriteCell { row: r as usize, col: c as usize, kind: g[r][c] }),
        forall|i: int, j: int|
            0 <= i < j < grid_sprites(g, g.len() as int).len() ==> (#[trigger] grid_sprites(g, g.len() as int)[i]).row
                < (#[trigger] grid_sprites(g, g.len() as int)[j]).row || (grid_sprites(g, g.len() as int)[i].row
                == grid_sprites(g, g.len() as int)[j].row && grid_sprites(g, g.len() as int)[i].col < grid_sprites(
                g,
                g.len() as int,
            )[j].col),
{
    lemma_grid_sprites_exact(g, g.len() as int);
}

/// The block of the picture that a sprite covers: columns
/// `start_x..end_x`, rows `start_y..end_y`.
#[derive(Clone, Copy, Debug, PartialEq, Eq, Structural)]
pub struct SpriteRect {
    pub start_x: usize,
    pub end_x: usize,
    pub start_y: usize,
    pub end_y: usize,
}

/// Half of `size` read as an `isize` (sizes above `isize::MAX` wrap to
/// negative numbers), rounded toward zero.
pub open spec fn signed_half(size: usize) -> int {
    if size <= isize::MAX {
        (size / 2) as int
    } else {
        -((usize::MAX - size + 1) / 2)
    }
}

/// The leftmost column of a sprite centred on column `screen_x`, before it is
/// held at the left edge.
pub open spec fn sprite_left(screen_x: isize, sprite_size: usize) -> int {
    screen_x - signed_half(sprite_size)
}

/// The block a sprite of side `sprite_size`, centred on column `screen_x` and
/// on the middle row, covers: held at the left and top edges, cut at the right
/// and bottom edges of the picture.
pub open spec fn sprite_rect_of(width: nat, height: nat, screen_x: isize, sprite_size: usize) -> SpriteRect {
    let left = sprite_left(screen_x, sprite_size);
    let start_x = (if left > 0 { left } else { 0 }) as usize;
    let half_screen = height / 2;
    let half_sprite = sprite_size / 2;
    let start_y = (if half_screen >= half_sprite { half_screen - half_sprite } else { 0 }) as usize;
    SpriteRect {
        start_x,
        end_x: (if start_x + sprite_size < width { start_x + sprite_size } else { width as int }) as usize,
        start_y,
        end_y: (if start_y + sprite_size < height { start_y + sprite_size } else { height as int }) as usize,
    }
}

/// The block of the picture that a sprite of side `sprite_size`, centred on
/// column `screen_x` and on the middle row, covers.
pub fn sprite_rect(framebuffer: &FrameBuffer, screen_x: isize, sprite_size: usize) -> (rect: SpriteRect)
    requires
        isize::MIN <= sprite_left(screen_x, sprite_size) <= isize::MAX,
        sprite_rect_of(framebuffer.width(), framebuffer.height(), screen_x, sprite_size).start_x
            + sprite_size <= usize::MAX,
        sprite_rect_of(framebuffer.width(), framebuffer.height(), screen_x, sprite_size).start_y
            + sprite_size <= usize::MAX,
    ensures
        rect == sprite_rect_of(framebuffer.width(), framebuffer.height(), screen_x, sprite_size),
{
    let half: isize = if sprite_size <= isize::MAX as usize {
        (sprite_size / 2) as isize
    } else {
        let m = usize::MAX - sprite_size;
        -(((m + 1) / 2) as isize)
    };
    let left = screen_x - half;
    let start_x: usize = if left > 0 { left as usize } else { 0 };
    let width = framebuffer.image_width() as usize;
    let height = framebuffer.image_height() as usize;
    let half_screen = height / 2;
    let half_sprite = sprite_size / 2;
    let start_y = half_screen.saturating_sub(half_sprite);
    let end_x = if start_x + sprite_size < width { start_x + sprite_size } else { width };
    let end_y = if start_y + sprite_size < height { start_y + sprite_size } else { height };
    SpriteRect { start_x, end_x, start_y, end_y }
}

/// A sprite's block never reaches past the right or bottom edge of the
/// picture, and every column and row of it lies less than one sprite side
/// from its start.
pub proof fn lemma_sprite_rect_on_screen(width: nat, height: nat, screen_x: isize, sprite_size: usize, x: int, y: int)
    requires
        sprite_rect_of(width, height, screen_x, sprite_size).start_x + sprite_size <= usize::MAX,
        sprite_rect_of(width, height, screen_x, sprite_size).start_y + sprite_size <= usize::MAX,
        width <= usize::MAX,
        height <= usize::MAX,
    ensures
        ({
            let rect = sprite_rect_of(width, height, screen_x, sprite_size);
            &&& rect.end_x <= width
            &&& rect.end_y <= height
            &&& rect.start_x <= x < rect.end_x ==> 0 <= x - rect.start_x < sprite_size && x < width
            &&& rect.start_y <= y < rect.end_y ==> 0 <= y - rect.start_y < sprite_size && y < height
        }),
{
}

/// Where a sprite's block lies: it starts half a sprite left of `screen_x`
/// (the half of the size read as an `isize`, rounded toward zero), but not
/// left of column 0; it starts half a sprite above the middle row, but not
/// above row 0; it ends one sprite side further on, but not past the right or
/// bottom edge.
pub proof fn lemma_sprite_rect_placement(width: nat, height: nat, screen_x: isize, sprite_size: usize)
    ensures
        ({
            let rect = sprite_rect_of(width, height, screen_x, sprite_size);
            let half: int = if sprite_size <= isize::MAX {
                sprite_size as int / 2
            } else {
                -((usize::MAX as int + 1 - sprite_size as int) / 2)
            };
            let left: int = screen_x as int - half;
            let top: int = height as int / 2 - sprite_size as int / 2;
            &&& rect.start_x == (if left > 0 { left } else { 0 }) as usize
            &&& rect.start_y == (if top > 0 { top } else { 0 }) as usize
            &&& rect.end_x == (if rect.start_x + sprite_size < width { rect.start_x + sprite_size } else {
                width as int
            }) as usize
            &&& rect.end_y == (if rect.start_y + sprite_size < height { rect.start_y + sprite_size } else {
                height as int
            }) as usize
        }),
{
}

/// The texture coordinate (of a 128-texel texture) for a pixel `offset`
/// pixels into a sprite of side `sprite_size`.
pub fn texel_coord(offset: usize, sprite_size: usize) -> (t: u32)
    requires
        sprite_size > 0,
        offset * 128 <= usize::MAX,
    ensures
        t == ((offset * 128) / (sprite_size as int)) as u32,
{
    ((offset * 128) / sprite_size) as u32
}

/// A pixel that lies inside its sprite reads a texel inside the texture.
pub proof fn lemma_texel_in_texture(offset: usize, sprite_size: usize)
    requires
        offset < sprite_size,
        offset * 128 <= usize::MAX,
    ensures
        0 <= (offset * 128) / (sprite_size as int) < 128,
        ((offset * 128) / (sprite_size as int)) as u32 == (offset * 128) / (sprite_size as int),
{
    assert(0 <= (offset * 128) / (sprite_size as int) < 128) by (nonlinear_arith)
        requires offset < sprite_size, 0 <= offset;
}

/// Puts one texel of a sprite on the picture: texels in the texture's
/// transparent colour are skipped.
pub fn plot_sprite_texel(framebuffer: &mut FrameBuffer, x: i32, y: i32, color: Color)
    ensures
        final(framebuffer).width() == old(framebuffer).width(),
        final(framebuffer).height() == old(framebuffer).height(),
        final(framebuffer).background() == old(framebuffer).background(),
        final(framebuffer).spec_pixel_size() == old(framebuffer).spec_pixel_size(),
        final(framebuffer)@ == (if color != Color::spec_transparent() {
            old(framebuffer).view_after_set(x as int, y as int, color)
        } else {
            old(framebuffer)@
        }),
{
    if color != Color::transparent() {
        framebuffer.set_pixel(x, y, color);
    }
}

} // verus!
