use vstd::prelude::*;
use crate::maze::{Maze, grid, has_cell, blocks_ray, walkable, after_entering};

verus! {

/// Whether the world point `(x, y)` lies over a cell of the maze, cells being
/// `block_size` units wide and high.
pub open spec fn point_in_maze(g: Seq<Seq<char>>, x: int, y: int, block_size: int) -> bool {
    block_size > 0 && has_cell(g, y / block_size, x / block_size)
}

/// The cell under the world point `(x, y)`.
pub open spec fn cell_under(g: Seq<Seq<char>>, x: int, y: int, block_size: int) -> char {
    g[y / block_size][x / block_size]
}

/// What a ray that reaches `(x, y)` meets there: the cell, if it stops the ray.
pub open spec fn ray_meets(g: Seq<Seq<char>>, x: int, y: int, block_size: int) -> Option<char> {
    let cell = cell_under(g, x, y, block_size);
    if blocks_ray(cell) {
        Some(cell)
    } else {
        None
    }
}

/// One step of a ray through the maze: the ray has reached the world point
/// `(x, y)`; if the cell under it stops the ray, that cell is returned (the
/// ray ends there), and `None` means the ray goes on.
pub fn ray_hit(maze: &Maze, x: usize, y: usize, block_size: usize) -> (hit: Option<char>)
    requires
        point_in_maze(grid(maze), x as int, y as int, block_size as int),
    ensures
        hit == ray_meets(grid(maze), x as int, y as int, block_size as int),
        hit is None <==> (grid(maze)[(y / block_size) as int][(x / block_size) as int] == ' '
            || grid(maze)[(y / block_size) as int][(x / block_size) as int] == 'c'),
        hit is Some ==> hit == Some(grid(maze)[(y / block_size) as int][(x / block_size) as int]),
{
    let i = x / block_size;
    let j = y / block_size;
    let cell = maze[j][i];
    if cell != ' ' && cell != 'c' {
        Some(cell)
    } else {
        None
    }
}

/// Sight and movement agree: a ray stops at a cell exactly when the player
/// cannot step into it.
pub proof fn lemma_ray_stops_where_player_cannot_step(g: Seq<Seq<char>>, x: int, y: int, block_size: int)
    requires
        point_in_maze(g, x, y, block_size),
    ensures
        ray_meets(g, x, y, block_size) is Some <==> !walkable(cell_under(g, x, y, block_size)),
{
}

/// Collecting coins never changes what a ray meets: stepping into any cell
/// leaves every ray's stopping points as they were.
pub proof fn lemma_entering_keeps_rays(g: Seq<Seq<char>>, row: int, col: int, x: int, y: int, block_size: int)
    requires
        has_cell(g, row, col),
        point_in_maze(g, x, y, block_size),
    ensures
        point_in_maze(after_entering(g, row, col), x, y, block_size),
        ray_meets(after_entering(g, row, col), x, y, block_size) == ray_meets(g, x, y, block_size),
{
}

/// When a ray stops, it reports the very cell under the point it reached; it
/// passes exactly the corridors `' '` and coins `'c'` and stops at anything
/// else, enemies and the goal included.
pub proof fn lemma_ray_reports_the_cell(g: Seq<Seq<char>>, x: int, y: int, block_size: int)
    requires
        point_in_maze(g, x, y, block_size),
    ensures
        ray_meets(g, x, y, block_size) is Some ==> ray_meets(g, x, y, block_size) == Some(g[y / block_size][x / block_size]),
        ray_meets(g, x, y, block_size) is None <==> (g[y / block_size][x / block_size] == ' '
            || g[y / block_size][x / block_size] == 'c'),
        cell_under(g, x, y, block_size) == g[y / block_size][x / block_size],
{
}

} // verus!
