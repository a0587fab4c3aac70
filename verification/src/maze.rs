use vstd::prelude::*;

verus! {

/// A maze: rows of cells. `' '` is an empty corridor, `'c'` a coin lying in
/// a corridor, and any other character a wall (or an enemy).
pub type Maze = Vec<Vec<char>>;

/// The cells of a maze, row by row.
pub open spec fn grid(maze: &Maze) -> Seq<Seq<char>> {
    Seq::new(maze@.len(), |r: int| maze@[r]@)
}

/// Whether `(row, col)` names a cell of the grid.
pub open spec fn has_cell(g: Seq<Seq<char>>, row: int, col: int) -> bool {
    0 <= row < g.len() && 0 <= col < g[row].len()
}

/// The player may step into a corridor, with or without a coin in it.
pub open spec fn walkable(cell: char) -> bool {
    cell == ' ' || cell == 'c'
}

/// A ray of sight passes through corridors and coins and stops at anything else.
pub open spec fn blocks_ray(cell: char) -> bool {
    cell != ' ' && cell != 'c'
}

/// The number of coins in a row.
pub open spec fn row_coins(row: Seq<char>) -> nat
    decreases row.len(),
{
    if row.len() == 0 {
        0
    } else {
        row_coins(row.drop_last()) + (if row.last() == 'c' { 1nat } else { 0nat })
    }
}

/// The number of coins in the first `n` rows of a grid.
pub open spec fn coins_in_rows(g: Seq<Seq<char>>, n: int) -> nat
    decreases n,
{
    if n <= 0 {
        0
    } else {
        coins_in_rows(g, n - 1) + row_coins(g[n - 1])
    }
}

/// The number of coins left in the maze.
pub open spec fn coin_count(g: Seq<Seq<char>>) -> nat {
    coins_in_rows(g, g.len() as int)
}

/// No cell of the grid holds a coin.
pub open spec fn no_coins(g: Seq<Seq<char>>) -> bool {
    forall|r: int, c: int| has_cell(g, r, c) ==> #[trigger] g[r][c] != 'c'
}

/// What stepping into `(row, col)` leaves of the grid: a coin there is picked up.
pub open spec fn after_entering(g: Seq<Seq<char>>, row: int, col: int) -> Seq<Seq<char>> {
    if g[row][col] == 'c' {
        g.update(row, g[row].update(col, ' '))
    } else {
        g
    }
}

/// The player tries to step into the cell at `(row, col)`: the step is allowed
/// onto a corridor, and a coin lying there is collected (the cell becomes a
/// plain corridor). Walls refuse the step and stay as they are.
pub fn enter_cell(maze: &mut Maze, row: usize, col: usize) -> (moved: bool)
    requires
        has_cell(grid(old(maze)), row as int, col as int),
    ensures
        moved == walkable(grid(old(maze))[row as int][col as int]),
        moved == (grid(old(maze))[row as int][col as int] == ' ' || grid(old(maze))[row as int][col as int] == 'c'),
        grid(final(maze)) == after_entering(grid(old(maze)), row as int, col as int),
        !moved ==> grid(final(maze)) == grid(old(maze)),
        grid(final(maze)).len() == grid(old(maze)).len(),
        forall|r: int| 0 <= r < grid(old(maze)).len() ==> #[trigger] grid(final(maze))[r].len() == grid(old(maze))[r].len(),
        grid(final(maze))[row as int][col as int] == (if grid(old(maze))[row as int][col as int] == 'c' {
            ' '
        } else {
            grid(old(maze))[row as int][col as int]
        }),
        forall|r: int, c: int| has_cell(grid(old(maze)), r, c) && (r != row || c != col) ==>
            #[trigger] grid(final(maze))[r][c] == grid(old(maze))[r][c],
{
    let cell = maze[row][col];
    if cell == ' ' {
        true
    } else if cell == 'c' {
        let ghost g0 = grid(maze);
        maze[row][col] = ' ';
        assert(grid(maze) =~~= g0.update(row as int, g0[row as int].update(col as int, ' ')));
        true
    } else {
        false
    }
}

/// Whether every coin of the maze has been collected.
pub fn all_coins_collected(maze: &Maze) -> (done: bool)
    ensures
        done == no_coins(grid(maze)),
        done <==> (forall|r: int, c: int| has_cell(grid(maze), r, c) ==> #[trigger] grid(maze)[r][c] != 'c'),
{
    let mut r: usize = 0;
    while r < maze.len()
        invariant
            r <= maze@.len(),
            forall|r2: int, c: int| 0 <= r2 < r && has_cell(grid(maze), r2, c) ==> #[trigger] grid(maze)[r2][c] != 'c',
        decreases maze@.len() - r,
    {
        let row = &maze[r];
        let mut c: usize = 0;
        while c < row.len()
            invariant
                r < maze@.len(),
                row@ == grid(maze)[r as int],
                c <= row@.len(),
                forall|c2: int| 0 <= c2 < c ==> #[trigger] row@[c2] != 'c',
            decreases row@.len() - c,
        {
            if row[c] == 'c' {
                assert(grid(maze)[r as int][c as int] == 'c');
                return false;
            }
            c += 1;
        }
        r += 1;
    }
    true
}

/// Replacing a coin of a row by a corridor removes exactly one coin from it.
proof fn lemma_row_coins_pick(row: Seq<char>, i: int)
    requires
        0 <= i < row.len(),
        row[i] == 'c',
    ensures
        row_coins(row.update(i, ' ')) + 1 == row_coins(row),
    decreases row.len(),
{
    let row2 = row.update(i, ' ');
    if i == row.len() - 1 {
        assert(row2.drop_last() =~= row.drop_last());
    } else {
        lemma_row_coins_pick(row.drop_last(), i);
        assert(row2.drop_last() =~= row.drop_last().update(i, ' '));
    }
}

/// A row has no coin exactly when no cell of it is a coin.
proof fn lemma_row_coins_zero(row: Seq<char>)
    ensures
        (row_coins(row) == 0) <==> (forall|i: int| 0 <= i < row.len() ==> #[trigger] row[i] != 'c'),
    decreases row.len(),
{
    if row.len() > 0 {
        lemma_row_coins_zero(row.drop_last());
        if row_coins(row) == 0 {
            assert forall|i: int| 0 <= i < row.len() implies #[trigger] row[i] != 'c' by {
                if i < row.len() - 1 {
                    assert(row.drop_last()[i] == row[i]);
                }
            }
        } else if row_coins(row.drop_last()) > 0 {
            let i = choose|i: int| 0 <= i < row.drop_last().len() && #[trigger] row.drop_last()[i] == 'c';
            assert(row[i] == 'c');
        } else {
            assert(row[row.len() - 1] == 'c');
        }
    }
}

/// Changing row `r` changes the coin count of the first `n` rows (`n > r`) by
/// the change of that row's own count.
proof fn lemma_coins_in_rows_update(g: Seq<Seq<char>>, r: int, row: Seq<char>, n: int)
    requires
        0 <= r < g.len(),
        n <= g.len(),
    ensures
        n <= r ==> coins_in_rows(g.update(r, row), n) == coins_in_rows(g, n),
        n > r ==> coins_in_rows(g.update(r, row), n) + row_coins(g[r]) == coins_in_rows(g, n) + row_coins(row),
    decreases n,
{
    if n > 0 {
        lemma_coins_in_rows_update(g, r, row, n - 1);
    }
}

/// The first `n` rows hold no coin exactly when no cell in them is a coin.
proof fn lemma_coins_in_rows_zero(g: Seq<Seq<char>>, n: int)
    requires
        n <= g.len(),
    ensures
        (coins_in_rows(g, n) == 0) <==> (forall|r: int, c: int|
            0 <= r < n && has_cell(g, r, c) ==> #[trigger] g[r][c] != 'c'),
    decreases n,
{
    if n > 0 {
        lemma_coins_in_rows_zero(g, n - 1);
        lemma_row_coins_zero(g[n - 1]);
        if coins_in_rows(g, n) != 0 {
            if coins_in_rows(g, n - 1) != 0 {
                let (r, c) = choose|r: int, c: int| 0 <= r < n - 1 && has_cell(g, r, c) && #[trigger] g[r][c] == 'c';
                assert(g[r][c] == 'c');
            } else {
                let c = choose|c: int| 0 <= c < g[n - 1].len() && #[trigger] g[n - 1][c] == 'c';
                assert(g[n - 1][c] == 'c');
            }
        }
    }
}

/// The maze counts no coin exactly when none of its cells holds one; so
/// `all_coins_collected` answers whether the coin count has reached zero.
pub proof fn lemma_no_coins_iff_count_zero(g: Seq<Seq<char>>)
    ensures
        no_coins(g) <==> coin_count(g) == 0,
{
    lemma_coins_in_rows_zero(g, g.len() as int);
}

/// Stepping into a cell collects the coin lying there, if any, and nothing
/// else: the coin count drops by one exactly when the cell held a coin.
pub proof fn lemma_entering_collects_one_coin(g: Seq<Seq<char>>, row: int, col: int)
    requires
        has_cell(g, row, col),
    ensures
        coin_count(after_entering(g, row, col)) + (if g[row][col] == 'c' { 1int } else { 0int })
            == coin_count(g),
{
    if g[row][col] == 'c' {
        lemma_row_coins_pick(g[row], col);
        lemma_coins_in_rows_update(g, row, g[row].update(col, ' '), g.len() as int);
    }
}

/// Stepping into the same cell twice does what stepping into it once does:
/// the second step gets the same answer and changes nothing more.
pub proof fn lemma_entering_twice(g: Seq<Seq<char>>, row: int, col: int)
    requires
        has_cell(g, row, col),
    ensures
        has_cell(after_entering(g, row, col), row, col),
        walkable(after_entering(g, row, col)[row][col]) == walkable(g[row][col]),
        after_entering(after_entering(g, row, col), row, col) == after_entering(g, row, col),
{
}

/// Stepping into a cell changes no cell but that one, and that one only from a
/// coin to a corridor: walls and the shape of the maze stay as they are.
pub proof fn lemma_entering_keeps_other_cells(g: Seq<Seq<char>>, row: int, col: int, r: int, c: int)
    requires
        has_cell(g, row, col),
        has_cell(g, r, c),
    ensures
        after_entering(g, row, col).len() == g.len(),
        after_entering(g, row, col)[r].len() == g[r].len(),
        (r != row || c != col) ==> after_entering(g, row, col)[r][c] == g[r][c],
        blocks_ray(g[r][c]) ==> after_entering(g, row, col)[r][c] == g[r][c],
{
}

/// Stepping is allowed onto exactly two kinds of cell, a corridor `' '` and a
/// coin `'c'`; every other character (walls, the goal, enemies) refuses it.
pub proof fn lemma_walkable_cells(cell: char)
    ensures
        walkable(cell) <==> (cell == ' ' || cell == 'c'),
        (cell == 'e' || cell == '+' || cell == '-' || cell == '|' || cell == 'g') ==> !walkable(cell),
{
}

/// A refused step leaves the maze as it was; an allowed one changes at most
/// the cell stepped into, from a coin to a corridor.
pub proof fn lemma_step_outcome(g: Seq<Seq<char>>, row: int, col: int)
    requires
        has_cell(g, row, col),
    ensures
        !(g[row][col] == ' ' || g[row][col] == 'c') ==> after_entering(g, row, col) == g,
        g[row][col] == ' ' ==> after_entering(g, row, col) == g,
        g[row][col] == 'c' ==> after_entering(g, row, col) == g.update(row, g[row].update(col, ' ')),
        forall|r: int, c: int| has_cell(g, r, c) ==> #[trigger] after_entering(g, row, col)[r][c] == (
            if r == row && c == col && g[r][c] == 'c' { ' ' } else { g[r][c] }),
{
}

/// Only coins count toward the coin total: a row without any `'c'` counts zero,
/// and each `'c'` counts one.
pub proof fn lemma_row_coins_counts_c(row: Seq<char>, ch: char)
    ensures
        row_coins(row.push(ch)) == row_coins(row) + (if ch == 'c' { 1nat } else { 0nat }),
{
    assert(row.push(ch).drop_last() =~= row);
}

} // verus!
