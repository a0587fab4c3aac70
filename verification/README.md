# pacman_maze

A first-person maze game: the player walks a grid maze, collects every coin
and wins. The game logic is a verified Verus library under `src/`; the window,
input, sound, files and all floating-point geometry live in `app/`.

- `src/color.rs`: RGBA colours and the named colours of the game.
- `src/framebuffer.rs`: the picture the game draws into (pixel reads, writes, clearing).
- `src/maze.rs`: the maze grid, stepping into cells and collecting coins.
- `src/caster.rs`: where a ray of sight stops in the maze.
- `src/render.rs`: the minimap, the floor and the rows of a wall slice.
- `src/sprites.rs`: which cells are sprites, where a sprite lands on screen, texel coordinates.
- `src/game.rs`: the title / play / win screens and the frame-by-frame transitions.
