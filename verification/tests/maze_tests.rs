use pacman_maze::caster::ray_hit;
use pacman_maze::maze::{all_coins_collected, enter_cell, Maze};

fn maze(rows: &[&str]) -> Maze {
    rows.iter().map(|r| r.chars().collect()).collect()
}

#[test]
fn stepping_into_a_corridor_is_allowed() {
    let mut m = maze(&["+-+", "| |", "+-+"]);
    let before = m.clone();
    assert!(enter_cell(&mut m, 1, 1));
    assert_eq!(m, before);
}

#[test]
fn stepping_into_a_coin_collects_it() {
    let mut m = maze(&["+-+", "|c|", "+-+"]);
    assert!(!all_coins_collected(&m));
    assert!(enter_cell(&mut m, 1, 1));
    assert_eq!(m, maze(&["+-+", "| |", "+-+"]));
    assert!(all_coins_collected(&m));
}

#[test]
fn walls_refuse_the_step_and_stay() {
    let mut m = maze(&["+-+", "|c|", "+g+"]);
    let before = m.clone();
    assert!(!enter_cell(&mut m, 0, 0));
    assert!(!enter_cell(&mut m, 0, 1));
    assert!(!enter_cell(&mut m, 1, 2));
    assert!(!enter_cell(&mut m, 2, 1));
    assert_eq!(m, before);
}

#[test]
fn stepping_twice_is_stepping_once() {
    let mut m = maze(&["c c", "ccc"]);
    assert!(enter_cell(&mut m, 1, 0));
    let once = m.clone();
    assert!(enter_cell(&mut m, 1, 0));
    assert_eq!(m, once);
    assert_eq!(m, maze(&["c c", " cc"]));
}

#[test]
fn coins_are_counted_down_to_zero() {
    let mut m = maze(&["c c", "+c+"]);
    let coins = |m: &Maze| m.iter().flatten().filter(|&&c| c == 'c').count();
    assert_eq!(coins(&m), 3);
    enter_cell(&mut m, 0, 0);
    assert_eq!(coins(&m), 2);
    enter_cell(&mut m, 0, 1);
    assert_eq!(coins(&m), 2);
    enter_cell(&mut m, 1, 1);
    assert_eq!(coins(&m), 1);
    assert!(!all_coins_collected(&m));
    enter_cell(&mut m, 0, 2);
    assert_eq!(coins(&m), 0);
    assert!(all_coins_collected(&m));
}

#[test]
fn empty_maze_has_every_coin_collected() {
    assert!(all_coins_collected(&Vec::new()));
    assert!(all_coins_collected(&maze(&["", "+ +"])));
}

#[test]
fn rays_pass_corridors_and_coins_and_stop_at_walls() {
    let m = maze(&["+-+", "|c|", "+-g"]);
    assert_eq!(ray_hit(&m, 150, 150, 100), None);
    assert_eq!(ray_hit(&m, 99, 99, 100), Some('+'));
    assert_eq!(ray_hit(&m, 100, 0, 100), Some('-'));
    assert_eq!(ray_hit(&m, 299, 299, 100), Some('g'));
    assert_eq!(ray_hit(&m, 0, 150, 100), Some('|'));
    let open = maze(&["  ", "  "]);
    assert_eq!(ray_hit(&open, 1, 1, 1), None);
}

#[test]
fn rays_agree_with_movement() {
    let m = maze(&["+ c", "e|g"]);
    for row in 0..2 {
        for col in 0..3 {
            let mut copy = m.clone();
            let can_step = enter_cell(&mut copy, row, col);
            let stops = ray_hit(&m, col * 10 + 5, row * 10 + 5, 10).is_some();
            assert_eq!(can_step, !stops);
            assert_eq!(ray_hit(&copy, col * 10 + 5, row * 10 + 5, 10), ray_hit(&m, col * 10 + 5, row * 10 + 5, 10));
        }
    }
}
