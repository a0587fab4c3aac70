use pacman_maze::game::{maze_file, next_frame, FrameAction, Keys, MazeChoice, Screen};

fn keys() -> Keys {
    Keys { escape: false, enter: false, space: false, e: false, r: false }
}

#[test]
fn escape_quits_from_every_screen() {
    let k = Keys { escape: true, enter: true, ..keys() };
    for s in [Screen::Title, Screen::Playing, Screen::Won] {
        assert_eq!(next_frame(s, k, true), (s, FrameAction::Quit));
    }
}

#[test]
fn the_title_waits_for_a_maze() {
    assert_eq!(next_frame(Screen::Title, keys(), true), (Screen::Title, FrameAction::ShowTitle { load: None }));
    assert_eq!(
        next_frame(Screen::Title, Keys { enter: true, ..keys() }, true),
        (Screen::Playing, FrameAction::ShowTitle { load: Some(MazeChoice::Classic) })
    );
    assert_eq!(
        next_frame(Screen::Title, Keys { space: true, ..keys() }, true),
        (Screen::Playing, FrameAction::ShowTitle { load: Some(MazeChoice::Second) })
    );
    assert_eq!(
        next_frame(Screen::Title, Keys { e: true, ..keys() }, false),
        (Screen::Playing, FrameAction::ShowTitle { load: Some(MazeChoice::Extra) })
    );
}

#[test]
fn the_last_maze_key_checked_wins() {
    let all = Keys { enter: true, space: true, e: true, ..keys() };
    assert_eq!(next_frame(Screen::Title, all, true).1, FrameAction::ShowTitle { load: Some(MazeChoice::Extra) });
    let two = Keys { enter: true, space: true, ..keys() };
    assert_eq!(next_frame(Screen::Title, two, true).1, FrameAction::ShowTitle { load: Some(MazeChoice::Second) });
}

#[test]
fn play_goes_on_while_coins_remain() {
    assert_eq!(next_frame(Screen::Playing, keys(), true), (Screen::Playing, FrameAction::Play));
    assert_eq!(next_frame(Screen::Playing, Keys { r: true, ..keys() }, true), (Screen::Playing, FrameAction::Play));
    assert_eq!(next_frame(Screen::Playing, keys(), false), (Screen::Won, FrameAction::Play));
}

#[test]
fn the_win_screen_stays_until_restart() {
    assert_eq!(next_frame(Screen::Won, keys(), false), (Screen::Won, FrameAction::ShowWin { reset_player: false }));
    assert_eq!(
        next_frame(Screen::Won, Keys { enter: true, ..keys() }, true),
        (Screen::Won, FrameAction::ShowWin { reset_player: false })
    );
    assert_eq!(
        next_frame(Screen::Won, Keys { r: true, ..keys() }, false),
        (Screen::Title, FrameAction::ShowWin { reset_player: true })
    );
}

#[test]
fn mazes_are_read_from_their_files() {
    assert_eq!(maze_file(MazeChoice::Classic), "maze.txt");
    assert_eq!(maze_file(MazeChoice::Second), "maze2.txt");
    assert_eq!(maze_file(MazeChoice::Extra), "maze1.txt");
}
