use vstd::prelude::*;

verus! {

/// Which screen the game shows.
#[derive(Clone, Copy, Debug, PartialEq, Eq, Structural)]
pub enum Screen {
    /// The start picture, waiting for a maze to be chosen.
    Title,
    /// The maze is being played.
    Playing,
    /// Every coin was collected: the win picture.
    Won,
}

/// The mazes that can be chosen on the title screen.
#[derive(Clone, Copy, Debug, PartialEq, Eq, Structural)]
pub enum MazeChoice {
    /// Chosen with Enter: `maze.txt`.
    Classic,
    /// Chosen with Space: `maze2.txt`.
    Second,
    /// Chosen with E: `maze1.txt`.
    Extra,
}

/// The keys pressed during one frame that the game reacts to.
#[derive(Clone, Copy, Debug, PartialEq, Eq, Structural)]
pub struct Keys {
    pub escape: bool,
    pub enter: bool,
    pub space: bool,
    pub e: bool,
    pub r: bool,
}

/// What the frame has to do.
#[derive(Clone, Copy, Debug, PartialEq, Eq, Structural)]
pub enum FrameAction {
    /// Leave the game.
    Quit,
    /// Show the title picture, after loading the chosen maze if there is one.
    ShowTitle { load: Option<MazeChoice> },
    /// Show the win picture, after putting the player back at the start if asked.
    ShowWin { reset_player: bool },
    /// Move the player and draw the maze.
    Play,
}

/// The maze that the keys of a title-screen frame choose: when several are
/// pressed, E wins over Space, which wins over Enter.
pub open spec fn chosen_maze(keys: Keys) -> Option<MazeChoice> {
    if keys.e {
        Some(MazeChoice::Extra)
    } else if keys.space {
        Some(MazeChoice::Second)
    } else if keys.enter {
        Some(MazeChoice::Classic)
    } else {
        None
    }
}

/// One frame of the game: from the screen shown, the keys pressed and whether
/// coins remain in the maze (counted before the player moves), the next
/// screen and what the frame does.
pub open spec fn frame_transition(screen: Screen, keys: Keys, coins_remain: bool) -> (Screen, FrameAction) {
    if keys.escape {
        (screen, FrameAction::Quit)
    } else {
        match screen {
            Screen::Title => {
                let load = chosen_maze(keys);
                (if load is Some { Screen::Playing } else { Screen::Title }, FrameAction::ShowTitle { load })
            },
            Screen::Won => {
                (if keys.r { Screen::Title } else { Screen::Won }, FrameAction::ShowWin { reset_player: keys.r })
            },
            Screen::Playing => {
                (if coins_remain { Screen::Playing } else { Screen::Won }, FrameAction::Play)
            },
        }
    }
}

/// Decides one frame of the game.
pub fn next_frame(screen: Screen, keys: Keys, coins_remain: bool) -> (next: (Screen, FrameAction))
    ensures
        next == frame_transition(screen, keys, coins_remain),
        keys.escape ==> next == (screen, FrameAction::Quit),
        (!keys.escape && screen == Screen::Playing) ==> next == (
            if coins_remain { Screen::Playing } else { Screen::Won },
            FrameAction::Play,
        ),
        (!keys.escape && screen == Screen::Won) ==> next == (
            if keys.r { Screen::Title } else { Screen::Won },
            FrameAction::ShowWin { reset_player: keys.r },
        ),
{
    if keys.escape {
        return (screen, FrameAction::Quit);
    }
    match screen {
        Screen::Title => {
            let mut load: Option<MazeChoice> = None;
            if keys.enter {
                load = Some(MazeChoice::Classic);
            }
            if keys.space {
                load = Some(MazeChoice::Second);
            }
            if keys.e {
                load = Some(MazeChoice::Extra);
            }
            let next = match load {
                Some(_) => Screen::Playing,
                None => Screen::Title,
            };
            (next, FrameAction::ShowTitle { load })
        },
        Screen::Won => {
            if keys.r {
                (Screen::Title, FrameAction::ShowWin { reset_player: true })
            } else {
                (Screen::Won, FrameAction::ShowWin { reset_player: false })
            }
        },
        Screen::Playing => {
            if coins_remain {
                (Screen::Playing, FrameAction::Play)
            } else {
                (Screen::Won, FrameAction::Play)
            }
        },
    }
}

/// The file that holds a maze.
pub fn maze_file(choice: MazeChoice) -> (name: &'static str)
    ensures
        name@ == (match choice {
            MazeChoice::Classic => "maze.txt"@,
            MazeChoice::Second => "maze2.txt"@,
            MazeChoice::Extra => "maze1.txt"@,
        }),
{
    match choice {
        MazeChoice::Classic => "maze.txt",
        MazeChoice::Second => "maze2.txt",
        MazeChoice::Extra => "maze1.txt",
    }
}

/// Escape ends the game from any screen, and the screen is left as it was.
pub proof fn lemma_escape_quits(screen: Screen, keys: Keys, coins_remain: bool)
    requires
        keys.escape,
    ensures
        frame_transition(screen, keys, coins_remain) == (screen, FrameAction::Quit),
{
}

/// The game is won exactly when a frame of play finds no coin left; no other
/// screen leads to the win screen.
pub proof fn lemma_win_only_by_collecting_every_coin(screen: Screen, keys: Keys, coins_remain: bool)
    ensures
        (frame_transition(screen, keys, coins_remain).0 == Screen::Won && screen != Screen::Won) <==> (
        screen == Screen::Playing && !keys.escape && !coins_remain),
{
}

/// Once won, the game stays on the win screen until R is pressed, which goes
/// back to the title and puts the player back at the start.
pub proof fn lemma_won_until_restart(keys: Keys, coins_remain: bool)
    requires
        !keys.escape,
    ensures
        frame_transition(Screen::Won, keys, coins_remain) == (if keys.r {
            (Screen::Title, FrameAction::ShowWin { reset_player: true })
        } else {
            (Screen::Won, FrameAction::ShowWin { reset_player: false })
        }),
{
}

/// Play starts only from the title screen, and only in the frame that loads a
/// chosen maze.
pub proof fn lemma_play_starts_with_a_maze(screen: Screen, keys: Keys, coins_remain: bool)
    ensures
        (screen != Screen::Playing && frame_transition(screen, keys, coins_remain).0 == Screen::Playing) ==> (
        screen == Screen::Title && frame_transition(screen, keys, coins_remain).1 == FrameAction::ShowTitle {
            load: chosen_maze(keys),
        } && chosen_maze(keys) is Some),
{
}

/// During play (Escape not pressed) every frame is a play frame, whatever other
/// keys are pressed; it moves to the win screen exactly when no coin is left.
pub proof fn lemma_play_frame(keys: Keys, coins_remain: bool)
    requires
        !keys.escape,
    ensures
        frame_transition(Screen::Playing, keys, coins_remain) == (
            if coins_remain { Screen::Playing } else { Screen::Won },
            FrameAction::Play,
        ),
{
}

/// On the title screen (Escape not pressed) the frame shows the title and loads
/// the maze of the last maze key checked (Enter, then Space, then E), and play
/// starts exactly when one of them is pressed.
pub proof fn lemma_title_frame(keys: Keys, coins_remain: bool)
    requires
        !keys.escape,
    ensures
        frame_transition(Screen::Title, keys, coins_remain).1 == (FrameAction::ShowTitle {
            load: if keys.e {
                Some(MazeChoice::Extra)
            } else if keys.space {
                Some(MazeChoice::Second)
            } else if keys.enter {
                Some(MazeChoice::Classic)
            } else {
                None
            },
        }),
        (frame_transition(Screen::Title, keys, coins_remain).0 == Screen::Playing) <==> (keys.enter || keys.space
            || keys.e),
        (frame_transition(Screen::Title, keys, coins_remain).0 == Screen::Title) <==> !(keys.enter || keys.space
            || keys.e),
{
}

/// Enter, Space and E matter only on the title screen: elsewhere two frames that
/// differ only in those keys go the same way.
pub proof fn lemma_maze_keys_only_on_title(screen: Screen, k1: Keys, k2: Keys, coins_remain: bool)
    requires
        screen != Screen::Title,
        k1.escape == k2.escape,
        k1.r == k2.r,
    ensures
        frame_transition(screen, k1, coins_remain) == frame_transition(screen, k2, coins_remain),
{
}

/// R matters only on the win screen.
pub proof fn lemma_restart_key_only_on_win(screen: Screen, k1: Keys, k2: Keys, coins_remain: bool)
    requires
        screen != Screen::Won,
        k1.escape == k2.escape,
        k1.enter == k2.enter,
        k1.space == k2.space,
        k1.e == k2.e,
    ensures
        frame_transition(screen, k1, coins_remain) == frame_transition(screen, k2, coins_remain),
{
}

/// Whether coins remain matters only during play.
pub proof fn lemma_coins_only_in_play(screen: Screen, keys: Keys, c1: bool, c2: bool)
    requires
        screen != Screen::Playing,
    ensures
        frame_transition(screen, keys, c1) == frame_transition(screen, keys, c2),
{
}

/// A frame loads a maze only on the title screen, resets the player only on the
/// win screen, and plays only during play.
pub proof fn lemma_actions_belong_to_screens(screen: Screen, keys: Keys, coins_remain: bool)
    ensures
        (frame_transition(screen, keys, coins_remain).1 is ShowTitle) ==> screen == Screen::Title,
        (frame_transition(screen, keys, coins_remain).1 is ShowWin) ==> screen == Screen::Won,
        frame_transition(screen, keys, coins_remain).1 == FrameAction::Play ==> screen == Screen::Playing,
        frame_transition(screen, keys, coins_remain).1 == FrameAction::Quit <==> keys.escape,
{
}

} // verus!
