//! The engine lifecycle state machine: the menu and its sub-states, the
//! synthetic loading screen, and play, as pure transitions on plain state.
//! The host loop feeds key edges and frame deltas in and carries the
//! returned commands out to the collaborators.

use vstd::prelude::*;

use crate::input::KeyCode;
use crate::manifest::GameInfo;

verus! {

/// A menu color theme.
#[derive(Debug, Clone, Copy, PartialEq, Eq, Structural)]
pub enum Theme {
    Animated,
    Dark,
    Wii,
}

impl Theme {
    /// The theme's display name.
    pub fn name(&self) -> (r: &'static str)
        ensures
            self is Animated ==> r@ == "Animated Dreams"@,
            self is Dark ==> r@ == "Dark Minimalist"@,
            self is Wii ==> r@ == "Wii Classic"@,
    {
        match self {
            Theme::Animated => "Animated Dreams",
            Theme::Dark => "Dark Minimalist",
            Theme::Wii => "Wii Classic",
        }
    }

    /// Every theme, in selector order.
    pub fn all() -> (r: [Theme; 3])
        ensures
            r@ =~= seq![Theme::Animated, Theme::Dark, Theme::Wii],
    {
        [Theme::Animated, Theme::Dark, Theme::Wii]
    }

    /// The theme at a selector index; out-of-range indices fall back to the
    /// animated theme.
    pub fn from_index(index: usize) -> (r: Theme)
        ensures
            r == spec_theme_from_index(index as int),
    {
        if index == 1 {
            Theme::Dark
        } else if index == 2 {
            Theme::Wii
        } else {
            Theme::Animated
        }
    }

    /// Whether the background particle field is drawn.
    pub fn should_show_particles(&self) -> (r: bool)
        ensures
            r == (self is Animated),
    {
        matches!(self, Theme::Animated)
    }

    /// The UI font family the theme asks for.
    pub fn font_name(&self) -> (r: &'static str)
        ensures
            self is Animated ==> r@ == "PressStart2P"@,
            self is Dark ==> r@ == "Roboto"@,
            self is Wii ==> r@ == "RodinNTLG"@,
    {
        match self {
            Theme::Animated => "PressStart2P",
            Theme::Dark => "Roboto",
            Theme::Wii => "RodinNTLG",
        }
    }
}

/// The theme a selector index denotes.
pub open spec fn spec_theme_from_index(index: int) -> Theme {
    if index == 1 {
        Theme::Dark
    } else if index == 2 {
        Theme::Wii
    } else {
        Theme::Animated
    }
}

/// A discovered bundle in the browser list.
#[derive(Debug, Clone)]
pub struct GameEntry {
    pub info: GameInfo,
    pub file_path: String,
}

/// The menu sub-states.
#[derive(Debug, Clone, Copy, PartialEq, Eq, Structural)]
pub enum MenuState {
    MainMenu,
    GameList,
    GameDetails(usize),
    Settings,
    ThemeSelector,
    About,
}

/// The top-level engine state. Transition and loading progress are held in
/// permille, so a value of 1000 stands for a completed ramp.
pub enum EngineState {
    Menu {
        state: MenuState,
        games: Vec<GameEntry>,
        selected_index: usize,
        transition_progress: u32,
        theme_selector_index: usize,
    },
    Playing,
    Loading { progress: u32, status: String },
}

/// What the host loop must do after a key was handled.
#[derive(Debug, Clone, Copy, PartialEq, Eq, Structural)]
pub enum EngineCmd {
    Idle,
    StartGame(usize),
    UnloadGame,
    ExitApp,
}

/// The number of selectable themes.
pub const THEME_COUNT: usize = 3;

/// The full transition relation of the menu state machine on one key edge:
/// the next state, the next theme, and the command for the host loop.
pub open spec fn menu_next(s: EngineState, theme: Theme, key: KeyCode) -> (
    EngineState,
    Theme,
    EngineCmd,
) {
    match s {
        EngineState::Menu { state, games, selected_index, transition_progress, theme_selector_index
        } => {
            match state {
                MenuState::MainMenu => {
                    if key == KeyCode::Return {
                        (
                            EngineState::Menu {
                                state: MenuState::GameList,
                                games,
                                selected_index,
                                transition_progress: 0,
                                theme_selector_index,
                            },
                            theme,
                            EngineCmd::Idle,
                        )
                    } else if key == KeyCode::S {
                        (
                            EngineState::Menu {
                                state: MenuState::Settings,
                                games,
                                selected_index,
                                transition_progress: 0,
                                theme_selector_index,
                            },
                            theme,
                            EngineCmd::Idle,
                        )
                    } else if key == KeyCode::T {
                        (
                            EngineState::Menu {
                                state: MenuState::ThemeSelector,
                                games,
                                selected_index,
                                transition_progress: 0,
                                theme_selector_index,
                            },
                            theme,
                            EngineCmd::Idle,
                        )
                    } else if key == KeyCode::A {
                        (
                            EngineState::Menu {
                                state: MenuState::About,
                                games,
                                selected_index,
                                transition_progress: 0,
                                theme_selector_index,
                            },
                            theme,
                            EngineCmd::Idle,
                        )
                    } else if key == KeyCode::Escape {
                        (s, theme, EngineCmd::ExitApp)
                    } else {
                        (s, theme, EngineCmd::Idle)
                    }
                },
                MenuState::GameList => {
                    if games@.len() > 0 && key == KeyCode::Up {
                        (
                            EngineState::Menu {
                                state,
                                games,
                                selected_index: if selected_index > 0 {
                                    (selected_index - 1) as usize
                                } else {
                                    0
                                },
                                transition_progress,
                                theme_selector_index,
                            },
                            theme,
                            EngineCmd::Idle,
                        )
                    } else if games@.len() > 0 && key == KeyCode::Down {
                        (
                            EngineState::Menu {
                                state,
                                games,
                                selected_index: if selected_index + 1 < games@.len() {
                                    (selected_index + 1) as usize
                                } else {
                                    selected_index
                                },
                                transition_progress,
                                theme_selector_index,
                            },
                            theme,
                            EngineCmd::Idle,
                        )
                    } else if games@.len() > 0 && key == KeyCode::Return {
                        (
                            EngineState::Menu {
                                state: MenuState::GameDetails(selected_index),
                                games,
                                selected_index,
                                transition_progress: 0,
                                theme_selector_index,
                            },
                            theme,
                            EngineCmd::Idle,
                        )
                    } else if key == KeyCode::Escape {
                        (
                            EngineState::Menu {
                                state: MenuState::MainMenu,
                                games,
                                selected_index,
                                transition_progress: 0,
                                theme_selector_index,
                            },
                            theme,
                            EngineCmd::Idle,
                        )
                    } else {
                        (s, theme, EngineCmd::Idle)
                    }
                },
                MenuState::GameDetails(idx) => {
                    if key == KeyCode::Return && idx < games@.len() {
                        (s, theme, EngineCmd::StartGame(idx))
                    } else if key == KeyCode::Escape {
                        (
                            EngineState::Menu {
                                state: MenuState::GameList,
                                games,
                                selected_index,
                                transition_progress: 0,
                                theme_selector_index,
                            },
                            theme,
                            EngineCmd::Idle,
                        )
                    } else {
                        (s, theme, EngineCmd::Idle)
                    }
                },
                MenuState::ThemeSelector => {
                    if key == KeyCode::Up {
                        (
                            EngineState::Menu {
                                state,
                                games,
                                selected_index,
                                transition_progress,
                                theme_selector_index: if theme_selector_index > 0 {
                                    (theme_selector_index - 1) as usize
                                } else {
                                    0
                                },
                            },
                            theme,
                            EngineCmd::Idle,
                        )
                    } else if key == KeyCode::Down {
                        (
                            EngineState::Menu {
                                state,
                                games,
                                selected_index,
                                transition_progress,
                                theme_selector_index: if theme_selector_index + 1 < THEME_COUNT {
                                    (theme_selector_index + 1) as usize
                                } else {
                                    theme_selector_index
                                },
                            },
                            theme,
                            EngineCmd::Idle,
                        )
                    } else if key == KeyCode::Return {
                        (
                            EngineState::Menu {
                                state: MenuState::MainMenu,
                                games,
                                selected_index,
                                transition_progress: 0,
                                theme_selector_index,
                            },
                            spec_theme_from_index(theme_selector_index as int),
                            EngineCmd::Idle,
                        )
                    } else if key == KeyCode::Escape {
                        (
                            EngineState::Menu {
                                state: MenuState::MainMenu,
                                games,
                                selected_index,
                                transition_progress: 0,
                                theme_selector_index,
                            },
                            theme,
                            EngineCmd::Idle,
                        )
                    } else {
                        (s, theme, EngineCmd::Idle)
                    }
                },
                MenuState::Settings => {
                    if key == KeyCode::Escape {
                        (
                            EngineState::Menu {
                                state: MenuState::MainMenu,
                                games,
                                selected_index,
                                transition_progress: 0,
                                theme_selector_index,
                            },
                            theme,
                            EngineCmd::Idle,
                        )
                    } else {
                        (s, theme, EngineCmd::Idle)
                    }
                },
                MenuState::About => {
                    if key == KeyCode::Escape {
                        (
                            EngineState::Menu {
                                state: MenuState::MainMenu,
                                games,
                                selected_index,
                                transition_progress: 0,
                                theme_selector_index,
                            },
                            theme,
                            EngineCmd::Idle,
                        )
                    } else {
                        (s, theme, EngineCmd::Idle)
                    }
                },
            }
        },
        EngineState::Playing => {
            if key == KeyCode::Escape {
                (s, theme, EngineCmd::UnloadGame)
            } else {
                (s, theme, EngineCmd::Idle)
            }
        },
        EngineState::Loading { .. } => (s, theme, EngineCmd::Idle),
    }
}

/// Feeds one key edge through the state machine.
pub fn handle_key(state: &mut EngineState, theme: &mut Theme, key: KeyCode) -> (r: EngineCmd)
    ensures
        (*final(state), *final(theme), r) == menu_next(*old(state), *old(theme), key),
{
    let mut current = EngineState::Playing;
    core::mem::swap(&mut current, state);
    match current {
        EngineState::Menu {
            state: sub,
            games,
            selected_index,
            transition_progress,
            theme_selector_index,
        } => {
            let mut new_sub = sub;
            let mut new_selected = selected_index;
            let mut new_transition = transition_progress;
            let mut new_theme_index = theme_selector_index;
            let mut cmd = EngineCmd::Idle;
            match sub {
                MenuState::MainMenu => {
                    if key == KeyCode::Return {
                        new_sub = MenuState::GameList;
                        new_transition = 0;
                    } else if key == KeyCode::S {
                        new_sub = MenuState::Settings;
                        new_transition = 0;
                    } else if key == KeyCode::T {
                        new_sub = MenuState::ThemeSelector;
                        new_transition = 0;
                    } else if key == KeyCode::A {
                        new_sub = MenuState::About;
                        new_transition = 0;
                    } else if key == KeyCode::Escape {
                        cmd = EngineCmd::ExitApp;
                    }
                },
                MenuState::GameList => {
                    if games.len() > 0 && key == KeyCode::Up {
                        if new_selected > 0 {
                            new_selected = new_selected - 1;
                        }
                    } else if games.len() > 0 && key == KeyCode::Down {
                        if new_selected < games.len() - 1 {
                            new_selected = new_selected + 1;
                        }
                    } else if games.len() > 0 && key == KeyCode::Return {
                        new_sub = MenuState::GameDetails(new_selected);
                        new_transition = 0;
                    } else if key == KeyCode::Escape {
                        new_sub = MenuState::MainMenu;
                        new_transition = 0;
                    }
                },
                MenuState::GameDetails(idx) => {
                    if key == KeyCode::Return && idx < games.len() {
                        cmd = EngineCmd::StartGame(idx);
                    } else if key == KeyCode::Escape {
                        new_sub = MenuState::GameList;
                        new_transition = 0;
                    }
                },
                MenuState::ThemeSelector => {
                    if key == KeyCode::Up {
                        if new_theme_index > 0 {
                            new_theme_index = new_theme_index - 1;
                        }
                    } else if key == KeyCode::Down {
                        if new_theme_index < THEME_COUNT - 1 {
                            new_theme_index = new_theme_index + 1;
                        }
                    } else if key == KeyCode::Return {
                        *theme = Theme::from_index(new_theme_index);
                        new_sub = MenuState::MainMenu;
                        new_transition = 0;
                    } else if key == KeyCode::Escape {
                        new_sub = MenuState::MainMenu;
                        new_transition = 0;
                    }
                },
                MenuState::Settings => {
                    if key == KeyCode::Escape {
                        new_sub = MenuState::MainMenu;
                        new_transition = 0;
                    }
                },
                MenuState::About => {
                    if key == KeyCode::Escape {
                        new_sub = MenuState::MainMenu;
                        new_transition = 0;
                    }
                },
            }
            *state = EngineState::Menu {
                state: new_sub,
                games,
                selected_index: new_selected,
                transition_progress: new_transition,
                theme_selector_index: new_theme_index,
            };
            cmd
        },
        EngineState::Playing => {
            *state = EngineState::Playing;
            if key == KeyCode::Escape {
                EngineCmd::UnloadGame
            } else {
                EngineCmd::Idle
            }
        },
        EngineState::Loading { progress, status } => {
            *state = EngineState::Loading { progress, status };
            EngineCmd::Idle
        },
    }
}

/// Ramps the fade-in transition and the synthetic loading progress for one
/// frame of `dt_ms` milliseconds: the transition climbs three permille per
/// millisecond, loading progress half a permille per millisecond, and a
/// full loading bar enters play.
pub fn tick(state: &mut EngineState, dt_ms: u32)
    requires
        dt_ms <= 1000000,
    ensures
        *old(state) matches EngineState::Menu {
            state: sub,
            games,
            selected_index,
            transition_progress,
            theme_selector_index,
        } ==> *final(state) == (EngineState::Menu {
            state: sub,
            games,
            selected_index,
            transition_progress: (if transition_progress + 3 * dt_ms <= 1000 {
                (transition_progress + 3 * dt_ms) as u32
            } else {
                1000u32
            }),
            theme_selector_index,
        }),
        *old(state) matches EngineState::Playing ==> *final(state) is Playing,
        *old(state) matches EngineState::Loading { progress, status } ==> (if progress + dt_ms / 2
            >= 1000 {
            *final(state) is Playing
        } else {
            *final(state) == (EngineState::Loading {
                progress: (progress + dt_ms / 2) as u32,
                status,
            })
        }),
{
    let mut current = EngineState::Playing;
    core::mem::swap(&mut current, state);
    match current {
        EngineState::Menu {
            state: sub,
            games,
            selected_index,
            transition_progress,
            theme_selector_index,
        } => {
            let stepped = if transition_progress <= 1000 && 3 * dt_ms <= 1000
                - transition_progress {
                transition_progress + 3 * dt_ms
            } else {
                1000
            };
            *state = EngineState::Menu {
                state: sub,
                games,
                selected_index,
                transition_progress: stepped,
                theme_selector_index,
            };
        },
        EngineState::Playing => {
            *state = EngineState::Playing;
        },
        EngineState::Loading { progress, status } => {
            if progress >= 1000 || dt_ms / 2 >= 1000 - progress {
                *state = EngineState::Playing;
            } else {
                let stepped = progress + dt_ms / 2;
                *state = EngineState::Loading { progress: stepped, status };
            }
        },
    }
}

/// Enters the loading screen for a bundle the host starts fetching.
pub fn start_loading(state: &mut EngineState, status: String)
    ensures
        *final(state) == (EngineState::Loading { progress: 0u32, status }),
{
    *state = EngineState::Loading { progress: 0, status };
}

/// The fresh menu after a game was unloaded: the main menu over a newly
/// discovered game list, with the selection and fades reset.
pub fn menu_after_unload(games: Vec<GameEntry>) -> (r: EngineState)
    ensures
        r == (EngineState::Menu {
            state: MenuState::MainMenu,
            games,
            selected_index: 0usize,
            transition_progress: 0u32,
            theme_selector_index: 0usize,
        }),
{
    EngineState::Menu {
        state: MenuState::MainMenu,
        games,
        selected_index: 0,
        transition_progress: 0,
        theme_selector_index: 0,
    }
}

// --- navigation laws ------------------------------------------------------
/// The state after `n` consecutive presses of one key.
pub open spec fn press_n(s: EngineState, theme: Theme, key: KeyCode, n: nat) -> EngineState
    decreases n,
{
    if n == 0 {
        s
    } else {
        menu_next(press_n(s, theme, key, (n - 1) as nat), theme, key).0
    }
}

/// On an N-entry game list, Down presses saturate at the last entry and Up
/// presses saturate at the first: k presses down from the top select
/// `min(k, N-1)`, and k presses up from anywhere select `max(sel-k, 0)`.
pub proof fn lemma_navigation_clamps(
    games: Vec<GameEntry>,
    sel: usize,
    tp: u32,
    ti: usize,
    theme: Theme,
    n: nat,
)
    requires
        games@.len() > 0,
        games@.len() <= usize::MAX,
        sel < games@.len(),
    ensures
        press_n(
            EngineState::Menu {
                state: MenuState::GameList,
                games,
                selected_index: sel,
                transition_progress: tp,
                theme_selector_index: ti,
            },
            theme,
            KeyCode::Down,
            n,
        ) == (EngineState::Menu {
            state: MenuState::GameList,
            games,
            selected_index: (if sel + n < games@.len() {
                (sel + n) as usize
            } else {
                (games@.len() - 1) as usize
            }),
            transition_progress: tp,
            theme_selector_index: ti,
        }),
        press_n(
            EngineState::Menu {
                state: MenuState::GameList,
                games,
                selected_index: sel,
                transition_progress: tp,
                theme_selector_index: ti,
            },
            theme,
            KeyCode::Up,
            n,
        ) == (EngineState::Menu {
            state: MenuState::GameList,
            games,
            selected_index: (if sel >= n {
                (sel - n) as usize
            } else {
                0usize
            }),
            transition_progress: tp,
            theme_selector_index: ti,
        }),
    decreases n,
{
    let s0 = EngineState::Menu {
        state: MenuState::GameList,
        games,
        selected_index: sel,
        transition_progress: tp,
        theme_selector_index: ti,
    };
    if n > 0 {
        lemma_navigation_clamps(games, sel, tp, ti, theme, (n - 1) as nat);
        let prev_down = press_n(s0, theme, KeyCode::Down, (n - 1) as nat);
        assert(press_n(s0, theme, KeyCode::Down, n) == menu_next(
            prev_down,
            theme,
            KeyCode::Down,
        ).0);
        let prev_up = press_n(s0, theme, KeyCode::Up, (n - 1) as nat);
        assert(press_n(s0, theme, KeyCode::Up, n) == menu_next(prev_up, theme, KeyCode::Up).0);
        assert(prev_down == (EngineState::Menu {
            state: MenuState::GameList,
            games,
            selected_index: (if sel + (n - 1) < games@.len() {
                (sel + (n - 1)) as usize
            } else {
                (games@.len() - 1) as usize
            }),
            transition_progress: tp,
            theme_selector_index: ti,
        }));
        assert(prev_up == (EngineState::Menu {
            state: MenuState::GameList,
            games,
            selected_index: (if sel >= n - 1 {
                (sel - (n - 1)) as usize
            } else {
                0usize
            }),
            transition_progress: tp,
            theme_selector_index: ti,
        }));
        lemma_step_down(
            games,
            (if sel + (n - 1) < games@.len() {
                (sel + (n - 1)) as usize
            } else {
                (games@.len() - 1) as usize
            }),
            tp,
            ti,
            theme,
        );
        lemma_step_up(
            games,
            (if sel >= n - 1 {
                (sel - (n - 1)) as usize
            } else {
                0usize
            }),
            tp,
            ti,
            theme,
        );
        let len = games@.len() as int;
        let prev: int = if sel + (n - 1) < len {
            sel + (n - 1)
        } else {
            len - 1
        };
        assert(0 <= prev < len);
        assert(((if sel + (n - 1) < games@.len() {
            (sel + (n - 1)) as usize
        } else {
            (games@.len() - 1) as usize
        })) as int == prev);
        let res: int = if prev + 1 < len {
            prev + 1
        } else {
            prev
        };
        assert(res == (if sel + n < len {
            sel + n
        } else {
            len - 1
        }));
    }
}

/// Enter in the game list with no games is a no-op: the state does not
/// change and no command is issued.
pub proof fn lemma_empty_list_enter_is_noop(
    games: Vec<GameEntry>,
    sel: usize,
    tp: u32,
    ti: usize,
    theme: Theme,
)
    requires
        games@.len() == 0,
    ensures
        menu_next(
            EngineState::Menu {
                state: MenuState::GameList,
                games,
                selected_index: sel,
                transition_progress: tp,
                theme_selector_index: ti,
            },
            theme,
            KeyCode::Return,
        ) == (
            EngineState::Menu {
                state: MenuState::GameList,
                games,
                selected_index: sel,
                transition_progress: tp,
                theme_selector_index: ti,
            },
            theme,
            EngineCmd::Idle,
        ),
{
}

/// One Down press moves the selection one row, clamped to the end.
pub proof fn lemma_step_down(
    games: Vec<GameEntry>,
    sel: usize,
    tp: u32,
    ti: usize,
    theme: Theme,
)
    requires
        games@.len() > 0,
        sel < games@.len(),
    ensures
        menu_next(
            EngineState::Menu {
                state: MenuState::GameList,
                games,
                selected_index: sel,
                transition_progress: tp,
                theme_selector_index: ti,
            },
            theme,
            KeyCode::Down,
        ).0 == (EngineState::Menu {
            state: MenuState::GameList,
            games,
            selected_index: (if sel + 1 < games@.len() {
                (sel + 1) as usize
            } else {
                sel
            }),
            transition_progress: tp,
            theme_selector_index: ti,
        }),
{
}

/// One Up press moves the selection one row, clamped to the top.
pub proof fn lemma_step_up(
    games: Vec<GameEntry>,
    sel: usize,
    tp: u32,
    ti: usize,
    theme: Theme,
)
    requires
        games@.len() > 0,
        sel < games@.len(),
    ensures
        menu_next(
            EngineState::Menu {
                state: MenuState::GameList,
                games,
                selected_index: sel,
                transition_progress: tp,
                theme_selector_index: ti,
            },
            theme,
            KeyCode::Up,
        ).0 == (EngineState::Menu {
            state: MenuState::GameList,
            games,
            selected_index: (if sel > 0 {
                (sel - 1) as usize
            } else {
                0usize
            }),
            transition_progress: tp,
            theme_selector_index: ti,
        }),
{
}

} // verus!
