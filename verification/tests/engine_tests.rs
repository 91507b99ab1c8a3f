use cacao_engine::{handle_key, menu_after_unload, start_loading, tick, EngineCmd, EngineState, GameEntry, GameInfo, KeyCode, MenuState, Theme};

fn list_state(n: usize) -> EngineState {
    let games = (0..n)
        .map(|i| GameEntry {
            info: GameInfo::new(format!("Game {i}"), "Author".to_string()),
            file_path: format!("games/game{i}.gaem"),
        })
        .collect();
    EngineState::Menu {
        state: MenuState::GameList,
        games,
        selected_index: 0,
        transition_progress: 0,
        theme_selector_index: 0,
    }
}

fn selected(state: &EngineState) -> usize {
    match state {
        EngineState::Menu { selected_index, .. } => *selected_index,
        _ => panic!("not in a menu"),
    }
}

fn sub(state: &EngineState) -> MenuState {
    match state {
        EngineState::Menu { state, .. } => *state,
        _ => panic!("not in a menu"),
    }
}

#[test]
fn down_presses_clamp_to_the_last_entry() {
    let mut state = list_state(3);
    let mut theme = Theme::Animated;
    for _ in 0..3 {
        assert_eq!(handle_key(&mut state, &mut theme, KeyCode::Down), EngineCmd::Idle);
    }
    assert_eq!(selected(&state), 2);
    for _ in 0..3 {
        handle_key(&mut state, &mut theme, KeyCode::Up);
    }
    assert_eq!(selected(&state), 0);
}

#[test]
fn enter_on_an_empty_list_changes_nothing() {
    let mut state = list_state(0);
    let mut theme = Theme::Animated;
    let cmd = handle_key(&mut state, &mut theme, KeyCode::Return);
    assert_eq!(cmd, EngineCmd::Idle);
    assert_eq!(sub(&state), MenuState::GameList);
    assert_eq!(selected(&state), 0);
}

#[test]
fn fresh_launch_flow_enters_and_leaves_the_game_list() {
    let mut state = menu_after_unload(Vec::new());
    let mut theme = Theme::Animated;
    assert_eq!(sub(&state), MenuState::MainMenu);
    handle_key(&mut state, &mut theme, KeyCode::Return);
    assert_eq!(sub(&state), MenuState::GameList);
    handle_key(&mut state, &mut theme, KeyCode::Escape);
    assert_eq!(sub(&state), MenuState::MainMenu);
    assert_eq!(handle_key(&mut state, &mut theme, KeyCode::Escape), EngineCmd::ExitApp);
}

#[test]
fn details_enter_starts_the_selected_game() {
    let mut state = list_state(2);
    let mut theme = Theme::Animated;
    handle_key(&mut state, &mut theme, KeyCode::Down);
    handle_key(&mut state, &mut theme, KeyCode::Return);
    assert_eq!(sub(&state), MenuState::GameDetails(1));
    let cmd = handle_key(&mut state, &mut theme, KeyCode::Return);
    assert_eq!(cmd, EngineCmd::StartGame(1));
}

#[test]
fn theme_selector_applies_the_chosen_theme() {
    let mut state = menu_after_unload(Vec::new());
    let mut theme = Theme::Animated;
    handle_key(&mut state, &mut theme, KeyCode::T);
    assert_eq!(sub(&state), MenuState::ThemeSelector);
    handle_key(&mut state, &mut theme, KeyCode::Down);
    handle_key(&mut state, &mut theme, KeyCode::Return);
    assert_eq!(theme, Theme::Dark);
    assert_eq!(sub(&state), MenuState::MainMenu);
}

#[test]
fn loading_progress_ramps_into_play() {
    let mut state = EngineState::Playing;
    start_loading(&mut state, "Loading game...".to_string());
    // Half a permille per millisecond: two seconds fill the bar.
    tick(&mut state, 1000);
    match &state {
        EngineState::Loading { progress, .. } => assert_eq!(*progress, 500),
        _ => panic!("still loading"),
    }
    tick(&mut state, 1000);
    assert!(matches!(state, EngineState::Playing));
}

#[test]
fn escape_while_playing_asks_for_an_unload() {
    let mut state = EngineState::Playing;
    let mut theme = Theme::Animated;
    assert_eq!(handle_key(&mut state, &mut theme, KeyCode::Escape), EngineCmd::UnloadGame);
}

#[test]
fn themes_report_their_metadata() {
    assert_eq!(Theme::all().len(), 3);
    assert_eq!(Theme::Animated.name(), "Animated Dreams");
    assert_eq!(Theme::Dark.name(), "Dark Minimalist");
    assert_eq!(Theme::Wii.name(), "Wii Classic");
    assert!(Theme::Animated.should_show_particles());
    assert!(!Theme::Dark.should_show_particles());
    assert_eq!(Theme::from_index(2), Theme::Wii);
    assert_eq!(Theme::from_index(9), Theme::Animated);
    assert_eq!(Theme::Wii.font_name(), "RodinNTLG");
}

#[test]
fn transitions_reset_and_ramp() {
    let mut state = menu_after_unload(Vec::new());
    let mut theme = Theme::Animated;
    tick(&mut state, 100);
    match &state {
        EngineState::Menu { transition_progress, .. } => assert_eq!(*transition_progress, 300),
        _ => panic!("not in a menu"),
    }
    handle_key(&mut state, &mut theme, KeyCode::Return);
    match &state {
        EngineState::Menu { transition_progress, .. } => assert_eq!(*transition_progress, 0),
        _ => panic!("not in a menu"),
    }
    tick(&mut state, 10000);
    match &state {
        EngineState::Menu { transition_progress, .. } => assert_eq!(*transition_progress, 1000),
        _ => panic!("not in a menu"),
    }
}
