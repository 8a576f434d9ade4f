use quadboy::engine::game_state as engine_state;
use quadboy::states::game_state as session;
use quadboy::states::state::{
    enter_app_state, enter_game_state, in_app_state, in_game_state, leave_app_state,
    leave_game_state, update_app_states, update_game_states, AppState, CurrentAppState,
    CurrentGameState, GameState,
};
use quadboy::states::state_game_over::{game_over_options, load_last_save, GameOverOption};
use quadboy::states::state_load_game::handle_load_game_result;
use quadboy::states::state_main_menu::{on_btn_load, on_btn_new_game, quit_to_menu};
use quadboy::states::state_new_game::handle_new_game_result;
use quadboy::states::state_pause::{save_request_message, save_result_message};

#[test]
fn game_state_enter_then_steady_then_leave() {
    let mut s = CurrentGameState::default();
    s.set_next(GameState::Explore);
    assert!(leave_game_state(GameState::NoGame, &s));
    update_game_states(&mut s);
    assert!(enter_game_state(GameState::Explore, &s));
    assert!(!in_game_state(GameState::Explore, &s));
    update_game_states(&mut s);
    assert!(in_game_state(GameState::Explore, &s));
    assert!(!enter_game_state(GameState::Explore, &s));
    s.set_next(GameState::Pause);
    assert!(leave_game_state(GameState::Explore, &s));
    assert!(!in_game_state(GameState::Explore, &s));
}

#[test]
fn app_state_transitions() {
    let mut s = CurrentAppState::default();
    assert!(enter_app_state(AppState::MainMenu, &s));
    update_app_states(&mut s);
    assert!(in_app_state(AppState::MainMenu, &s));
    s.set_next(AppState::Settings);
    assert!(leave_app_state(AppState::MainMenu, &s));
    update_app_states(&mut s);
    assert_eq!(s.previous(), Some(AppState::MainMenu));
    assert_eq!(s.current(), AppState::Settings);
}

#[test]
fn game_state_names() {
    assert_eq!(GameState::NoGame.as_str(), "None");
    assert_eq!(GameState::LoadGame.as_str(), "Load Game");
    assert_eq!(GameState::EquipSlotSelect.as_str(), "Equip Slot Select");
    assert_eq!(GameState::GameOver.as_str(), "Game Over");
}

#[test]
fn load_and_new_game_outcomes() {
    let mut s = CurrentGameState::default();
    s.set_next(GameState::LoadGame);
    handle_load_game_result(&mut s, &vec![]);
    assert_eq!(s.next, GameState::LoadGame);
    handle_load_game_result(&mut s, &vec![true]);
    assert_eq!(s.next, GameState::Explore);
    handle_new_game_result(&mut s, &vec![true, false]);
    assert_eq!(s.next, GameState::NoGame);
    handle_new_game_result(&mut s, &vec![false, true]);
    assert_eq!(s.next, GameState::Explore);
}

#[test]
fn menu_buttons_request_states() {
    let mut app = CurrentAppState::default();
    let mut game = CurrentGameState::default();
    on_btn_new_game(&mut app, &mut game);
    assert_eq!((app.next, game.next), (AppState::Play, GameState::NewGame));
    on_btn_load(&mut app, &mut game);
    assert_eq!((app.next, game.next), (AppState::Play, GameState::LoadGame));
    quit_to_menu(&mut app, &mut game);
    assert_eq!((app.next, game.next), (AppState::MainMenu, GameState::NoGame));
}

#[test]
fn game_over_menu_depends_on_saves() {
    assert_eq!(
        game_over_options(true),
        vec![GameOverOption::LoadLastSave, GameOverOption::QuitToMainMenu]
    );
    assert_eq!(game_over_options(false), vec![GameOverOption::QuitToMainMenu]);
    let mut s = CurrentGameState::default();
    load_last_save(&mut s, false);
    assert_eq!(s.next, GameState::NoGame);
    load_last_save(&mut s, true);
    assert_eq!(s.next, GameState::LoadGame);
}

#[test]
fn pause_save_messages() {
    assert_eq!(save_request_message(false, "slot"), "Save disabled in settings");
    assert_eq!(save_request_message(true, "slot"), "Saving game to 'slot'...");
    assert_eq!(save_result_message(true), "Game saved.");
    assert_eq!(save_result_message(false), "Error saving game.");
}

#[test]
fn session_states_with_optional_previous() {
    let mut s = session::CurrentState::default();
    assert!(session::enter_state(session::GameState::MainMenu, &s));
    session::update_states(&mut s);
    assert!(session::in_state(session::GameState::MainMenu, &s));
    s.next = session::GameState::Playing;
    assert!(session::leave_state(session::GameState::MainMenu, &s));
}

#[test]
fn engine_states_start_steady() {
    let mut s = engine_state::CurrentState::default();
    assert!(engine_state::in_state(engine_state::GameState::MainMenu, &s));
    assert!(!engine_state::enter_state(engine_state::GameState::MainMenu, &s));
    s.next = engine_state::GameState::Paused;
    engine_state::update_states(&mut s);
    assert!(engine_state::enter_state(engine_state::GameState::Paused, &s));
    assert_eq!(s.previous, engine_state::GameState::MainMenu);
}
