use vstd::prelude::*;

use crate::states::state::{AppState, CurrentAppState, CurrentGameState, GameState};

verus! {

/// "New game": enter play and start a new game.
pub fn on_btn_new_game(app_state: &mut CurrentAppState, game_state: &mut CurrentGameState)
    ensures
        final(app_state).next_spec() == AppState::Play,
        final(game_state).next_spec() == GameState::NewGame,
        final(app_state).current_spec() == old(app_state).current_spec(),
        final(game_state).current_spec() == old(game_state).current_spec(),
{
    app_state.set_next(AppState::Play);
    game_state.set_next(GameState::NewGame);
}

/// "Load": enter play and load the saved game.
pub fn on_btn_load(app_state: &mut CurrentAppState, game_state: &mut CurrentGameState)
    ensures
        final(app_state).next_spec() == AppState::Play,
        final(game_state).next_spec() == GameState::LoadGame,
        final(app_state).current_spec() == old(app_state).current_spec(),
        final(game_state).current_spec() == old(game_state).current_spec(),
{
    app_state.set_next(AppState::Play);
    game_state.set_next(GameState::LoadGame);
}

/// "Quit to main menu" (from the pause and game-over screens): end the game
/// and return to the main menu.
pub fn quit_to_menu(app_state: &mut CurrentAppState, game_state: &mut CurrentGameState)
    ensures
        final(app_state).next_spec() == AppState::MainMenu,
        final(game_state).next_spec() == GameState::NoGame,
        final(app_state).current_spec() == old(app_state).current_spec(),
        final(game_state).current_spec() == old(game_state).current_spec(),
{
    game_state.set_next(GameState::NoGame);
    app_state.set_next(AppState::MainMenu);
}

} // verus!
