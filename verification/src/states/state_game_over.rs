use vstd::prelude::*;

use crate::states::state::{CurrentGameState, GameState};

verus! {

/// Entries of the game-over menu.
#[derive(Clone, Copy, Debug, PartialEq, Eq, Structural)]
pub enum GameOverOption {
    LoadLastSave,
    QuitToMainMenu,
}

/// The game-over menu offers loading the last save only when saving is on.
pub fn game_over_options(enable_saves: bool) -> (options: Vec<GameOverOption>)
    ensures
        options@ == if enable_saves {
            seq![GameOverOption::LoadLastSave, GameOverOption::QuitToMainMenu]
        } else {
            seq![GameOverOption::QuitToMainMenu]
        },
{
    let mut options: Vec<GameOverOption> = Vec::new();
    if enable_saves {
        options.push(GameOverOption::LoadLastSave);
    }
    options.push(GameOverOption::QuitToMainMenu);
    options
}

/// Asks to load the last save; nothing happens while saving is off.
pub fn load_last_save(state: &mut CurrentGameState, enable_saves: bool)
    ensures
        final(state).next_spec() == if enable_saves { GameState::LoadGame } else { old(state).next_spec() },
        final(state).current_spec() == old(state).current_spec(),
        final(state).previous_spec() == old(state).previous_spec(),
{
    if enable_saves {
        state.set_next(GameState::LoadGame);
    }
}

} // verus!
