use vstd::prelude::*;

use crate::states::state::{apply_outcomes, state_after_outcomes, CurrentGameState};

verus! {

/// Installs the load-game screen: it queues the command and waits for its outcome.
pub struct LoadGameStatePlugin;

/// Marks the entities of the load-game screen, removed when it is left.
pub struct CleanupStateLoadGame;

/// Handles the outcomes of load-game commands, in the order they came: the last one
/// decides whether the game goes on to exploring or back to no game.
pub fn handle_load_game_result(state: &mut CurrentGameState, results: &Vec<bool>)
    ensures
        final(state).next_spec() == state_after_outcomes(old(state).next_spec(), results@),
        final(state).current_spec() == old(state).current_spec(),
        final(state).previous_spec() == old(state).previous_spec(),
{
    apply_outcomes(state, results)
}

} // verus!
