use vstd::prelude::*;

verus! {

/// Coarse states of a session.
#[derive(Default, PartialEq, Eq, Clone, Copy, Debug, Structural)]
pub enum GameState {
    #[default]
    MainMenu,
    Playing,
    Paused,
    GameOver,
}

/// The state of the previous frame, of this one, and the state requested for
/// the next. All three start in the main menu.
#[derive(Default)]
pub struct CurrentState {
    pub previous: GameState,
    pub current: GameState,
    pub next: GameState,
}

/// Whether the session has stayed in `state`: it was there last frame, is
/// there now, and no other state is requested.
pub fn in_state(state: GameState, res: &CurrentState) -> (b: bool)
    ensures
        b == (res.current == state && res.next == state && res.previous == state),
{
    res.current == state && res.next == state && res.previous == state
}

/// Whether the session has just entered `state` this frame.
pub fn enter_state(state: GameState, res: &CurrentState) -> (b: bool)
    ensures
        b == (res.current == state && res.previous != state),
{
    res.current == state && res.previous != state
}

/// Whether the session is in `state` and another state is requested.
pub fn leave_state(state: GameState, res: &CurrentState) -> (b: bool)
    ensures
        b == (res.current == state && res.next != state),
{
    res.current == state && res.next != state
}

/// Moves to the requested state, remembering the one left.
pub fn update_states(state: &mut CurrentState)
    ensures
        final(state).previous == old(state).current,
        final(state).current == old(state).next,
        final(state).next == old(state).next,
{
    state.previous = state.current;
    state.current = state.next;
}

} // verus!
