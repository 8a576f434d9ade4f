use vstd::prelude::*;

verus! {

/// Coarse states of a session.
#[derive(Default, PartialEq, Eq, Clone, Copy, Debug, Structural)]
pub enum GameState {
    #[default]
    MainMenu,
    Playing,
    Paused,
    GameOver,
}

/// The state of the previous frame (none before the first transition), of
/// this one, and the state requested for the next.
pub struct CurrentState {
    previous: Option<GameState>,
    current: GameState,
    pub next: GameState,
}

impl CurrentState {
    pub closed spec fn previous_spec(&self) -> Option<GameState> {
        self.previous
    }

    pub closed spec fn current_spec(&self) -> GameState {
        self.current
    }

    pub closed spec fn next_spec(&self) -> GameState {
        self.next
    }
}

impl Default for CurrentState {
    fn default() -> (s: Self)
        ensures
            s.previous_spec() is None,
            s.current_spec() == GameState::MainMenu,
            s.next_spec() == GameState::MainMenu,
    {
        CurrentState { previous: None, current: GameState::MainMenu, next: GameState::MainMenu }
    }
}

/// Whether the session has stayed in `state`: it was there last frame, is
/// there now, and no other state is requested.
pub fn in_state(state: GameState, res: &CurrentState) -> (b: bool)
    ensures
        b == (res.current_spec() == state && res.next_spec() == state && res.previous_spec() == Some(state)),
{
    res.current == state && res.next == state && res.previous == Some(state)
}

/// Whether the session has just entered `state` this frame.
pub fn enter_state(state: GameState, res: &CurrentState) -> (b: bool)
    ensures
        b == (res.current_spec() == state && res.previous_spec() != Some(state)),
{
    res.current == state && res.previous != Some(state)
}

/// Whether the session is in `state` and another state is requested.
pub fn leave_state(state: GameState, res: &CurrentState) -> (b: bool)
    ensures
        b == (res.current_spec() == state && res.next_spec() != state),
{
    res.current == state && res.next != state
}

/// Moves to the requested state, remembering the one left.
pub fn update_states(state: &mut CurrentState)
    ensures
        final(state).previous_spec() == Some(old(state).current_spec()),
        final(state).current_spec() == old(state).next_spec(),
        final(state).next_spec() == old(state).next_spec(),
{
    state.previous = Some(state.current);
    state.current = state.next;
}

} // verus!
