use vstd::prelude::*;

verus! {

/// Top-level screens of the application.
#[derive(Default, PartialEq, Eq, Clone, Copy, Debug, Structural)]
pub enum AppState {
    #[default]
    MainMenu,
    Settings,
    Play,
}

/// Screens inside a running game.
#[derive(Default, PartialEq, Eq, Clone, Copy, Debug, Structural)]
pub enum GameState {
    #[default]
    NoGame,
    LoadGame,
    NewGame,
    Explore,
    Pause,
    Overworld,
    Inventory,
    Container,
    EquipSlotSelect,
    DebugSpawn,
    Attributes,
    GameOver,
}

impl GameState {
    /// The name shown for this state.
    pub fn as_str(&self) -> (s: &'static str)
        ensures
            s@ == match *self {
                GameState::NoGame => "None"@,
                GameState::LoadGame => "Load Game"@,
                GameState::NewGame => "New Game"@,
                GameState::Explore => "Explore"@,
                GameState::Pause => "Pause"@,
                GameState::Overworld => "Overworld"@,
                GameState::Inventory => "Inventory"@,
                GameState::Container => "Container"@,
                GameState::EquipSlotSelect => "Equip Slot Select"@,
                GameState::DebugSpawn => "Debug Spawn"@,
                GameState::Attributes => "Attributes"@,
                GameState::GameOver => "Game Over"@,
            },
    {
        match self {
            GameState::NoGame => "None",
            GameState::LoadGame => "Load Game",
            GameState::NewGame => "New Game",
            GameState::Explore => "Explore",
            GameState::Pause => "Pause",
            GameState::Overworld => "Overworld",
            GameState::Inventory => "Inventory",
            GameState::Container => "Container",
            GameState::EquipSlotSelect => "Equip Slot Select",
            GameState::DebugSpawn => "Debug Spawn",
            GameState::Attributes => "Attributes",
            GameState::GameOver => "Game Over",
        }
    }
}

/// The application state of the previous frame and of this one, and the state
/// requested for the next frame.
pub struct CurrentAppState {
    previous: Option<AppState>,
    current: AppState,
    pub next: AppState,
}

impl CurrentAppState {
    pub closed spec fn previous_spec(&self) -> Option<AppState> {
        self.previous
    }

    pub closed spec fn current_spec(&self) -> AppState {
        self.current
    }

    pub closed spec fn next_spec(&self) -> AppState {
        self.next
    }

    /// The state of the previous frame, if there was a transition.
    pub fn previous(&self) -> (p: Option<AppState>)
        ensures
            p == self.previous_spec(),
    {
        self.previous
    }

    /// The state of this frame.
    pub fn current(&self) -> (c: AppState)
        ensures
            c == self.current_spec(),
    {
        self.current
    }

    /// Requests `next` for the coming frame.
    pub fn set_next(&mut self, next: AppState)
        ensures
            final(self).next_spec() == next,
            final(self).current_spec() == old(self).current_spec(),
            final(self).previous_spec() == old(self).previous_spec(),
    {
        self.next = next;
    }
}

impl Default for CurrentAppState {
    fn default() -> (s: Self)
        ensures
            s.previous_spec() is None,
            s.current_spec() == AppState::MainMenu,
            s.next_spec() == AppState::MainMenu,
    {
        CurrentAppState { previous: None, current: AppState::MainMenu, next: AppState::MainMenu }
    }
}

/// The state holds steadily: entered before, still current, not leaving.
pub open spec fn app_state_steady(res: CurrentAppState, state: AppState) -> bool {
    res.current_spec() == state && res.next_spec() == state && res.previous_spec() == Some(state)
}

/// The state became current in this frame.
pub open spec fn app_state_entered(res: CurrentAppState, state: AppState) -> bool {
    res.current_spec() == state && res.previous_spec() != Some(state)
}

/// The state is current and another one is requested.
pub open spec fn app_state_leaving(res: CurrentAppState, state: AppState) -> bool {
    res.current_spec() == state && res.next_spec() != state
}

/// Whether the app has stayed in `state`: it was there last frame, is
/// there now, and no other state is requested.
pub fn in_app_state(state: AppState, res: &CurrentAppState) -> (b: bool)
    ensures
        b == app_state_steady(*res, state),
{
    res.current == state && res.next == state && res.previous == Some(state)
}

/// Whether the app has just entered `state` this frame.
pub fn enter_app_state(state: AppState, res: &CurrentAppState) -> (b: bool)
    ensures
        b == app_state_entered(*res, state),
{
    res.current == state && res.previous != Some(state)
}

/// Whether the app is in `state` and another state is requested.
pub fn leave_app_state(state: AppState, res: &CurrentAppState) -> (b: bool)
    ensures
        b == app_state_leaving(*res, state),
{
    res.current == state && res.next != state
}

/// Moves to the requested state: this frame becomes the previous one.
pub fn update_app_states(state: &mut CurrentAppState)
    ensures
        final(state).previous_spec() == Some(old(state).current_spec()),
        final(state).current_spec() == old(state).next_spec(),
        final(state).next_spec() == old(state).next_spec(),
{
    state.previous = Some(state.current);
    state.current = state.next;
}

/// The game state of the previous frame and of this one, and the state
/// requested for the next frame.
pub struct CurrentGameState {
    previous: Option<GameState>,
    current: GameState,
    pub next: GameState,
}

impl CurrentGameState {
    pub closed spec fn previous_spec(&self) -> Option<GameState> {
        self.previous
    }

    pub closed spec fn current_spec(&self) -> GameState {
        self.current
    }

    pub closed spec fn next_spec(&self) -> GameState {
        self.next
    }

    /// The state of the previous frame, if there was a transition.
    pub fn previous(&self) -> (p: Option<GameState>)
        ensures
            p == self.previous_spec(),
    {
        self.previous
    }

    /// The state of this frame.
    pub fn current(&self) -> (c: GameState)
        ensures
            c == self.current_spec(),
    {
        self.current
    }

    /// Requests `next` for the coming frame.
    pub fn set_next(&mut self, next: GameState)
        ensures
            final(self).next_spec() == next,
            final(self).current_spec() == old(self).current_spec(),
            final(self).previous_spec() == old(self).previous_spec(),
    {
        self.next = next;
    }
}

impl Default for CurrentGameState {
    fn default() -> (s: Self)
        ensures
            s.previous_spec() is None,
            s.current_spec() == GameState::NoGame,
            s.next_spec() == GameState::NoGame,
    {
        CurrentGameState { previous: None, current: GameState::NoGame, next: GameState::NoGame }
    }
}

pub open spec fn game_state_steady(res: CurrentGameState, state: GameState) -> bool {
    res.current_spec() == state && res.next_spec() == state && res.previous_spec() == Some(state)
}

pub open spec fn game_state_entered(res: CurrentGameState, state: GameState) -> bool {
    res.current_spec() == state && res.previous_spec() != Some(state)
}

pub open spec fn game_state_leaving(res: CurrentGameState, state: GameState) -> bool {
    res.current_spec() == state && res.next_spec() != state
}

/// Whether the game has stayed in `state`: it was there last frame, is
/// there now, and no other state is requested.
pub fn in_game_state(state: GameState, res: &CurrentGameState) -> (b: bool)
    ensures
        b == game_state_steady(*res, state),
{
    res.current == state && res.next == state && res.previous == Some(state)
}

/// Whether the game has just entered `state` this frame.
pub fn enter_game_state(state: GameState, res: &CurrentGameState) -> (b: bool)
    ensures
        b == game_state_entered(*res, state),
{
    res.current == state && res.previous != Some(state)
}

/// Whether the game is in `state` and another state is requested.
pub fn leave_game_state(state: GameState, res: &CurrentGameState) -> (b: bool)
    ensures
        b == game_state_leaving(*res, state),
{
    res.current == state && res.next != state
}

/// Moves the game to its requested state, remembering the one left.
pub fn update_game_states(state: &mut CurrentGameState)
    ensures
        final(state).previous_spec() == Some(old(state).current_spec()),
        final(state).current_spec() == old(state).next_spec(),
        final(state).next_spec() == old(state).next_spec(),
{
    state.previous = Some(state.current);
    state.current = state.next;
}

/// After a transition into a new state, that state is entered and not yet
/// steady; one more frame with the same request makes it steady, and a
/// steady state is neither entered nor left.
pub proof fn lemma_game_state_transition(before: CurrentGameState, after: CurrentGameState, later: CurrentGameState)
    requires
        after.previous_spec() == Some(before.current_spec()),
        after.current_spec() == before.next_spec(),
        after.next_spec() == before.next_spec(),
        later.previous_spec() == Some(after.current_spec()),
        later.current_spec() == after.next_spec(),
        later.next_spec() == after.next_spec(),
        before.current_spec() != before.next_spec(),
    ensures
        game_state_entered(after, before.next_spec()),
        !game_state_steady(after, before.next_spec()),
        game_state_steady(later, before.next_spec()),
        !game_state_entered(later, before.next_spec()),
        !game_state_leaving(later, before.next_spec()),
{
}

/// The same for application states.
pub proof fn lemma_app_state_transition(before: CurrentAppState, after: CurrentAppState, later: CurrentAppState)
    requires
        after.previous_spec() == Some(before.current_spec()),
        after.current_spec() == before.next_spec(),
        after.next_spec() == before.next_spec(),
        later.previous_spec() == Some(after.current_spec()),
        later.current_spec() == after.next_spec(),
        later.next_spec() == after.next_spec(),
        before.current_spec() != before.next_spec(),
    ensures
        app_state_entered(after, before.next_spec()),
        !app_state_steady(after, before.next_spec()),
        app_state_steady(later, before.next_spec()),
        !app_state_entered(later, before.next_spec()),
        !app_state_leaving(later, before.next_spec()),
{
}

/// Requests the next game state from the outcome of loading or starting a
/// game: the last outcome counts; success goes on to exploring, failure back
/// to no game. Without outcomes the request is left as it was.
pub open spec fn state_after_outcomes(next: GameState, outcomes: Seq<bool>) -> GameState {
    if outcomes.len() == 0 {
        next
    } else if outcomes.last() {
        GameState::Explore
    } else {
        GameState::NoGame
    }
}

pub(crate) fn apply_outcomes(state: &mut CurrentGameState, results: &Vec<bool>)
    ensures
        final(state).next_spec() == state_after_outcomes(old(state).next_spec(), results@),
        final(state).current_spec() == old(state).current_spec(),
        final(state).previous_spec() == old(state).previous_spec(),
{
    let mut i: usize = 0;
    while i < results.len()
        invariant
            0 <= i <= results.len(),
            state.next_spec() == state_after_outcomes(old(state).next_spec(), results@.take(i as int)),
            state.current_spec() == old(state).current_spec(),
            state.previous_spec() == old(state).previous_spec(),
        decreases results.len() - i,
    {
        if results[i] {
            state.next = GameState::Explore;
        } else {
            state.next = GameState::NoGame;
        }
        i = i + 1;
        assert(results@.take(i as int).last() == results@[i - 1]);
    }
    assert(results@.take(i as int) =~= results@);
}

} // verus!
