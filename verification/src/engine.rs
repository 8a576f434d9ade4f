pub mod clock;
pub mod game_state;
pub mod stable_id;
pub mod time;
pub mod exit;
pub mod save;
