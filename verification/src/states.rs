pub mod game_state;
pub mod state;
pub mod state_shoot;
pub mod state_explore;
pub mod state_load_game;
pub mod state_new_game;
pub mod state_attributes;
pub mod state_container;
pub mod state_inventory;
pub mod state_game_over;
pub mod state_pause;
pub mod state_main_menu;
pub mod state_throw;
pub mod state_overworld;
pub mod state_settings;
