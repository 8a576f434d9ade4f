pub mod config;
pub mod engine;
pub mod rendering;
pub mod states;
pub mod text_util;
