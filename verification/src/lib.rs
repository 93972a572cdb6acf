//! Loadout presets, hotkeys and input codes.
pub mod active_loadout;
pub mod app_events;
pub mod app_state;
pub mod assets;
pub mod capture;
pub mod catalog;
pub mod config;
pub mod config_document;
pub mod engine;
pub mod game_settings;
pub mod ids;
pub mod input;
pub mod item;
pub mod key;
pub mod loadout;
pub mod log_buffer;
pub mod preset;
pub mod sample;
pub mod startup;
pub mod stratagem_input;
pub mod template_path;
pub mod text;
pub mod text_map;
pub mod ui;
pub mod vision;
