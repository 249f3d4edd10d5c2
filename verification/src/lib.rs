//! Mod library logic for Cyberpunk 2077.
pub mod text;
pub mod order;
pub mod path;
pub mod text_map;
pub mod models;
pub mod deps;
pub mod outside;
pub mod paths;
pub mod catalog;
pub mod digest;
pub mod loadout;
pub mod launcher;
pub mod parking;
pub mod import;
pub mod theme;
pub mod inbox;
pub mod doctor;
pub mod profiles;
pub mod tui;
pub mod records;
pub mod steam;
pub mod backup;
pub mod save_steps;
pub mod saves;
pub mod cli;
