//! What the screen shows and what its keys do.
pub mod actions;
pub mod confirm;
pub mod health;
pub mod keys;
pub mod messages;
pub mod page;
pub mod plan;
pub mod prompts;
pub mod questions;
pub mod rows;
pub mod state;
