//! A verified catalog for small text artifacts (prompts, agents, skills,
//! commands): a versioned item store with snapshot-before-write history, a
//! synchronously maintained full-text index, tag and category aggregates
//! derived from denormalized fields, and a flat settings store, together with
//! the screen-state types of the terminal front end.

pub mod ai_popup;
pub mod category;
pub mod edit_screen;
pub mod export;
pub mod item;
pub mod laws;
pub mod clock;
pub mod screens;
pub mod search;
pub mod settings;
pub mod settings_screen;
pub mod sort;
pub mod store;
pub mod tags;
pub mod text;
