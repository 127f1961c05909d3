//! One seat's view of a hand in play: what it has seen, what it holds, and which actions the
//! rules allow it next.
pub mod action;
pub mod item;
pub mod player_state;
pub mod getter;
pub mod rules;
pub mod update;
pub mod agent_helper;
pub mod invariants;
pub mod furiten;
