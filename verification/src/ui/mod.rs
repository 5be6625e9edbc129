//! The interactive browser's state and the decisions it takes on each key.

pub mod order;
pub mod state;
pub mod text;
pub mod view;
pub mod nav;
pub mod keys;
pub mod actions;
pub mod listing;
