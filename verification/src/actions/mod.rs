//! The decisions of the four interactive actions.
pub mod copy_changes;
pub mod create;
pub mod delete;
pub mod move_to;
