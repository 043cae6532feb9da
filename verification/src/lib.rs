//! Copse: quick control of git worktrees.
//!
//! The library holds what the tool reads from git and decides: parsing of
//! branch, tag and worktree listings, where a new worktree goes, which
//! worktrees may be deleted, and how copying changes between worktrees
//! proceeds. Running git and talking to the user is left to the program.
pub mod text;
pub mod path;
pub mod git;
pub mod actions;
pub mod cli;
