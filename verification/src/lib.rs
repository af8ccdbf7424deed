//! Verified core of a desktop front end for tmux sessions grouped by project folder.
pub mod projects;
pub mod state;
pub mod text;
pub mod tmux;
