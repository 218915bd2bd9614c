//! What the command line checks before anything is played, and what the
//! commands show.

pub mod args;
pub mod handlers;
