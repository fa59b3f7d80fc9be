//! Renders the one-line status shown beside an interactive coding session:
//! the working directory, the state of its Jujutsu repository, the model in
//! use and the active output style.

pub mod directory;
pub mod input;
pub mod jj_status;
pub mod output;
pub mod text;
