pub mod prompt;
pub mod tmux;
