//! Motion-efficiency analysis of a recorded Neovim keystroke session.

pub mod recorder;
pub mod text;
pub mod analyzer;
pub mod notation;
pub mod markup;
pub mod report;
pub mod state;
pub mod files;
