//! Layered resource resolution, workflow state machines, and the terminal
//! presentation helpers used around them.

pub mod config;
pub mod context;
pub mod definition;
pub mod executor;
pub mod icon;
pub mod parser;
pub mod resolver;
pub mod style;
pub mod terminal;
pub mod text;
pub mod theme;
pub mod utils;
pub mod validator;
pub mod vfs;
