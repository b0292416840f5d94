pub mod cli;
pub mod commands;
pub mod exe;
pub mod lang;
pub mod path;
pub mod resolver;
pub mod text;
