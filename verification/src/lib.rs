pub mod json;
pub mod text;
pub mod ids;
pub mod time;
pub mod commands;
pub mod format;
pub mod client;
