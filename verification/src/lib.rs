pub mod text;
pub mod time;
pub mod json;
pub mod json_read;
pub mod yaml;

pub mod error;
pub mod ui;
pub mod output;
pub mod validation;
pub mod auth;
pub mod client;
pub mod ws;
pub mod commands;
