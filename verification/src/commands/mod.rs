pub mod automations;
pub mod batch;
pub mod completions;
pub mod config;
pub mod diff;
pub mod entities;
pub mod events;
pub mod health;
pub mod history;
pub mod inspect;
pub mod logbook;
pub mod logs;
pub mod services;
pub mod stats;
pub mod templates;
pub mod validate;
pub mod verify;
pub mod watch;
