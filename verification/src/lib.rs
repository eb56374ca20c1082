pub mod text;
pub mod order;
pub mod platform;
pub mod error;
pub mod models;
pub mod db;
pub mod sync;
pub mod commands;
pub mod voice_ai;
pub mod client;
pub mod desktop_branding;
pub mod audio;
pub mod keys;
pub mod updater;
