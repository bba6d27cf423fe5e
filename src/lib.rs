//! The core of a chat logging bot: a decoder from tagged protocol lines to chat events, the
//! router that sends each event to the text logs, the database batch or the administrator
//! command dispatcher, and the dispatcher itself with the channel set it maintains.
pub mod clock;
pub mod commands;
pub mod config;
pub mod db;
pub mod message;
pub mod order;
pub mod route;
pub mod text;
