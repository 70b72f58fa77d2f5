//! A chat-room quote bot: the interpreter that turns chat messages into
//! commands, the repository of quotes and images those commands act on, and
//! the replies they produce.
//!
//! - [`text`]: trimming, case folding, splitting and joining of character
//!   sequences;
//! - [`table`]: the keyed table behind the member directory and the command
//!   registry;
//! - [`config`]: the roster a bot is configured with;
//! - [`bot`]: the interpreter and what it makes of a message;
//! - [`date`]: calendar dates, read and rendered by `chrono`;
//! - [`store`]: the append-only repository;
//! - [`commands`]: the executor and the wording of its replies.

pub mod bot;
pub mod commands;
pub mod config;
pub mod date;
pub mod store;
pub mod table;
pub mod text;

pub use bot::{Bot, Command, ParsedMessage};
pub use config::{Config, Member};
