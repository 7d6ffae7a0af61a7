//! Verified core of a Twitch/Kick chat bot that runs viewer queues for
//! group activities: chat command parsing, queue state transitions,
//! channel configuration, command aliases, replies and giveaways.

pub mod text;
pub mod platform;
pub mod error;
pub mod chat_event;
pub mod permissions;
pub mod replies;
pub mod queue;
pub mod config;
pub mod bot;
pub mod pattern;
pub mod sessions;
pub mod aliases;
pub mod dispatch;
pub mod kick;
pub mod web;
pub mod giveaway;
pub mod legacy;
pub mod bungie;
pub mod spam;
pub mod connection;
pub mod twitch_api;
pub mod laws;
pub mod command_laws;
