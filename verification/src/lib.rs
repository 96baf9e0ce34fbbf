//! A monitoring agent: its configuration, the URLs of its terminals, and the terminals themselves.

pub mod args;
pub mod auto_uuid;
pub mod config;
pub mod error;
pub mod outside;
pub mod pty_session;
pub mod pty_task;
pub mod relay;
pub mod socket_url;
pub mod terminal_pool;
pub mod text;
