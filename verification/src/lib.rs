//! Verified core of a Discord bot that starts and watches Minecraft servers.
//!
//! The bot reads chat commands, decides what to do with them, launches
//! a Java server process, reads the lines that the server prints and keeps
//! a status message up to date. Everything that decides or computes lives
//! here with its contract; talking to Discord and to the child process is
//! left to the program around this library.
pub mod text;

pub mod commands;
pub mod console;
pub mod permissions;
pub mod server_config;
pub mod server_output;
pub mod status;
pub mod useful;
