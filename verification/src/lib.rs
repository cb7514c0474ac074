//! Core logic of the Quartz Minecraft server, verified with Verus.
pub mod qutil;
pub mod util;
pub mod mc_datatype_helpers;
pub mod worldgen;
pub mod network;
pub mod data;
pub mod block;
pub mod command;
pub mod world;
pub mod item;
pub mod chat;
pub mod server;
pub mod server_ping;
pub mod nbt;
pub mod config;
