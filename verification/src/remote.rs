//! Projects on other machines.

pub mod connection_manager;
pub mod disconnected_overlay;
pub mod ssh_config;
pub mod ssh_connections;
