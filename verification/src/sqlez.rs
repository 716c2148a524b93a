//! What a database is asked, and what its answers mean.

pub mod connection;
pub mod migrations;
pub mod savepoint;
