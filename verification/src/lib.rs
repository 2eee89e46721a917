pub mod auth;
pub mod config;
pub mod deletion;
pub mod entity;
pub mod error;
pub mod expiration;
pub mod ids;
pub mod layer;
pub mod mount;
pub mod namespace;
pub mod outcome;
pub mod pending;
pub mod policy;
pub mod registration;
pub mod renewal;
pub mod sdk;
pub mod server;
pub mod system_routes;
pub mod routing;
pub mod seal;
pub mod sqlite;
pub mod text;
pub mod trie;
pub mod worker;
