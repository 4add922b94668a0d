//! Named git identities (alias → name, email and optional signing key),
//! kept in a TOML file and applied to git's configuration.
pub mod user;
pub mod config;
pub mod command;
pub mod nesting;
