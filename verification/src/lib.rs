//! A library for managing relational-database connection profiles.
//!
//! Profiles are stored durably in an embedded database of the library's own,
//! and each profile describes how to reach one database engine. The library
//! can test connectivity against a profile and introspect schema metadata
//! (databases, tables, columns) through a uniform interface.

pub mod connection;
pub mod database;
pub mod error;
pub mod models;
pub mod store;
pub mod text;
