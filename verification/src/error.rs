//! The error taxonomy: store-level failures, engine-level connection
//! failures, and environment failures.

use vstd::prelude::*;

verus! {

/// An engine-level connection failure.
#[derive(Clone, Debug, PartialEq)]
pub enum ConnError {
    /// The database file does not exist.
    NotFound(String),
    /// The file exists but could not be opened as a database.
    OpenFailed(String),
    /// The database opened but a probe statement failed.
    QueryFailed(String),
    /// The profile names an engine with no working implementation.
    NotImplemented(String),
}

/// A store-level failure.
#[derive(Clone, Debug, PartialEq)]
pub enum StoreError {
    /// No stored profile carries the given id.
    NotFound(i64),
    /// The store's own database reported an error.
    Failed(String),
}

/// Any failure the library reports: store-level, engine-level, or an
/// environment/setup failure.
#[derive(Clone, Debug, PartialEq)]
pub enum AppError {
    Database(StoreError),
    Connection(ConnError),
    Config(String),
}

impl ConnError {
    /// A human-readable account of the failure.
    pub fn message(&self) -> String {
        match self {
            ConnError::NotFound(d) => String::from_str("database file not found: ").concat(
                d.as_str(),
            ),
            ConnError::OpenFailed(d) => String::from_str("cannot open database: ").concat(
                d.as_str(),
            ),
            ConnError::QueryFailed(d) => String::from_str("database probe failed: ").concat(
                d.as_str(),
            ),
            ConnError::NotImplemented(d) => String::from_str("connections to ").concat(
                d.as_str(),
            ).concat(" are not implemented yet"),
        }
    }
}

impl StoreError {
    /// A human-readable account of the failure.
    pub fn message(&self) -> String {
        match self {
            StoreError::NotFound(_) => String::from_str("no stored configuration has this id"),
            StoreError::Failed(d) => String::from_str("store error: ").concat(d.as_str()),
        }
    }
}

impl AppError {
    /// A human-readable account of the failure.
    pub fn message(&self) -> String {
        match self {
            AppError::Database(e) => String::from_str("database error: ").concat(
                e.message().as_str(),
            ),
            AppError::Connection(e) => String::from_str("connection error: ").concat(
                e.message().as_str(),
            ),
            AppError::Config(d) => String::from_str("configuration error: ").concat(d.as_str()),
        }
    }
}

} // verus!
