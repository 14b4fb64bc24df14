//! A content-management backend: articles with deduplicated tags, user accounts,
//! and session-based access control, with the store modelled as in-memory tables.
pub mod access;
pub mod accounts;
pub mod articles;
pub mod credentials;
pub mod encoding;
pub mod error;
pub mod laws;
pub mod mappers;
pub mod queries;
pub mod service;
pub mod settings;
pub mod store;
pub mod strings;
pub mod tags;
pub mod time;
pub mod token;
