//! Verified core of a client for Snowflake's query protocol.

pub mod account;
pub mod chunk;
pub mod client;
pub mod clock;
pub mod config;
pub mod decode;
pub mod error;
pub mod header;
pub mod json;
pub mod jwt;
pub mod login;
pub mod query;
pub mod request_id;
pub mod response;
pub mod result;
pub mod text;
pub mod url;
