//! Verified core of a read-only Discord reconnaissance tool.
pub mod text;
pub mod snowflake;
pub mod invite;
pub mod webhook;
pub mod full;
pub mod api;
pub mod guild;
pub mod user;
pub mod tracking;
pub mod http;
pub mod report;
