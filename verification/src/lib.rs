//! Backup management for ClickHouse databases stored in S3.
pub mod check;
pub mod cleanup;
pub mod cli;
pub mod commands;
pub mod config;
pub mod deletion;
pub mod retry;
pub mod s3;
pub mod text;
pub mod notify;
pub mod order;
pub mod time;
pub mod error;
pub mod backup;
