//! Verified core logic of a Matrix homeserver: string and arithmetic
//! utilities, event filters and formats, configuration checks, and the
//! decisions taken by the client and federation endpoints.
#![allow(unused_imports)]

pub mod admin;
pub mod api;
pub mod args;
pub mod config;
pub mod data;
pub mod database;
pub mod error;
pub mod matrix;
pub mod utils;
