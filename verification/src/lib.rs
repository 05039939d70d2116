//! The verified engine of a planning room for two developers: git is the
//! transport, every message is a line of an append-only log, and an AI scribe
//! answers questions and writes documents.

pub mod app;
pub mod cli;
pub mod config;
pub mod fts;
pub mod git;
pub mod json;
pub mod merge;
pub mod message;
pub mod scalar;
pub mod session;
pub mod sql;
pub mod store;
pub mod sync;
pub mod text;
pub mod vice;
