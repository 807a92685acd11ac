//! CSV data, its files, and review sessions.
pub mod backend;
pub mod helpdir;
pub mod session;
