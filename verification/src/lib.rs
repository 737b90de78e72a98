//! Verified core of RDTool, a desktop client for Real-Debrid: the download
//! queue and its scheduler, URL and file-name handling, token sealing, and the
//! small text formats that the client reads and writes.

pub mod text;
pub mod queue;
pub mod engine;
pub mod ui;
pub mod settings;
pub mod scheduler;
pub mod auth;
pub mod api;
pub mod webdav;
