//! Mirrors a remote archive of numbered issues into a local directory tree and
//! re-renders mirrored issues into other document formats.
//!
//! The modules hold the decisions of the tool: when to retry a request, how one
//! issue moves from discovery to a reported outcome, how a batch of issues is
//! walked, how local files are named and ordered, and how article text is
//! framed for export. Network and file access belong to the caller.

pub mod batch;
pub mod config;
pub mod download;
pub mod epub;
pub mod error;
pub mod exit_code;
pub mod export;
pub mod files;
pub mod listing;
pub mod pdf;
pub mod retry;
pub mod text;
