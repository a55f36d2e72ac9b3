//! A transparent bidirectional proxy core for the Language Server Protocol.
//!
//! Editors launch the proxy as if it were a language server; the real server
//! runs inside a container. The library provides the verified message
//! pipeline: LSP base-protocol framing, byte-level path rewriting between the
//! host and the container workspace roots, process-id interception on
//! `initialize`, request/response correlation, and the goto-definition
//! binder that mirrors container-only files into a host temp tree. All I/O,
//! process spawning and task plumbing live outside the library and hand it
//! plain values.

pub mod binder;
pub mod cli;
pub mod config;
pub mod variables;
pub mod frame;
pub mod json;
pub mod pid;
pub mod proxy;
pub mod rewrite;
pub mod search;
pub mod tracker;
pub mod types;
pub mod text;
