//! A "go to definition" backend for editors, answered from ctags-style tag
//! sources rather than from semantic analysis.
//!
//! The library holds the logic: parsing tag sources into immutable index
//! snapshots, resolving a cursor position to its definitions, and the
//! protocol lifecycle with its error kinds. Transport, logging and the
//! hosting of the language server stay outside.
pub mod config;
pub mod error;
pub mod index;
pub mod resolve;
pub mod session;
pub mod tags;
pub mod text;
pub use error::LspErrorCode;
