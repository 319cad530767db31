//! A terminal launcher for project directories grouped by category, and a
//! resolver that copies shared libraries together with their dependencies.
//!
//! This crate holds the decisions: listings, key policies, the navigation
//! transitions, template choice and library resolution. Terminal, file system
//! and process work is done by the caller.
pub mod names;
pub mod text;
pub mod config;
pub mod nav;
pub mod library;
pub mod create;
