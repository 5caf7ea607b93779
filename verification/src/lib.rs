//! Catalog aggregation and version-diff engine for a package helper that
//! draws on a remote metadata service and a local package manager.

pub mod aur;
pub mod catalog;
pub mod command;
pub mod deps;
pub mod error;
pub mod pacman;
pub mod text;
pub mod types;
pub mod update;
pub mod version;
