//! Core of a source-based package manager: recipes, dependency resolution,
//! build planning, sandbox planning and the installed-package metadata.
//!
//! Everything in this crate is pure: it decides and computes, and leaves
//! network, filesystem, process and database work to the program around it.

pub mod builder;
pub mod config;
pub mod error;
pub mod graph;
pub mod layout;
pub mod metadata;
pub mod reactor;
pub mod recipe;
pub mod recipe_set;
pub mod sandbox;
pub mod search;
pub mod sources;
pub mod text;
pub mod transaction;
pub mod upgrade;
pub mod version;
