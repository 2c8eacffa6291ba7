//! Client-side package management for plugin bundles shipped as rpkg archives:
//! the version model, the archive container, the installed-package database and
//! the install/uninstall lifecycle, each stated as contracts over mathematical
//! models and proved.

pub mod action;
pub mod archive;
pub mod bundle;
pub mod config;
pub mod container;
pub mod database;
pub mod enable;
pub mod json;
pub mod lifecycle;
pub mod metadata;
pub mod ordering;
pub mod repo_index;
pub mod text;
pub mod versions;
