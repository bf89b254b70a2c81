//! Cranko: release automation for the just-in-time versioning workflow.
//!
//! This crate holds the verified core of the tool: version-number parsing,
//! ordering and bumping; repository paths and path matchers; the project
//! graph, its naming and ordering; the loaders and rewriters of Cargo,
//! Python, C# and generic project files; changelogs; the information that
//! release commits record; and the decisions of the workflow's commands.
//! Each public function states its behaviour in a contract that Verus
//! proves; the calls into other crates go through a few trusted wrappers
//! whose contracts say what those crates document.
#![allow(unused_imports)]

pub mod text;
pub mod errors;
pub mod version;
pub mod repository;
pub mod config;
pub mod project;
pub mod graph;
pub mod changelog;
pub mod env;
pub mod generic;
pub mod cargo;
pub mod pypa;
pub mod csproj;
pub mod zenodo;
pub mod bootstrap;
pub mod session;
pub mod history;
pub mod commands;
pub mod github;
pub mod workflow;
pub mod readback;
pub mod manifest;
