//! Named database projects whose dump snapshots live in a revision-controlled
//! store: a registry maps a project name to its database connection string,
//! and a project commits each dump as a new revision and can fetch the dump
//! as of any recorded revision.

pub mod codec;
pub mod config;
pub mod project;
pub mod revstore;
