//! Status and synchronisation engine for a workspace of git repositories.
//!
//! The library reads a workspace manifest, computes the status of every
//! local branch of a repository (dirtiness of the checked-out branch,
//! agreement with the upstream), marks the branches whose upstream a fetch
//! moved, and decides which branches can be fast-forwarded, using a
//! bidirectional search of the commit graph. Reading repositories, talking
//! to remotes and writing refs is left to the caller, which hands the
//! library snapshots of plain values and carries out the moves it returns.

pub mod check;
pub mod colour;
pub mod commands;
pub mod config;
pub mod display;
pub mod error;
pub mod fetch;
pub mod ff;
pub mod graph;
pub mod order;
pub mod status;
pub mod text;
pub mod util;
