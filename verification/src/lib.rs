//! Discovers and classifies reclaimable disk space — caches, build
//! artifacts, oversized logs and files, duplicates — over a snapshot
//! of the filesystem, and decides which findings a risk-gated clean
//! pass may delete. Walking the disk, hashing file contents and the
//! deletion itself are the caller's work; every rule and algorithm
//! here is verified.

pub mod cache;
pub mod classify;
pub mod cleaner;
pub mod consolidate;
pub mod duplicates;
pub mod human;
pub mod paths;
pub mod scanner;
pub mod snapshot;
pub mod types;
