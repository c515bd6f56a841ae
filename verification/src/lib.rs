//! Batch retrieval of secrets for Vector's `exec` secrets backend.
//!
//! A request names the secrets to fetch; a loader asks a backend for each of
//! them and gathers one outcome per distinct name, whether the fetch
//! succeeded or not.

pub mod aws;
pub mod json;
pub mod vector;
