//! Loading secrets from AWS: the merge shared by all loaders, and one loader
//! per backend.

pub mod loader;
pub mod secretsmanager;
pub mod ssm;
