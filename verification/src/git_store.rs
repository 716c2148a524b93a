//! Repositories: the status of their files, the texts that files are compared
//! with, and the jobs that run on them.

pub mod blame;
pub mod diff_laws;
pub mod diff_state;
pub mod diffs;
pub mod jobs;
pub mod laws;
pub mod path_set;
pub mod refresh;
pub mod reload;
pub mod requests;
pub mod snapshot;
pub mod staging;
pub mod status;
pub mod store;
pub mod store_laws;
