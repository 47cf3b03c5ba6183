//! Verified pieces of a small SSH client: a reachability prober's decisions,
//! shell quoting of remote command lines, and the parser of a process
//! listing's tabular output.

pub mod text;
pub mod listing;
pub mod shell;
pub mod probe;
