//! A download engine for a catalog of named files: the file each entry is stored
//! under, which entries need fetching, the retry policy, and the batch scheduler.
pub mod catalog;
pub mod naming;
pub mod retry;
pub mod scheduler;
