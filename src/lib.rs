//! Incremental directory backups that reuse unchanged files across
//! generations by hardlinking, with a checksummed digest index per set.
pub mod digest;
pub mod disk_space;
pub mod ignore_patterns;
pub mod md5_store;
pub mod text;
pub mod stats;
pub mod protocol;
pub mod backup_sets;
pub mod reclaim;
pub mod pipeline;
pub mod summary;
pub mod walker;
