//! What the daemon knows of the files that the guest has looked up.

pub mod dentry_index;
pub mod dentry_table;
pub mod file_handle;
pub mod index_laws;
