//! What a path means for a given process: its mount namespace, root and
//! working directory, the inode the path resolves to, the mount that covers
//! it, and who owns it inside the process's user namespace.
pub mod inspect;
pub mod mountinfo;
pub mod path_resolution;
pub mod procfs;
pub mod report;
pub mod text;
