//! Turns a container root file system into a minimal application bundle:
//! computes the files that given targets need (their shared libraries, their
//! packages, the links among them), filters that set, and splits the root
//! into what is kept and what is removed.
pub mod filters;
pub mod pathstr;
pub mod procdata;
pub mod profile;
pub mod rootfs;
pub mod scanner;
pub mod shcall;
pub mod textops;
