//! Scanners that find what a target needs: its shared libraries and the
//! content of its packages.
pub mod binlib;
pub mod debftrace;
pub mod debpkg;
pub mod dlst;
pub mod general;
pub mod rpmftrace;
pub mod tracedeb;
pub mod traceitf;
