//! Fixtures laid out after a standard of the file system, or kept under a
//! tool that has its own.

pub mod git;
pub mod xdg;
