//! The query backends shipped with the library.

pub mod qstat;
