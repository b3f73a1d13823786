//! An emulated Unix-like system: a virtual filesystem layer with several
//! filesystem drivers (an on-disk block filesystem, a device filesystem and an
//! in-memory filesystem of programs), a small kernel with a process table and
//! user and group databases.

pub mod util;
pub mod text;
pub mod eunix;
pub mod machine;
pub mod shell;
pub mod programs;
