//! Disk usage of the mounted file systems: reads the lines of a mount
//! listing, keeps one entry per backing source of a real file system, and
//! renders a table of sizes with a coloured usage bar.

pub mod mounts;
pub mod render;
pub mod text;
