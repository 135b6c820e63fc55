//! The decisions of a directory archiver: which entries a walk visits and in
//! what order, how unreadable paths are settled, and how progress is
//! estimated while the archive is written. Reading the disk, asking the
//! operator and writing the archive are left to the caller, who reports
//! what it found and acts on what these functions decide.
pub mod failure;
pub mod filter;
pub mod progress;
pub mod tags;
pub mod walk;
