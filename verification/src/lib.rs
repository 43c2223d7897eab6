//! Finds where the disk space of a developer machine went, groups it by what
//! owns it, and decides which parts may be deleted.
//!
//! Nothing in here touches the disk. Walking directories, reading metadata,
//! printing and deleting belong to the program around this library, which
//! hands in what it saw and carries out what it is told.

pub mod text;
pub mod order;
pub mod path;
pub mod category;
pub mod clock;
pub mod format;
pub mod found;
pub mod classify;
pub mod measure;
pub mod targets;
pub mod sweep;
pub mod platform;
pub mod unix;
pub mod windows;
pub mod scanner;
pub mod style;
pub mod sections;
pub mod report;
pub mod dump;
pub mod cleaner;
pub mod discover;
pub mod bootstrap;
