//! Discovery of portable Windows applications in a directory tree.
//!
//! Given a snapshot of a directory tree, the library decides which
//! directories are applications, where each application has its root, and
//! which executable is its entry point. It also holds what goes with that:
//! the configuration values, the shortcut that is planned for a program,
//! and the template language in which shortcuts are named.
//!
//! Nothing here reads a file system. Directories come as
//! [`directory::DirectoryNode`] snapshots, files as bytes, the environment
//! as a list of variables.
//!
//! * [`text`], [`winpath`], [`number`]: texts, paths and numerals.
//! * [`directory`]: snapshots and their classification.
//! * [`scoring`], [`candidates`], [`resolver`]: scores, the choice of the
//!   primary executable, and the root of an application.
//! * [`scan`]: the walk through a tree and what it reports.
//! * [`inspect`]: what the header of an executable says.
//! * [`config`], [`mapping`], [`utils`], [`shortcut`], [`console`]:
//!   configuration, shortcuts and helpers.
//! * [`value`], [`template`], [`filters`], [`dates`], [`vars`]: the
//!   template language.

pub mod candidates;
pub mod config;
pub mod console;
pub mod dates;
pub mod directory;
pub mod filters;
pub mod inspect;
pub mod mapping;
pub mod number;
pub mod resolver;
pub mod scan;
pub mod scoring;
pub mod shortcut;
pub mod template;
pub mod text;
pub mod utils;
pub mod value;
pub mod vars;
pub mod winpath;
