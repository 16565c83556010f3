//! Verified core of a `cargo install` upgrade tool.
//!
//! The library models the installed-package inventory, resolves remote
//! versions from captured tool output, decides which packages to upgrade,
//! and plans the backup/restore file operations around an upgrade.
//! All file and process I/O stays outside the library; callers hand in
//! file contents and captured command output as plain strings.

pub mod config;
pub mod crateversion;
pub mod driver;
pub mod error;
pub mod inventory;
pub mod json;
pub mod plan;
pub mod text;
pub mod version;
