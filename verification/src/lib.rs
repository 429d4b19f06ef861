//! The project model of Swift workspaces.
//!
//! A Swift workspace is a Swift package, an Xcode project or an Xcode workspace. This library
//! says which manifest of a workspace to read, reads the targets from it, and writes them as
//! a project model in JSON. It reads no files itself: see `probe`.

pub mod emit;
pub mod json;
pub mod model;
pub mod package;
pub mod probe;
pub mod scan;
pub mod targets;
pub mod text;
pub mod xcode;
