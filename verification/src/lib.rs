//! Synchronize a workspace of version-controlled source trees against a
//! declarative manifest: parse the manifest into projects, plan the
//! version-control commands that bring each working copy to its revision,
//! interpret the tool's output, and snapshot resolved revisions back into a
//! new manifest.

pub mod application;
pub mod default_manifest;
pub mod monitor;
pub mod project;
pub mod round_trip;
pub mod text;
pub mod version_control;
pub mod xml_parser;
