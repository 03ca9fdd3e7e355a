//! Verified core of `max`, a scaffolding tool for command-line projects:
//! reading, editing (by dotted keys) and writing JSON configuration documents, planning of the
//! source edits that add a command to a project, validation of project and
//! command names, and resolution of the configuration file's location.

pub mod cli;
pub mod command;
pub mod config;
pub mod json;
pub mod json_text;
pub mod nested_keys;
pub mod project;
pub mod template;
pub mod text;
