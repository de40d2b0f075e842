//! Builds a debugger launch-configuration document from a command
//! line: the argument list is partitioned, one fixed-shape
//! configuration is filled with the program path, its arguments and
//! the working directory, and the whole document is rendered as
//! indented JSON text, specified character by character.

pub mod cli;
pub mod config;
pub mod json;
