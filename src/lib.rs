//! Splits a shell-like command line into a program and its arguments, with
//! single and double quotes and backslash escapes inside double quotes, and
//! no shell involved.

pub mod command;
pub mod error;
pub mod grammar;
pub mod laws;
pub mod text;

pub use command::{Command, Output};
pub use error::Error;
