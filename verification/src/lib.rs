//! An interactive tax shell: a fixed registry of commands, a line reader, an
//! argument validator, the session state and the dispatcher that ties them
//! together. Everything here is pure: reading lines and printing replies is
//! left to the program that drives the shell.
//!
//! - [`registry`]: the commands and their descriptors.
//! - [`reader`]: from a line of input to a command name and its arguments.
//! - [`validate`]: the number and the kind of the arguments.
//! - [`numeral`] and [`decimal`]: decimal numbers, as typed and as kept.
//! - [`session`]: the tax rate of the session.
//! - [`help`]: the help listing.
//! - [`dispatch`]: the shell itself, one input at a time.
//! - [`laws`]: what holds of the shell in every session.
//! - [`text`]: characters and strings.

pub mod decimal;
pub mod dispatch;
pub mod help;
pub mod laws;
pub mod numeral;
pub mod reader;
pub mod registry;
pub mod session;
pub mod text;
pub mod validate;
