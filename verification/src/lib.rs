//! A verified binding layer for the shell protocol of UEFI firmware.
//!
//! The firmware is reached through a table of calls, and answers with
//! status codes and with pointers into memory that it owns. This library
//! holds the rules by which those answers become values: every rule is a
//! function from plain values to plain values, with a contract that Verus
//! proves. The calls themselves, and the reads of firmware memory, belong to
//! the caller.
//!
//! - [`status`]: status codes in three classes, and the convention that a
//!   warning is a failure unless the caller takes it for a success.
//! - [`cstr16`]: borrowed views of null-terminated UTF-16 strings.
//! - [`env`]: the scan of the environment buffer, which holds the variable
//!   names one after the other and ends with two null units.
//! - [`file_list`]: lists of file records linked in both directions, walked
//!   forward and backward over a copy of the records.
//! - [`shell`]: what each call of the protocol returns for a given answer.

pub mod cstr16;
pub mod env;
pub mod file_list;
pub mod shell;
pub mod status;
