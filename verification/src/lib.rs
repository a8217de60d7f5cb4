//! The core of a debugger for native programs.
//!
//! The debugger starts a program under trace, lets it run, stops it at
//! breakpoints, and shows where it stopped and how it got there.
//!
//! - [`trace`]: the tracing facility of the operating system as the debugger
//!   sees it, with a record of what was asked of it; [`ptrace`]: that of Linux.
//! - [`word`]: the bytes of a machine word.
//! - [`inferior`]: the traced process: patching a byte, waiting, getting over
//!   a trap, walking the stack.
//! - [`breakpoints`]: the table of breakpoints.
//! - [`memory`]: what the debugger's work means for the memory of the process.
//! - [`symbols`]: from addresses to functions and lines, and back.
//! - [`text`]: reading and writing numbers and addresses.
//! - [`command`], [`report`]: what the user asks for, and what is answered.
//! - [`debugger`]: the session that ties these together.
//! - [`linked_list`]: a singly linked list.

pub mod breakpoints;
pub mod command;
pub mod debugger;
pub mod inferior;
pub mod linked_list;
pub mod memory;
pub mod ptrace;
pub mod report;
pub mod symbols;
pub mod text;
pub mod trace;
pub mod word;
