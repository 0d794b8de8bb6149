//! Reparent a running program to a new terminal.
//!
//! The library holds every decision of the tool; the program around it
//! performs the system calls that the decisions ask for. Work that
//! alternates system calls and decisions is a state machine here: a value
//! that is handed what the last request brought back and answers with the
//! next request, or with the outcome.

pub mod abi;
pub mod arch;
pub mod bytes;
pub mod cli;
pub mod error;
pub mod hijack;
pub mod inject;
pub mod kernel;
pub mod leave;
pub mod list;
pub mod modes;
pub mod proxy;
pub mod ptrace;
pub mod remote;
pub mod session;
pub mod steal;
pub mod target;
pub mod text;
pub mod tracee;
pub mod tty;
pub mod visit;
