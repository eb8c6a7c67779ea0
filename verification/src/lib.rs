//! Verified core of a multi-call-binary shim manager.
//!
//! A single external "multi-call" executable provides many utilities under
//! one binary. This library contains the verified logic for making that
//! binary usable as individual commands: discovering the utility names from
//! the binary's help banner, planning which shim entries to create or
//! delete in a directory, deciding what to do after a confirmation prompt,
//! and dispatching on the name the program was invoked under. All
//! filesystem access, subprocess handling and prompting live outside the
//! library and exchange plain byte vectors with it.

pub mod confirm;
pub mod discovery;
pub mod dispatch;
pub mod flow;
pub mod reconcile;
pub mod scan;
