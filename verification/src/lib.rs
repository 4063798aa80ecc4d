//! The control engine of a native process debugger.
//!
//! The engine performs no system call itself. Each operation is a state
//! machine that names the next thing the tracer, the symbol provider or the
//! operator's terminal has to do as a [`event::Request`], and consumes the
//! answer as a [`event::Reply`]. Whoever drives the engine carries out the
//! requests and hands back the replies:
//!
//! ```text
//! let mut debugger = Debugger::new();
//! let mut request = Request::Prompt;
//! loop {
//!     let reply = carry_out(request);
//!     match debugger.run(reply) {
//!         Some(next) => request = next,
//!         None => break,
//!     }
//! }
//! ```
//!
//! - [`word`]: bytes within a machine word, for patching one byte of memory
//!   that can only be accessed a word at a time.
//! - [`parse`] and [`debugger_command`]: numbers, addresses and commands as
//!   the operator types them.
//! - [`inferior`]: the tracee controller, with breakpoints, the resume
//!   protocol, stepping by source lines and backtraces.
//! - [`debugger`]: the session, which plays the operator's commands against
//!   the controller and keeps the breakpoints across runs of the target.
//! - [`model`]: an ideal tracee, and what a run of the engine against it is.
//! - [`laws`]: what holds of every such run.

pub mod debugger;
pub mod debugger_command;
pub mod event;
pub mod inferior;
pub mod laws;
pub mod model;
pub mod parse;
pub mod word;
