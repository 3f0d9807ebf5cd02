//! Remote REPL over markdown logs: pages poll for jobs, run them, and their
//! results are written back into the page's log.

use vstd::prelude::*;

pub mod clock;
pub mod diff;
pub mod dispatch;
pub mod document;
pub mod fence;
pub mod grammar;
pub mod job;
pub mod outline;
pub mod parser;
pub mod registry;
pub mod runtime;
pub mod server;
pub mod text;
pub mod watcher;
pub mod writer;

pub use job::Job;
pub use parser::parse_request;
pub use registry::Registry;
pub use runtime::init_runtime;
pub use runtime::RuntimeContext;
pub use server::Server;

verus! {

/// The version of the server.
pub const VERSION: &'static str = "0.1.0";

} // verus!
