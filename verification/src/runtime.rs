//! The role a running instance plays, and what each role may do.
//!
//! The role is a value that callers pass along; nothing here is global.

use crate::text::str_eq;
use vstd::prelude::*;
use vstd::string::*;

verus! {

/// The role of a running instance.
#[derive(Debug, Clone, Copy, PartialEq, Eq, Structural)]
pub enum RuntimeContext {
    /// The server: pages, jobs, logs.
    Node,
    /// A browser page that runs code.
    Page,
    /// A worker that runs code apart from a page.
    Worker,
}

/// What an instance can be asked to do.
#[derive(Debug, Clone, Copy, PartialEq, Eq, Structural)]
pub enum Operation {
    StartServer,
    ExecuteCode,
    PollForJobs,
    PostResult,
    HandleWorkerMessage,
}

/// The role that `name` stands for: `node`, `page` or `worker`.
pub open spec fn context_named(name: Seq<char>) -> Option<RuntimeContext> {
    if name == "node"@ {
        Some(RuntimeContext::Node)
    } else if name == "page"@ {
        Some(RuntimeContext::Page)
    } else if name == "worker"@ {
        Some(RuntimeContext::Worker)
    } else {
        None
    }
}

/// The role in force: the one that was set, or `Node` where none was.
pub open spec fn effective(current: Option<RuntimeContext>) -> RuntimeContext {
    match current {
        Some(context) => context,
        None => RuntimeContext::Node,
    }
}

/// Whether an instance in the role `context` may perform `operation`.
pub open spec fn permitted(operation: Operation, context: RuntimeContext) -> bool {
    match operation {
        Operation::StartServer => context == RuntimeContext::Node,
        Operation::ExecuteCode => context == RuntimeContext::Page || context == RuntimeContext::Worker,
        Operation::PollForJobs => context == RuntimeContext::Page,
        Operation::PostResult => context == RuntimeContext::Page || context == RuntimeContext::Worker,
        Operation::HandleWorkerMessage => context == RuntimeContext::Worker,
    }
}

/// What an instance says when it refuses `operation`.
pub open spec fn refusal(operation: Operation) -> Seq<char> {
    match operation {
        Operation::StartServer => "start_server can only be called in Node.js context"@,
        Operation::ExecuteCode => "execute_code can only be called in Page or Worker context"@,
        Operation::PollForJobs => "poll_for_jobs can only be called in Page context"@,
        Operation::PostResult => "post_result can only be called in Page or Worker context"@,
        Operation::HandleWorkerMessage => "handle_worker_message can only be called in Worker context"@,
    }
}

/// Reads the role that the bootstrap names. An unknown name is refused with
/// a message that repeats it.
pub fn init_runtime(context: &str) -> (outcome: Result<RuntimeContext, String>)
    ensures
        match outcome {
            Ok(role) => context_named(context@) == Some(role),
            Err(message) => context_named(context@) is None && message@ == "Unknown runtime context: "@
                + context@,
        },
{
    if str_eq(context, "node") {
        Ok(RuntimeContext::Node)
    } else if str_eq(context, "page") {
        Ok(RuntimeContext::Page)
    } else if str_eq(context, "worker") {
        Ok(RuntimeContext::Worker)
    } else {
        let mut message = String::from_str("Unknown runtime context: ");
        message.append(context);
        Err(message)
    }
}

/// The role in force: the one that was set, or `Node` where none was.
pub fn get_runtime_context(current: Option<RuntimeContext>) -> (context: RuntimeContext)
    ensures
        context == effective(current),
{
    match current {
        Some(context) => context,
        None => RuntimeContext::Node,
    }
}

/// Whether the instance is the server.
pub fn is_node(current: Option<RuntimeContext>) -> (yes: bool)
    ensures
        yes == (effective(current) == RuntimeContext::Node),
{
    get_runtime_context(current) == RuntimeContext::Node
}

/// Whether the instance is a browser page.
pub fn is_page(current: Option<RuntimeContext>) -> (yes: bool)
    ensures
        yes == (effective(current) == RuntimeContext::Page),
{
    get_runtime_context(current) == RuntimeContext::Page
}

/// Whether the instance is a worker.
pub fn is_worker(current: Option<RuntimeContext>) -> (yes: bool)
    ensures
        yes == (effective(current) == RuntimeContext::Worker),
{
    get_runtime_context(current) == RuntimeContext::Worker
}

/// Admits `operation` in the role in force, or refuses it with the message
/// for that operation.
pub fn check_context(operation: Operation, current: Option<RuntimeContext>) -> (outcome: Result<
    (),
    String,
>)
    ensures
        match outcome {
            Ok(()) => permitted(operation, effective(current)),
            Err(message) => !permitted(operation, effective(current)) && message@ == refusal(operation),
        },
{
    let context = get_runtime_context(current);
    let allowed = match operation {
        Operation::StartServer => context == RuntimeContext::Node,
        Operation::ExecuteCode => context == RuntimeContext::Page || context == RuntimeContext::Worker,
        Operation::PollForJobs => context == RuntimeContext::Page,
        Operation::PostResult => context == RuntimeContext::Page || context == RuntimeContext::Worker,
        Operation::HandleWorkerMessage => context == RuntimeContext::Worker,
    };
    if allowed {
        return Ok(());
    }
    let message = match operation {
        Operation::StartServer => "start_server can only be called in Node.js context",
        Operation::ExecuteCode => "execute_code can only be called in Page or Worker context",
        Operation::PollForJobs => "poll_for_jobs can only be called in Page context",
        Operation::PostResult => "post_result can only be called in Page or Worker context",
        Operation::HandleWorkerMessage => "handle_worker_message can only be called in Worker context",
    };
    Err(String::from_str(message))
}

} // verus!
