use daebug::init_runtime;
use daebug::runtime::check_context;
use daebug::runtime::get_runtime_context;
use daebug::runtime::is_node;
use daebug::runtime::is_page;
use daebug::runtime::is_worker;
use daebug::runtime::Operation;
use daebug::RuntimeContext;

#[test]
fn test_runtime_context() {
    // Default is Node
    assert_eq!(get_runtime_context(None), RuntimeContext::Node);
}

#[test]
fn context_names_are_read() {
    assert_eq!(init_runtime("node"), Ok(RuntimeContext::Node));
    assert_eq!(init_runtime("page"), Ok(RuntimeContext::Page));
    assert_eq!(init_runtime("worker"), Ok(RuntimeContext::Worker));
    assert_eq!(init_runtime("Node"), Err(String::from("Unknown runtime context: Node")));
    assert_eq!(init_runtime(""), Err(String::from("Unknown runtime context: ")));
}

#[test]
fn the_context_in_force() {
    assert_eq!(get_runtime_context(Some(RuntimeContext::Worker)), RuntimeContext::Worker);
    assert!(is_node(None));
    assert!(is_node(Some(RuntimeContext::Node)));
    assert!(!is_node(Some(RuntimeContext::Page)));
    assert!(is_page(Some(RuntimeContext::Page)));
    assert!(!is_page(None));
    assert!(is_worker(Some(RuntimeContext::Worker)));
    assert!(!is_worker(Some(RuntimeContext::Page)));
}

#[test]
fn operations_are_bound_to_contexts() {
    let node = RuntimeContext::Node;
    let page = RuntimeContext::Page;
    let worker = RuntimeContext::Worker;
    let table = [
        (Operation::StartServer, vec![node], "start_server can only be called in Node.js context"),
        (Operation::ExecuteCode, vec![page, worker], "execute_code can only be called in Page or Worker context"),
        (Operation::PollForJobs, vec![page], "poll_for_jobs can only be called in Page context"),
        (Operation::PostResult, vec![page, worker], "post_result can only be called in Page or Worker context"),
        (
            Operation::HandleWorkerMessage,
            vec![worker],
            "handle_worker_message can only be called in Worker context",
        ),
    ];
    for (operation, allowed, message) in table {
        for context in [node, page, worker] {
            let outcome = check_context(operation, Some(context));
            if allowed.contains(&context) {
                assert_eq!(outcome, Ok(()));
            } else {
                assert_eq!(outcome, Err(String::from(message)));
            }
        }
    }
    assert_eq!(check_context(Operation::StartServer, None), Ok(()));
    assert!(check_context(Operation::PollForJobs, None).is_err());
}
