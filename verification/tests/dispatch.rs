use daebug::dispatch::Dispatcher;
use daebug::document::LogDocument;
use daebug::job::JobError;
use daebug::job::JobState;
use daebug::parser::Request;

fn request(target: &str, code: &str) -> Request {
    Request {
        agent: String::from("agent"),
        target: String::from(target),
        time: String::from("10:00:00"),
        code: String::from(code),
        has_footer: false,
    }
}

#[test]
fn accepted_request_becomes_a_requested_job() {
    let mut dispatcher = Dispatcher::new();
    let job = dispatcher.accept(&request("page", "1 + 1"), 7_500).unwrap();
    assert_eq!(job.id, "job-7500-0");
    assert_eq!(job.page_name, "page");
    assert_eq!(job.agent, "agent");
    assert_eq!(job.code, "1 + 1");
    assert_eq!(job.state, JobState::Requested);
    assert_eq!(job.started_at, 7);
    assert_eq!(dispatcher.job(&job.id).unwrap().state, JobState::Requested);
}

#[test]
fn a_page_has_one_job_in_flight() {
    let mut dispatcher = Dispatcher::new();
    let first = dispatcher.accept(&request("page", "first"), 1_000).unwrap();
    let second = dispatcher.accept(&request("page", "second"), 2_000).unwrap();
    let other = dispatcher.accept(&request("other", "third"), 3_000).unwrap();

    let handed = dispatcher.hand_over("page").unwrap();
    assert_eq!(handed.id, first.id);
    assert_eq!(handed.state, JobState::Requested);
    assert_eq!(dispatcher.job(&first.id).unwrap().state, JobState::Dispatched);
    assert_eq!(dispatcher.hand_over("page").unwrap().id, first.id);
    assert_eq!(dispatcher.job(&second.id).unwrap().state, JobState::Requested);
    assert_eq!(dispatcher.hand_over("other").unwrap().id, other.id);

    assert_eq!(dispatcher.begin_result(&first.id), Ok(String::from("page")));
    assert_eq!(dispatcher.hand_over("page").unwrap().id, first.id);
    assert_eq!(dispatcher.mark_started(&first.id), Ok(()));
    assert!(dispatcher.hand_over("page").is_none());
    assert_eq!(dispatcher.begin_result(&first.id), Ok(String::from("page")));
    assert_eq!(dispatcher.job(&second.id).unwrap().state, JobState::Requested);
    assert_eq!(dispatcher.begin_result(&second.id), Err(JobError::InvalidTransition));
    assert_eq!(dispatcher.finish_result(&first.id, true, "1"), Ok(()));
    assert_eq!(dispatcher.job(&first.id).unwrap().state, JobState::Finished);

    assert_eq!(dispatcher.hand_over("page").unwrap().id, second.id);
    assert_eq!(dispatcher.job(&second.id).unwrap().state, JobState::Dispatched);
    assert!(dispatcher.hand_over("nobody").is_none());
}

#[test]
fn timed_out_job_frees_the_page() {
    let mut dispatcher = Dispatcher::new();
    let first = dispatcher.accept(&request("page", "first"), 1_000).unwrap();
    let second = dispatcher.accept(&request("page", "second"), 2_000).unwrap();
    dispatcher.hand_over("page");
    dispatcher.sweep(31, 30);
    assert_eq!(dispatcher.job(&first.id).unwrap().state, JobState::Dispatched);
    dispatcher.sweep(32, 30);
    assert_eq!(dispatcher.job(&first.id).unwrap().state, JobState::Timeout);
    assert_eq!(dispatcher.begin_result(&first.id), Err(JobError::InvalidTransition));
    assert_eq!(dispatcher.hand_over("page").unwrap().id, second.id);
    dispatcher.remove(&first.id);
    assert!(dispatcher.job(&first.id).is_none());
    dispatcher.remove(&first.id);
}

#[test]
fn rescan_creates_a_job_for_a_new_request() {
    let mut dispatcher = Dispatcher::new();
    let log = "### 🗣️agent to page at 10:00:00\n```js\n1\n```\n";
    let (document, job) = dispatcher.rescan_at(LogDocument::empty(), log, "page", 5_000);
    assert_eq!(job.unwrap().id, "job-5000-0");
    let (document, job) = dispatcher.rescan_at(document, log, "page", 6_000);
    assert!(job.is_none());
    let (document, job) = dispatcher.rescan(document, "```js\nbroken", "page");
    assert!(job.is_none());
    assert_eq!(document.len(), 2);
}
