use daebug::job::JobError;
use daebug::job::JobState;
use daebug::parser::parse_file_ast;
use daebug::parser::parse_request;
use daebug::document::Fault;
use daebug::document::LogDocument;
use daebug::document::ParseError;
use daebug::registry::Page;
use daebug::registry::PageState;
use daebug::server::answer;
use daebug::server::health;
use daebug::server::pick_report_text;
use daebug::server::render_registry;
use daebug::server::report_status;
use daebug::server::result_text;
use daebug::server::PollResponse;
use daebug::dispatch::ReportOutcome;
use daebug::server::Server;
use daebug::writer::LogRead;
use daebug::writer::WriteError;
use daebug::writer::Writer;
use daebug::VERSION;

#[test]
fn test_server_create() {
    let server = Server::new(".", 8342);
    assert!(server.is_ok());
}

#[test]
fn server_knows_its_port_and_paths() {
    let server = Server::new("/srv", 8342).unwrap();
    assert_eq!(server.listen_port(), 8342);
    assert_eq!(server.log_path("page"), "/srv/daebug/page.md");
    assert_eq!(VERSION, "0.1.0");
    assert_eq!(health(), "👾 Daebug is running");
}

#[test]
fn poll_result_cycle_end_to_end() {
    let mut server = Server::new(".", 8342).unwrap();
    let log = "### 🗣️agent to page at 10:00:00\n```js\n6 * 7\n```\n";

    assert_eq!(server.poll_at("page", "http://p", 100), PollResponse { code: None, job_id: None });

    let (document, job) = server.rescan_at(LogDocument::empty(), log, "page", 100_000);
    let job = job.unwrap();
    assert_eq!(job.state, JobState::Requested);
    assert_eq!(job.page_name, "page");
    assert_eq!(job.agent, "agent");
    assert_eq!(job.code, "6 * 7");
    assert_eq!(document.len(), 2);

    let response = server.poll_at("page", "http://p", 101);
    assert_eq!(response, PollResponse { code: Some(String::from("6 * 7")), job_id: Some(job.id.clone()) });
    assert_eq!(server.job(&job.id).unwrap().state, JobState::Dispatched);
    assert_eq!(server.poll_at("page", "http://p", 102), response);

    let text = result_text(true, &Some(serde_json::Value::from(42)), None);
    assert_eq!(text, "42");
    assert_eq!(server.resolve(&job.id), Some(String::from("page")));
    let page = server.begin_result(&job.id).unwrap();
    assert_eq!(page, "page");
    let written = Writer::new(".").write_reply_at(log, &page, &text, 5, 36_002).unwrap();
    assert_eq!(
        written,
        "### 🗣️agent to page at 10:00:00\n```js\n6 * 7\n```\n#### 👍page to agent at 10:00:02 (5ms)\n```JSON\n42\n```\n\n\n"
    );
    assert_eq!(server.job(&job.id).unwrap().state, JobState::Dispatched);
    assert_eq!(server.conclude_result(&job.id, true, &text, Ok(())), ReportOutcome::Stored);
    let done = server.job(&job.id).unwrap();
    assert_eq!(done.state, JobState::Finished);
    assert_eq!(done.result, Some(String::from("42")));

    assert_eq!(server.poll_at("page", "http://p", 103), PollResponse { code: None, job_id: None });
    let (_, again) = server.rescan_at(document, &written, "page", 100_500);
    assert!(again.is_none());
    assert!(parse_request(&written, "page").is_none());
}

#[test]
fn poll_from_the_clock_registers_the_page() {
    let mut server = Server::new(".", 1).unwrap();
    assert_eq!(server.poll("page", "http://p"), PollResponse { code: None, job_id: None });
    let pages = server.list_pages();
    assert_eq!(pages.len(), 1);
    assert_eq!(pages[0].name, "page");
    assert_eq!(pages[0].url, "http://p");
}

#[test]
fn poll_refreshes_presence_and_keeps_the_url() {
    let mut server = Server::new(".", 1).unwrap();
    server.poll_at("page", "http://first", 10);
    server.poll_at("page", "http://second", 25);
    let pages = server.list_pages();
    assert_eq!(pages.len(), 1);
    assert_eq!(pages[0].url, "http://first");
    assert_eq!(pages[0].last_seen, 25);
    assert_eq!(pages[0].state, PageState::Idle);
    server.evict_stale(50, 30);
    assert_eq!(server.list_pages().len(), 1);
    server.evict_stale(56, 30);
    assert!(server.list_pages().is_empty());
}

#[test]
fn second_request_waits_until_the_first_is_answered() {
    let mut server = Server::new(".", 1).unwrap();
    let one = "### 🗣️agent to page at 10:00:00\n```js\nfirst\n```\n";
    let two = "### 🗣️agent to page at 10:00:00\n```js\nfirst\n```\n\n### 🗣️agent to page at 10:00:05\n```js\nsecond\n```\n";
    let (doc, first) = server.rescan_at(LogDocument::empty(), one, "page", 1_000);
    let first = first.unwrap();
    assert_eq!(server.poll_at("page", "u", 1).job_id, Some(first.id.clone()));
    let (doc, none) = server.rescan_at(doc, two, "page", 2_000);
    assert!(none.is_none());
    assert_eq!(server.poll_at("page", "u", 2).job_id, Some(first.id.clone()));

    let page = server.begin_result(&first.id).unwrap();
    let written = Writer::new(".").write_reply_at(two, &page, "1", 0, 0).unwrap();
    assert!(written.starts_with("### 🗣️agent to page at 10:00:00\n```js\nfirst\n```\n#### 👍page to agent at 00:00:00 (0ms)"));
    assert!(written.ends_with("### 🗣️agent to page at 10:00:05\n```js\nsecond\n```\n"));
    assert_eq!(server.poll_at("page", "u", 3).job_id, Some(first.id.clone()));
    assert_eq!(server.finish_result(&first.id, true, "1"), Ok(()));
    assert_eq!(server.poll_at("page", "u", 3), PollResponse { code: None, job_id: None });

    let (doc, second) = server.rescan_at(doc, &written, "page", 3_000);
    let second = second.unwrap();
    assert_eq!(second.code, "second");
    let response = server.poll_at("page", "u", 4);
    assert_eq!(response.job_id, Some(second.id.clone()));
    assert_eq!(response.code, Some(String::from("second")));

    let page = server.begin_result(&second.id).unwrap();
    let written = Writer::new(".").write_reply_at(&written, &page, "2", 0, 1).unwrap();
    assert!(written.ends_with("```js\nsecond\n```\n#### 👍page to agent at 00:00:01 (0ms)\n```JSON\n2\n```\n\n\n"));
    let (_, none) = server.rescan_at(doc, &written, "page", 4_000);
    assert!(none.is_none());
}

#[test]
fn two_requests_found_at_once_are_run_and_answered_in_order() {
    let mut server = Server::new(".", 1).unwrap();
    let two = "### 🗣️agent to page at 10:00:00\n```js\nfirst\n```\n\n### 🗣️agent to page at 10:00:05\n```js\nsecond\n```\n";
    let (doc, job) = server.rescan_at(LogDocument::empty(), two, "page", 1_000);
    let job = job.unwrap();
    assert_eq!(job.code, "first");
    assert_eq!(server.poll_at("page", "u", 1).code, Some(String::from("first")));
    let page = server.begin_result(&job.id).unwrap();
    let written = Writer::new(".").write_reply_at(two, &page, "\"one\"", 0, 0).unwrap();
    assert!(written.starts_with("### 🗣️agent to page at 10:00:00\n```js\nfirst\n```\n#### 👍page to agent at 00:00:00 (0ms)\n```JSON\n\"one\"\n```"));
    assert_eq!(server.finish_result(&job.id, true, "\"one\""), Ok(()));
    let (_, next) = server.rescan_at(doc, &written, "page", 2_000);
    assert_eq!(next.unwrap().code, "second");
    assert_eq!(parse_request(&written, "page").unwrap().code, "second");
}

#[test]
fn the_job_behind_a_polled_id_is_the_job_handed_out() {
    let mut server = Server::new(".", 1).unwrap();
    for (page, code, at) in [("a", "for a", 1_000), ("b", "for b", 1_000), ("a", "later", 2_000)] {
        let log = format!("### 🗣️agent to {} at 10:00:00\n```js\n{}\n```\n", page, code);
        let (_, job) = server.rescan_at(LogDocument::empty(), &log, page, at);
        assert!(job.is_some());
    }
    for (page, code) in [("b", "for b"), ("a", "for a")] {
        let response = server.poll_at(page, "u", 5);
        assert_eq!(response.code, Some(String::from(code)));
        let stored = server.job(&response.job_id.unwrap()).unwrap();
        assert_eq!(stored.page_name, page);
        assert_eq!(stored.code, code);
        assert_eq!(stored.state, JobState::Dispatched);
    }
}

#[test]
fn a_report_is_answered_by_its_outcome() {
    assert_eq!(report_status(&ReportOutcome::Stored), 200);
    assert_eq!(report_status(&ReportOutcome::Refused(JobError::NotFound)), 200);
    assert_eq!(report_status(&ReportOutcome::Refused(JobError::InvalidTransition)), 200);
    assert_eq!(report_status(&ReportOutcome::NotStored(WriteError::Read)), 500);
    assert_eq!(report_status(&ReportOutcome::NotStored(WriteError::Store)), 500);
    let parse = ParseError::Malformed { block: 0, fault: Fault::Fence };
    assert_eq!(report_status(&ReportOutcome::NotStored(WriteError::Parse(parse))), 500);
}

#[test]
fn a_report_is_taken_once() {
    let mut server = Server::new(".", 1).unwrap();
    let log = "### 🗣️agent to page at 10:00:00\n```js\n1\n```\n";
    let (_, job) = server.rescan_at(LogDocument::empty(), log, "page", 0);
    let job = job.unwrap();
    assert_eq!(server.begin_result(&job.id), Err(JobError::InvalidTransition));
    assert_eq!(server.finish_result(&job.id, true, "1"), Err(JobError::InvalidTransition));
    assert_eq!(server.job(&job.id).unwrap().state, JobState::Requested);
    server.poll_at("page", "u", 0);
    assert_eq!(server.begin_result(&job.id), Ok(String::from("page")));
    assert_eq!(server.job(&job.id).unwrap().state, JobState::Dispatched);
    assert_eq!(server.conclude_result(&job.id, false, "boom", Ok(())), ReportOutcome::Stored);
    let done = server.job(&job.id).unwrap();
    assert_eq!(done.state, JobState::Failed);
    assert_eq!(done.result, Some(String::from("boom")));
    assert_eq!(server.begin_result(&job.id), Err(JobError::InvalidTransition));
    assert_eq!(
        server.conclude_result(&job.id, true, "1", Ok(())),
        ReportOutcome::Refused(JobError::InvalidTransition)
    );
    assert_eq!(server.finish_result(&job.id, true, "1"), Err(JobError::InvalidTransition));
    assert_eq!(server.job(&job.id).unwrap().state, JobState::Failed);
}

#[test]
fn a_report_for_a_started_job_ends_it() {
    let log = "### 🗣️agent to p at 10:00:00\n```js\n6*7\n```\n";
    for (ok, text, state) in [(true, "42", JobState::Finished), (false, "boom", JobState::Failed)] {
        let mut server = Server::new(".", 1).unwrap();
        let (_, job) = server.rescan_at(LogDocument::empty(), log, "p", 0);
        let job = job.unwrap();
        server.poll_at("p", "u", 0);
        assert_eq!(server.mark_started(&job.id), Ok(()));
        assert_eq!(server.job(&job.id).unwrap().state, JobState::Started);
        assert_eq!(server.mark_started(&job.id), Err(JobError::InvalidTransition));

        let page = server.begin_result(&job.id).unwrap();
        assert_eq!(page, "p");
        let written = Writer::new(".").reply_to_read_at(&LogRead::Text(String::from(log)), &page, text, 3, 36_001);
        let new_log = written.clone().unwrap();
        assert_eq!(
            new_log,
            format!("{}#### 👍p to agent at 10:00:01 (3ms)\n```JSON\n{}\n```\n\n\n", log, text)
        );
        assert_eq!(new_log.matches("#### ").count(), 1);
        let outcome = server.conclude_result(&job.id, ok, text, written.map(|_| ()));
        assert_eq!(outcome, ReportOutcome::Stored);
        assert_eq!(report_status(&outcome), 200);
        let done = server.job(&job.id).unwrap();
        assert_eq!(done.state, state);
        assert_eq!(done.result, Some(String::from(text)));
    }
}

#[test]
fn a_failed_write_leaves_the_job_as_it_was() {
    let log = "### 🗣️agent to p at 10:00:00\n```js\n6*7\n```\n";
    for started in [false, true] {
        let mut server = Server::new(".", 1).unwrap();
        let (_, job) = server.rescan_at(LogDocument::empty(), log, "p", 0);
        let job = job.unwrap();
        server.poll_at("p", "u", 0);
        if started {
            assert_eq!(server.mark_started(&job.id), Ok(()));
        }
        let before = server.job(&job.id).unwrap().state;
        let page = server.begin_result(&job.id).unwrap();
        for error in [WriteError::Read, WriteError::Store] {
            let outcome = server.conclude_result(&job.id, true, "42", Err(error.clone()));
            assert_eq!(outcome, ReportOutcome::NotStored(error));
            assert_eq!(report_status(&outcome), 500);
            assert_eq!(server.job(&job.id).unwrap().state, before);
            assert_eq!(server.job(&job.id).unwrap().result, None);
        }
        // The page reports again, and this time the reply is stored.
        assert_eq!(server.begin_result(&job.id), Ok(page));
        assert_eq!(server.conclude_result(&job.id, true, "42", Ok(())), ReportOutcome::Stored);
        assert_eq!(server.job(&job.id).unwrap().state, JobState::Finished);
    }
}

#[test]
fn report_for_an_unknown_job_is_refused() {
    let mut server = Server::new(".", 1).unwrap();
    assert_eq!(server.resolve("job-0-0"), None);
    assert_eq!(server.begin_result("job-0-0"), Err(JobError::NotFound));
    assert_eq!(server.finish_result("job-0-0", true, "1"), Err(JobError::NotFound));
    assert_eq!(server.mark_started("job-0-0"), Err(JobError::NotFound));
    assert_eq!(server.conclude_result("job-0-0", true, "1", Ok(())), ReportOutcome::Refused(JobError::NotFound));
    assert_eq!(
        server.conclude_result("job-0-0", true, "1", Err(WriteError::Store)),
        ReportOutcome::NotStored(WriteError::Store)
    );
    assert!(server.list_pages().is_empty());
}

#[test]
fn malformed_text_keeps_the_last_good_document() {
    let mut server = Server::new(".", 1).unwrap();
    let good = parse_file_ast("# Log\n\ntext\n").unwrap();
    let (kept, job) = server.rescan_at(good, "```js\nbroken", "page", 0);
    assert!(job.is_none());
    assert_eq!(kept.len(), 2);
    assert_eq!(kept.block(0).unwrap().text, "Log");
    let (kept, job) = server.rescan(kept, "# Log\n\n### 🗣️agent to page at 10:00:00\n```js\n1\n```\n", "page");
    assert_eq!(kept.len(), 3);
    assert_eq!(job.unwrap().code, "1");
}

#[test]
fn sweep_and_removal_reach_the_jobs() {
    let mut server = Server::new(".", 1).unwrap();
    let log = "### 🗣️agent to page at 10:00:00\n```js\n1\n```\n";
    let (_, job) = server.rescan_at(LogDocument::empty(), log, "page", 10_000);
    let job = job.unwrap();
    server.poll_at("page", "u", 10);
    server.sweep(40, 30);
    assert_eq!(server.job(&job.id).unwrap().state, JobState::Dispatched);
    server.sweep(41, 30);
    assert_eq!(server.job(&job.id).unwrap().state, JobState::Timeout);
    server.remove_job(&job.id);
    assert!(server.job(&job.id).is_none());
}

#[test]
fn failure_text_is_the_error() {
    assert_eq!(result_text(false, &Some(serde_json::Value::from(42)), Some(String::from("boom"))), "boom");
    assert_eq!(result_text(false, &None, None), "");
    assert_eq!(result_text(true, &None, Some(String::from("boom"))), "null");
    assert_eq!(result_text(true, &Some(serde_json::Value::from("a")), None), "\"a\"");
    let list = serde_json::Value::from(vec![1, 2]);
    assert_eq!(result_text(true, &Some(list), None), "[\n  1,\n  2\n]");
}

#[test]
fn registry_listing_has_a_line_per_page() {
    let pages = vec![
        Page { name: String::from("a"), url: String::from("http://a"), last_seen: 1, state: PageState::Idle },
        Page { name: String::from("b"), url: String::from("http://b"), last_seen: 2, state: PageState::Executing },
        Page { name: String::from("c"), url: String::from("http://c"), last_seen: 3, state: PageState::Failed },
    ];
    assert_eq!(
        render_registry(&pages),
        "# 👾Daebug Registry\n\n- **a** - http://a - Idle\n- **b** - http://b - Executing\n- **c** - http://c - Failed\n"
    );
    assert_eq!(render_registry(&Vec::new()), "# 👾Daebug Registry\n\n");
    let mut server = Server::new(".", 1).unwrap();
    server.poll_at("page", "http://p", 1);
    assert_eq!(server.registry_listing(), "# 👾Daebug Registry\n\n- **page** - http://p - Idle\n");
}

#[test]
fn report_text_is_picked_by_the_outcome() {
    let value = Some(String::from("42"));
    let error = Some(String::from("boom"));
    assert_eq!(pick_report_text(true, value.clone(), error.clone()), "42");
    assert_eq!(pick_report_text(false, value.clone(), error.clone()), "boom");
    assert_eq!(pick_report_text(true, None, error), "");
    assert_eq!(pick_report_text(false, value, None), "");
}

#[test]
fn answer_carries_code_and_id() {
    let mut server = Server::new(".", 1).unwrap();
    let log = "### 🗣️agent to page at 10:00:00\n```js\n1\n```\n";
    let (_, job) = server.rescan_at(LogDocument::empty(), log, "page", 0);
    let job = job.unwrap();
    assert_eq!(
        answer(Some(job.clone())),
        PollResponse { code: Some(String::from("1")), job_id: Some(job.id) }
    );
    assert_eq!(answer(None), PollResponse { code: None, job_id: None });
}
