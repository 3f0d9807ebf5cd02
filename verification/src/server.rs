//! The server's state and its protocol: what it decides when a page polls,
//! when a page reports a result, and when a page's log changes.
//!
//! The transport, the files and the timers are the caller's: every function
//! here takes what was received or read and returns what to send or store.

use crate::clock::now_millis;
use crate::clock::seconds_of;
use crate::diff::Comparison;
use crate::dispatch::after_poll;
use crate::dispatch::all_single_flight;
use crate::dispatch::handed_over;
use crate::dispatch::job_for;
use crate::dispatch::after_report;
use crate::dispatch::conclusion;
use crate::dispatch::job_view;
use crate::dispatch::refusal_of;
use crate::dispatch::write_view;
use crate::dispatch::ReportOutcome;
use crate::dispatch::ReportOutcomeView;
use crate::dispatch::Dispatcher;
use crate::document::document_of;
use crate::document::LogDocument;
use crate::job::distinct_ids;
use crate::job::has_job;
use crate::job::job_index;
use crate::job::swept;
use crate::job::Job;
use crate::job::JobError;
use crate::job::JobState;
use crate::job::JobView;
use crate::registry::after_sight;
use crate::registry::is_fresh;
use crate::registry::pages_view;
use crate::registry::Page;
use crate::registry::PageState;
use crate::registry::PageView;
use crate::registry::Registry;
use crate::writer::WriteError;
use serde_json::Value;
use vstd::prelude::*;
use vstd::string::*;

verus! {

/// `serde_json::Value`, any JSON value; opaque here.
#[verifier::external_type_specification]
#[verifier::external_body]
pub struct ExValue(Value);

/// `serde_json::Error`, why a value could not be written as JSON.
#[verifier::external_type_specification]
#[verifier::external_body]
pub struct ExJsonError(serde_json::Error);

/// The text that `serde_json::to_string_pretty` writes for the value that a
/// page reported (an absent value is written as `null`); `None` where it
/// reports an error.
pub uninterp spec fn pretty_text(value: Option<Value>) -> Option<Seq<char>>;

/// Calls `serde_json::to_string_pretty` on the value that a page reported.
/// The text is a function of the value alone; the contract names it and
/// claims nothing of what it holds.
#[verifier::external_body]
fn pretty_json(value: &Option<Value>) -> (outcome: Result<String, serde_json::Error>)
    ensures
        match outcome {
            Ok(text) => pretty_text(*value) == Some(text@),
            Err(_) => pretty_text(*value) is None,
        },
{
    serde_json::to_string_pretty(value)
}

/// What a polling page is told: the code to run and the id of its job, or
/// neither.
#[derive(Debug, Clone, PartialEq, Eq)]
pub struct PollResponse {
    pub code: Option<String>,
    pub job_id: Option<String>,
}

/// A poll response as a mathematical value.
pub struct PollResponseView {
    pub code: Option<Seq<char>>,
    pub job_id: Option<Seq<char>>,
}

impl View for PollResponse {
    type V = PollResponseView;

    open spec fn view(&self) -> PollResponseView {
        PollResponseView {
            code: match self.code {
                Some(code) => Some(code@),
                None => None,
            },
            job_id: match self.job_id {
                Some(id) => Some(id@),
                None => None,
            },
        }
    }
}

/// Why a server could not be set up.
#[derive(Debug, Clone, Copy, PartialEq, Eq, Structural)]
pub enum ServerError {
    /// The server's state could not be made.
    Setup,
}

/// Whether a poll's answer to `page` is sound for the jobs held after the
/// poll: code and id come together, and the id is that of a job of the
/// page, stored as dispatched, whose code is the code sent.
pub open spec fn answers_stored_job(jobs: Seq<JobView>, page: Seq<char>, response: PollResponseView) -> bool {
    match response.job_id {
        Some(id) => {
            &&& has_job(jobs, id)
            &&& jobs[job_index(jobs, id)].page_name == page
            &&& jobs[job_index(jobs, id)].state == JobState::Dispatched
            &&& response.code == Some(jobs[job_index(jobs, id)].code)
        },
        None => response.code is None,
    }
}

/// What a poll answers when it hands over `job`.
pub open spec fn poll_answer(job: Option<JobView>) -> PollResponseView {
    match job {
        Some(job) => PollResponseView { code: Some(job.code), job_id: Some(job.id) },
        None => PollResponseView { code: None, job_id: None },
    }
}

/// The text of an optional string, the empty text standing for none.
pub open spec fn text_or_empty(text: Option<Seq<char>>) -> Seq<char> {
    match text {
        Some(text) => text,
        None => Seq::empty(),
    }
}

/// The text that goes into the reply for a page's report: the value as it
/// was rendered where the page succeeded, the error where it failed; the
/// empty text where that one is missing.
pub open spec fn report_text(ok: bool, rendered: Option<Seq<char>>, error: Option<Seq<char>>) -> Seq<char> {
    if ok {
        text_or_empty(rendered)
    } else {
        text_or_empty(error)
    }
}

/// An optional string as a mathematical value.
pub open spec fn option_view(text: Option<String>) -> Option<Seq<char>> {
    match text {
        Some(text) => Some(text@),
        None => None,
    }
}

/// Answers a poll with the job that is handed over.
pub fn answer(job: Option<Job>) -> (response: PollResponse)
    ensures
        response@ == poll_answer(job_view(job)),
{
    match job {
        Some(job) => PollResponse { code: Some(job.code), job_id: Some(job.id) },
        None => PollResponse { code: None, job_id: None },
    }
}

/// Picks the text that goes into the reply for a page's report: the
/// rendered value where the page succeeded, the error where it failed.
pub fn pick_report_text(ok: bool, rendered: Option<String>, error: Option<String>) -> (text: String)
    ensures
        text@ == report_text(ok, option_view(rendered), option_view(error)),
{
    let picked = if ok {
        rendered
    } else {
        error
    };
    match picked {
        Some(text) => text,
        None => String::new(),
    }
}

/// The text that goes into the reply for a page's report: the value as
/// pretty-printed JSON where the page succeeded (nothing where it cannot be
/// written as JSON), the error where it failed.
pub fn result_text(ok: bool, value: &Option<Value>, error: Option<String>) -> (text: String)
    ensures
        text@ == report_text(ok, pretty_text(*value), option_view(error)),
{
    if ok {
        let rendered = match pretty_json(value) {
            Ok(text) => Some(text),
            Err(_) => None,
        };
        pick_report_text(true, rendered, error)
    } else {
        pick_report_text(false, None, error)
    }
}

/// The status that answers a report: 200 where the reply was stored, and
/// where the report was refused, which changes nothing and is not to be
/// tried again; 500 where the log could not be read, does not parse, or
/// could not be stored.
pub open spec fn status_of(outcome: ReportOutcomeView) -> u16 {
    match outcome {
        ReportOutcomeView::Refused(_) => 200,
        ReportOutcomeView::Stored => 200,
        ReportOutcomeView::NotStored(_) => 500,
    }
}

/// The status that answers a report whose handling ended in `outcome`.
/// After a write that failed the jobs are as they were before the report,
/// and the page can report again.
pub fn report_status(outcome: &ReportOutcome) -> (status: u16)
    ensures
        status == status_of(outcome@),
{
    match outcome {
        ReportOutcome::Refused(_) => 200,
        ReportOutcome::Stored => 200,
        ReportOutcome::NotStored(_) => 500,
    }
}

/// The answer to a liveness probe.
pub fn health() -> (text: &'static str)
    ensures
        text@ == "👾 Daebug is running"@,
{
    "👾 Daebug is running"
}

/// The name of a page state, as the listing shows it.
pub open spec fn state_name(state: PageState) -> Seq<char> {
    match state {
        PageState::Idle => "Idle"@,
        PageState::Executing => "Executing"@,
        PageState::Failed => "Failed"@,
    }
}

/// The line of the listing for one page.
pub open spec fn listing_line(page: PageView) -> Seq<char> {
    "- **"@ + page.name + "** - "@ + page.url + " - "@ + state_name(page.state) + "\n"@
}

/// The lines of the listing for these pages, one after another.
pub open spec fn listing_lines(pages: Seq<PageView>) -> Seq<char>
    decreases pages.len(),
{
    if pages.len() == 0 {
        Seq::empty()
    } else {
        listing_lines(pages.drop_last()) + listing_line(pages.last())
    }
}

/// The listing of the registered pages: a title, then a line for each page.
pub open spec fn listing(pages: Seq<PageView>) -> Seq<char> {
    "# 👾Daebug Registry\n\n"@ + listing_lines(pages)
}

/// Writes the listing of these pages.
pub fn render_registry(pages: &Vec<Page>) -> (text: String)
    ensures
        text@ == listing(pages_view(pages@)),
{
    let ghost views = pages_view(pages@);
    let mut text = String::from_str("# 👾Daebug Registry\n\n");
    let mut i: usize = 0;
    proof {
        assert(views.take(0) =~= Seq::<PageView>::empty());
        assert(text@ =~= listing(views.take(0)));
    }
    while i < pages.len()
        invariant
            0 <= i <= pages@.len(),
            views == pages_view(pages@),
            text@ == listing(views.take(i as int)),
        decreases pages@.len() - i,
    {
        let page = &pages[i];
        let ghost before = text@;
        text.append("- **");
        text.append(page.name.as_str());
        text.append("** - ");
        text.append(page.url.as_str());
        text.append(" - ");
        match page.state {
            PageState::Idle => text.append("Idle"),
            PageState::Executing => text.append("Executing"),
            PageState::Failed => text.append("Failed"),
        }
        text.append("\n");
        proof {
            let next = views.take(i + 1);
            assert(next.drop_last() =~= views.take(i as int));
            assert(next.last() == page@);
            assert(text@ =~= before + listing_line(page@));
            assert(listing(next) =~= listing(views.take(i as int)) + listing_line(page@));
        }
        i += 1;
    }
    proof {
        assert(views.take(i as int) =~= views);
    }
    text
}

/// The server's state: the pages it has seen and the jobs it holds. No page
/// ever has two jobs in flight.
pub struct Server {
    root: String,
    port: u16,
    registry: Registry,
    dispatcher: Dispatcher,
}

impl Server {
    /// The jobs the server holds, oldest first.
    pub closed spec fn jobs(&self) -> Seq<JobView> {
        self.dispatcher.jobs()
    }

    /// How many job ids the server has handed out.
    pub closed spec fn issued(&self) -> nat {
        self.dispatcher.issued()
    }

    /// The pages the server has seen, in the order of first sight.
    pub closed spec fn pages(&self) -> Seq<PageView> {
        self.registry.pages()
    }

    /// The directory under which the pages' logs live.
    pub closed spec fn root(&self) -> Seq<char> {
        self.root@
    }

    /// The port the server is to listen on.
    pub closed spec fn port(&self) -> u16 {
        self.port
    }

    /// A server for the logs under `root`, without pages or jobs. With the
    /// state held in memory, setting up a server does not fail.
    pub fn new(root: &str, port: u16) -> (outcome: Result<Server, ServerError>)
        ensures
            match outcome {
                Ok(server) => {
                    &&& server.jobs() == Seq::<JobView>::empty()
                    &&& server.issued() == 0
                    &&& server.pages() == Seq::<PageView>::empty()
                    &&& server.root() == root@
                    &&& server.port() == port
                },
                Err(_) => false,
            },
    {
        Ok(
            Server {
                root: String::from_str(root),
                port,
                registry: Registry::new(root),
                dispatcher: Dispatcher::new(),
            },
        )
    }

    /// The port the server is to listen on.
    pub fn listen_port(&self) -> (port: u16)
        ensures
            port == self.port(),
    {
        self.port
    }

    /// The path of the log of `page_name`.
    pub fn log_path(&self, page_name: &str) -> (path: String)
        ensures
            path@ == self.root() + "/daebug/"@ + page_name@ + ".md"@,
    {
        let mut path = self.root.clone();
        path.append("/daebug/");
        path.append(page_name);
        path.append(".md");
        path
    }

    /// Answers a poll by the page `name` at time `now` (seconds since the
    /// Unix epoch). The page is registered if it is new, and marked as seen.
    /// The job pending for the page is handed over, and dispatched if it was
    /// only requested; a page without a pending job is told so.
    pub fn poll_at(&mut self, name: &str, url: &str, now: u64) -> (response: PollResponse)
        ensures
            final(self).pages() == after_sight(old(self).pages(), name@, url@, now),
            final(self).jobs() == after_poll(old(self).jobs(), name@),
            response@ == poll_answer(handed_over(old(self).jobs(), name@)),
            answers_stored_job(final(self).jobs(), name@, response@),
            final(self).issued() == old(self).issued(),
            final(self).root() == old(self).root(),
            final(self).port() == old(self).port(),
            all_single_flight(final(self).jobs()),
            distinct_ids(final(self).jobs()),
    {
        self.registry.upsert_at(name, url, now);
        answer(self.dispatcher.hand_over(name))
    }

    /// Answers a poll by the page `name` at the system clock's reading.
    pub fn poll(&mut self, name: &str, url: &str) -> (response: PollResponse)
        ensures
            exists|now: u64| final(self).pages() == #[trigger] after_sight(old(self).pages(), name@, url@, now),
            final(self).jobs() == after_poll(old(self).jobs(), name@),
            response@ == poll_answer(handed_over(old(self).jobs(), name@)),
            answers_stored_job(final(self).jobs(), name@, response@),
            final(self).issued() == old(self).issued(),
            final(self).root() == old(self).root(),
            final(self).port() == old(self).port(),
            all_single_flight(final(self).jobs()),
            distinct_ids(final(self).jobs()),
    {
        let now = seconds_of(now_millis());
        self.poll_at(name, url, now)
    }

    /// The job with this id, if the server holds it.
    pub fn job(&self, id: &str) -> (found: Option<Job>)
        ensures
            all_single_flight(self.jobs()),
            distinct_ids(self.jobs()),
            match found {
                Some(job) => has_job(self.jobs(), id@) && job@ == self.jobs()[job_index(self.jobs(), id@)],
                None => !has_job(self.jobs(), id@),
            },
    {
        self.dispatcher.job(id)
    }

    /// The page that the job with this id belongs to.
    pub fn resolve(&self, job_id: &str) -> (page: Option<String>)
        ensures
            match page {
                Some(name) => has_job(self.jobs(), job_id@) && name@ == self.jobs()[job_index(
                    self.jobs(),
                    job_id@,
                )].page_name,
                None => !has_job(self.jobs(), job_id@),
            },
    {
        match self.dispatcher.job(job_id) {
            Some(job) => Some(job.page_name),
            None => None,
        }
    }

    /// A snapshot of the registered pages.
    pub fn list_pages(&self) -> (pages: Vec<Page>)
        ensures
            pages_view(pages@) == self.pages(),
    {
        self.registry.list_pages()
    }

    /// The listing of the registered pages.
    pub fn registry_listing(&self) -> (text: String)
        ensures
            text@ == listing(self.pages()),
    {
        let pages = self.registry.list_pages();
        render_registry(&pages)
    }

    /// Marks the dispatched job `job_id` as started, for a page that tells
    /// that it has begun to run the job's code. A job that is unknown or not
    /// dispatched is reported and nothing changes.
    pub fn mark_started(&mut self, job_id: &str) -> (outcome: Result<(), JobError>)
        ensures
            final(self).pages() == old(self).pages(),
            final(self).issued() == old(self).issued(),
            final(self).root() == old(self).root(),
            final(self).port() == old(self).port(),
            all_single_flight(final(self).jobs()),
            distinct_ids(final(self).jobs()),
            match outcome {
                Ok(()) => {
                    let k = job_index(old(self).jobs(), job_id@);
                    &&& has_job(old(self).jobs(), job_id@)
                    &&& old(self).jobs()[k].state == JobState::Dispatched
                    &&& final(self).jobs() == old(self).jobs().update(
                        k,
                        JobView { state: JobState::Started, ..old(self).jobs()[k] },
                    )
                },
                Err(JobError::NotFound) => {
                    &&& !has_job(old(self).jobs(), job_id@)
                    &&& final(self).jobs() == old(self).jobs()
                },
                Err(JobError::InvalidTransition) => {
                    &&& has_job(old(self).jobs(), job_id@)
                    &&& old(self).jobs()[job_index(old(self).jobs(), job_id@)].state != JobState::Dispatched
                    &&& final(self).jobs() == old(self).jobs()
                },
            },
    {
        self.dispatcher.mark_started(job_id)
    }

    /// Looks at a page's report for the job `job_id` before anything is
    /// written: a report is taken for a job that is dispatched or started,
    /// and the name of the job's page is returned, in whose log the reply
    /// goes. A report for a job that is unknown, that was never handed out,
    /// or that has come to its end is refused. Nothing changes either way:
    /// the caller writes the reply and then calls `conclude_result`.
    pub fn begin_result(&self, job_id: &str) -> (outcome: Result<String, JobError>)
        ensures
            match outcome {
                Ok(page) => refusal_of(self.jobs(), job_id@) is None && page@ == self.jobs()[job_index(
                    self.jobs(),
                    job_id@,
                )].page_name,
                Err(refusal) => refusal_of(self.jobs(), job_id@) == Some(refusal),
            },
    {
        self.dispatcher.begin_result(job_id)
    }

    /// Ends the job `job_id` after its reply was stored: a job that is
    /// dispatched or started becomes `Finished` where the page reported
    /// success and `Failed` where it reported an error, and keeps what the
    /// page reported. A job that is unknown, was never handed out, or has
    /// come to its end is reported and nothing changes.
    pub fn finish_result(&mut self, job_id: &str, ok: bool, result: &str) -> (outcome: Result<(), JobError>)
        ensures
            final(self).pages() == old(self).pages(),
            final(self).issued() == old(self).issued(),
            final(self).root() == old(self).root(),
            final(self).port() == old(self).port(),
            all_single_flight(final(self).jobs()),
            distinct_ids(final(self).jobs()),
            final(self).jobs() == after_report(old(self).jobs(), job_id@, ok, result@),
            match outcome {
                Ok(()) => refusal_of(old(self).jobs(), job_id@) is None,
                Err(refusal) => refusal_of(old(self).jobs(), job_id@) == Some(refusal),
            },
    {
        self.dispatcher.finish_result(job_id, ok, result)
    }

    /// Brings the handling of a report for the job `job_id` to its end, for
    /// what the write of the reply came to. Where the reply was stored, the
    /// job is ended as `finish_result` does. Where it was not, the jobs stay
    /// as they were, so that the page can report again.
    pub fn conclude_result(
        &mut self,
        job_id: &str,
        ok: bool,
        result: &str,
        written: Result<(), WriteError>,
    ) -> (outcome: ReportOutcome)
        ensures
            final(self).pages() == old(self).pages(),
            final(self).issued() == old(self).issued(),
            final(self).root() == old(self).root(),
            final(self).port() == old(self).port(),
            all_single_flight(final(self).jobs()),
            distinct_ids(final(self).jobs()),
            outcome@ == conclusion(old(self).jobs(), job_id@, write_view(written)),
            final(self).jobs() == if written is Ok {
                after_report(old(self).jobs(), job_id@, ok, result@)
            } else {
                old(self).jobs()
            },
    {
        self.dispatcher.conclude_result(job_id, ok, result, written)
    }

    /// Looks at the text of a page's log after it changed. A text that does
    /// not parse is set aside and the last good document kept. Otherwise the
    /// new document is kept and, where blocks or code were added and the
    /// turn has come to another request of the page, a job is created for
    /// that request at time `now_ms` (milliseconds since the Unix epoch).
    pub fn rescan_at(&mut self, last: LogDocument, text: &str, page_name: &str, now_ms: u64) -> (kept: (
        LogDocument,
        Option<Job>,
    ))
        ensures
            final(self).pages() == old(self).pages(),
            final(self).root() == old(self).root(),
            final(self).port() == old(self).port(),
            all_single_flight(final(self).jobs()),
            distinct_ids(final(self).jobs()),
            match document_of(text@) {
                Err(_) => {
                    &&& kept.0.blocks() == last.blocks()
                    &&& kept.1 is None
                },
                Ok(blocks) => {
                    &&& kept.0.blocks() == blocks
                    &&& kept.0.describes(text.spec_bytes())
                    &&& match (Comparison { old: last.blocks(), new: blocks }).request_to_dispatch(
                        page_name@,
                    ) {
                        Some(request) => if old(self).issued() < u64::MAX {
                            kept.1 matches Some(job) && job@ == job_for(request, now_ms, old(self).issued())
                        } else {
                            kept.1 is None
                        },
                        None => kept.1 is None,
                    }
                },
            },
            match kept.1 {
                Some(job) => {
                    &&& final(self).jobs() == old(self).jobs().push(job@)
                    &&& final(self).issued() == old(self).issued() + 1
                    &&& !has_job(old(self).jobs(), job@.id)
                },
                None => final(self).jobs() == old(self).jobs() && final(self).issued() == old(self).issued(),
            },
    {
        self.dispatcher.rescan_at(last, text, page_name, now_ms)
    }

    /// Looks at the text of a page's log after it changed, at the system
    /// clock's reading.
    pub fn rescan(&mut self, last: LogDocument, text: &str, page_name: &str) -> (kept: (
        LogDocument,
        Option<Job>,
    ))
        ensures
            final(self).pages() == old(self).pages(),
            final(self).root() == old(self).root(),
            final(self).port() == old(self).port(),
            all_single_flight(final(self).jobs()),
            distinct_ids(final(self).jobs()),
            match document_of(text@) {
                Err(_) => kept.0.blocks() == last.blocks() && kept.1 is None,
                Ok(blocks) => {
                    &&& kept.0.blocks() == blocks
                    &&& kept.0.describes(text.spec_bytes())
                    &&& kept.1 is Some <==> old(self).issued() < u64::MAX && (Comparison {
                        old: last.blocks(),
                        new: blocks,
                    }).request_to_dispatch(page_name@) is Some
                },
            },
            match kept.1 {
                Some(job) => {
                    &&& final(self).jobs() == old(self).jobs().push(job@)
                    &&& final(self).issued() == old(self).issued() + 1
                    &&& !has_job(old(self).jobs(), job@.id)
                    &&& job@.state == JobState::Requested
                    &&& job@.page_name == page_name@
                },
                None => final(self).jobs() == old(self).jobs() && final(self).issued() == old(self).issued(),
            },
    {
        self.dispatcher.rescan(last, text, page_name)
    }

    /// Times out every job that has been dispatched or started for longer
    /// than `timeout` at time `now` (both in seconds).
    pub fn sweep(&mut self, now: u64, timeout: u64)
        ensures
            final(self).pages() == old(self).pages(),
            final(self).issued() == old(self).issued(),
            final(self).root() == old(self).root(),
            final(self).port() == old(self).port(),
            final(self).jobs().len() == old(self).jobs().len(),
            forall|i: int|
                0 <= i < old(self).jobs().len() ==> #[trigger] final(self).jobs()[i] == swept(
                    old(self).jobs()[i],
                    now,
                    timeout,
                ),
            all_single_flight(final(self).jobs()),
            distinct_ids(final(self).jobs()),
    {
        self.dispatcher.sweep(now, timeout);
    }

    /// Deletes the job with this id, if the server holds it.
    pub fn remove_job(&mut self, id: &str)
        ensures
            final(self).pages() == old(self).pages(),
            final(self).issued() == old(self).issued(),
            final(self).root() == old(self).root(),
            final(self).port() == old(self).port(),
            final(self).jobs() == if has_job(old(self).jobs(), id@) {
                old(self).jobs().remove(job_index(old(self).jobs(), id@))
            } else {
                old(self).jobs()
            },
            all_single_flight(final(self).jobs()),
            distinct_ids(final(self).jobs()),
    {
        self.dispatcher.remove(id);
    }

    /// Drops the pages that have been silent for longer than `ttl` at time
    /// `now` (both in seconds).
    pub fn evict_stale(&mut self, now: u64, ttl: u64)
        ensures
            final(self).jobs() == old(self).jobs(),
            final(self).issued() == old(self).issued(),
            final(self).root() == old(self).root(),
            final(self).port() == old(self).port(),
            final(self).pages() == old(self).pages().filter(is_fresh(now, ttl)),
    {
        self.registry.evict_stale(now, ttl);
    }
}

} // verus!
