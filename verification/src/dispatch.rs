//! The dispatcher: which job a page is handed, and how a job moves on when
//! its page reports. The dispatcher owns the jobs and keeps every page to
//! one job in flight.

use crate::clock::millis_to_secs;
use crate::clock::now_millis;
use crate::diff::new_request;
use crate::diff::Comparison;
use crate::document::document_of;
use crate::document::LogDocument;
use crate::job::distinct_ids;
use crate::job::has_job;
use crate::job::in_flight;
use crate::job::is_pending;
use crate::job::job_id_text;
use crate::job::job_index;
use crate::job::job_matches;
use crate::job::lemma_pending_unique;
use crate::job::outcome_state;
use crate::job::single_flight;
use crate::job::swept;
use crate::job::Job;
use crate::job::JobError;
use crate::job::JobManager;
use crate::job::JobState;
use crate::job::JobView;
use crate::parser::is_unanswered;
use crate::parser::earliest_unanswered;
use crate::parser::parse_file_ast;
use crate::parser::Request;
use crate::parser::RequestView;
use crate::writer::WriteError;
use crate::writer::WriteFault;
use vstd::prelude::*;
use vstd::string::*;

verus! {

/// Whether every page has at most one job dispatched or started.
pub open spec fn all_single_flight(jobs: Seq<JobView>) -> bool {
    forall|page: Seq<char>| single_flight(jobs, page)
}

/// The job that a poll of `page` hands over, if any.
pub open spec fn handed_over(jobs: Seq<JobView>, page: Seq<char>) -> Option<JobView> {
    if exists|i: int| is_pending(jobs, page, i) {
        Some(jobs[choose|i: int| is_pending(jobs, page, i)])
    } else {
        None
    }
}

/// The jobs after a poll of `page`: the job handed over is dispatched if it
/// was only requested; nothing else changes.
pub open spec fn after_poll(jobs: Seq<JobView>, page: Seq<char>) -> Seq<JobView> {
    if exists|i: int| is_pending(jobs, page, i) {
        let i = choose|i: int| is_pending(jobs, page, i);
        if jobs[i].state == JobState::Requested {
            jobs.update(i, JobView { state: JobState::Dispatched, ..jobs[i] })
        } else {
            jobs
        }
    } else {
        jobs
    }
}

/// Whether `job`, which was handed to `page`, is the job that `jobs` holds
/// under its id, now dispatched, and is a job of that page.
pub open spec fn is_stored_as_dispatched(jobs: Seq<JobView>, page: Seq<char>, job: JobView) -> bool {
    &&& has_job(jobs, job.id)
    &&& jobs[job_index(jobs, job.id)] == (JobView { state: JobState::Dispatched, ..job })
    &&& job.page_name == page
}

/// The job that a poll hands over is a job of the polling page, and after
/// the poll it is the job stored under its id, in state `Dispatched`.
pub proof fn lemma_handed_job_is_stored(jobs: Seq<JobView>, page: Seq<char>)
    requires
        distinct_ids(jobs),
    ensures
        distinct_ids(after_poll(jobs, page)),
        match handed_over(jobs, page) {
            Some(job) => is_stored_as_dispatched(after_poll(jobs, page), page, job),
            None => after_poll(jobs, page) == jobs,
        },
{
    let after = after_poll(jobs, page);
    if exists|i: int| is_pending(jobs, page, i) {
        let i = choose|i: int| is_pending(jobs, page, i);
        let job = jobs[i];
        assert forall|a: int| 0 <= a < jobs.len() implies (#[trigger] after[a]).id == jobs[a].id by {}
        assert(after[i].id == job.id);
        assert(has_job(after, job.id));
        let k = job_index(after, job.id);
        assert(k == i) by {
            if k < i {
                assert(jobs[k].id != jobs[i].id);
            } else if i < k {
                assert(jobs[i].id != jobs[k].id);
            }
        }
        assert(job_matches(job, page, job.state));
    }
}

/// The job that a request becomes when it is accepted at time `now_ms` as
/// the `serial`-th job of a store.
pub open spec fn job_for(request: RequestView, now_ms: u64, serial: nat) -> JobView {
    JobView {
        id: job_id_text(now_ms as nat, serial),
        page_name: request.target,
        agent: request.agent,
        code: request.code,
        state: JobState::Requested,
        started_at: millis_to_secs(now_ms),
        result: None,
    }
}

/// A job as a mathematical value, if there is one.
pub open spec fn job_view(job: Option<Job>) -> Option<JobView> {
    match job {
        Some(job) => Some(job@),
        None => None,
    }
}

/// Where no job changes its page and none is put in flight, a page's jobs
/// stay single in flight.
pub proof fn lemma_fewer_in_flight(jobs: Seq<JobView>, after: Seq<JobView>, page: Seq<char>)
    requires
        single_flight(jobs, page),
        after.len() == jobs.len(),
        forall|i: int|
            0 <= i < jobs.len() ==> (#[trigger] after[i]).page_name == jobs[i].page_name && (in_flight(
                after[i].state,
            ) ==> in_flight(jobs[i].state)),
    ensures
        single_flight(after, page),
{
    assert forall|a: int, b: int|
        0 <= a < after.len() && 0 <= b < after.len() && (#[trigger] after[a]).page_name == page && (
        #[trigger] after[b]).page_name == page && in_flight(after[a].state) && in_flight(
            after[b].state,
        ) implies a == b by {
        assert(jobs[a].page_name == page && in_flight(jobs[a].state));
        assert(jobs[b].page_name == page && in_flight(jobs[b].state));
    }
}

/// A job that is added while it is not in flight leaves a page's jobs
/// single in flight.
pub proof fn lemma_request_keeps_single_flight(jobs: Seq<JobView>, job: JobView, page: Seq<char>)
    requires
        single_flight(jobs, page),
        !in_flight(job.state),
    ensures
        single_flight(jobs.push(job), page),
{
    let after = jobs.push(job);
    assert forall|a: int, b: int|
        0 <= a < after.len() && 0 <= b < after.len() && (#[trigger] after[a]).page_name == page && (
        #[trigger] after[b]).page_name == page && in_flight(after[a].state) && in_flight(
            after[b].state,
        ) implies a == b by {
        assert(jobs[a].page_name == page && in_flight(jobs[a].state));
        assert(jobs[b].page_name == page && in_flight(jobs[b].state));
    }
}

/// Taking a job away leaves a page's jobs single in flight.
pub proof fn lemma_removal_keeps_single_flight(jobs: Seq<JobView>, k: int, page: Seq<char>)
    requires
        single_flight(jobs, page),
        0 <= k < jobs.len(),
    ensures
        single_flight(jobs.remove(k), page),
{
    let after = jobs.remove(k);
    assert forall|a: int, b: int|
        0 <= a < after.len() && 0 <= b < after.len() && (#[trigger] after[a]).page_name == page && (
        #[trigger] after[b]).page_name == page && in_flight(after[a].state) && in_flight(
            after[b].state,
        ) implies a == b by {
        let x = if a < k {
            a
        } else {
            a + 1
        };
        let y = if b < k {
            b
        } else {
            b + 1
        };
        assert(jobs[x] == after[a]);
        assert(jobs[y] == after[b]);
    }
}

/// A poll never puts a second job of a page in flight.
pub proof fn lemma_poll_keeps_single_flight(jobs: Seq<JobView>, page: Seq<char>, other: Seq<char>)
    requires
        single_flight(jobs, other),
    ensures
        single_flight(after_poll(jobs, page), other),
{
    let after = after_poll(jobs, page);
    if exists|i: int| is_pending(jobs, page, i) {
        let i = choose|i: int| is_pending(jobs, page, i);
        if jobs[i].state == JobState::Requested {
            assert forall|a: int, b: int|
                0 <= a < after.len() && 0 <= b < after.len() && (#[trigger] after[a]).page_name == other
                    && (#[trigger] after[b]).page_name == other && in_flight(after[a].state)
                    && in_flight(after[b].state) implies a == b by {
                if other == page {
                    if a != i {
                        assert(after[a] == jobs[a]);
                        assert(job_matches(jobs[a], page, jobs[a].state));
                    }
                    if b != i {
                        assert(after[b] == jobs[b]);
                        assert(job_matches(jobs[b], page, jobs[b].state));
                    }
                } else {
                    assert(after[a] == jobs[a]);
                    assert(after[b] == jobs[b]);
                }
            }
        }
    }
}

/// Why a report for the job `id` is refused, if it is: the job is unknown,
/// or it is neither dispatched nor started.
pub open spec fn refusal_of(jobs: Seq<JobView>, id: Seq<char>) -> Option<JobError> {
    if !has_job(jobs, id) {
        Some(JobError::NotFound)
    } else if !in_flight(jobs[job_index(jobs, id)].state) {
        Some(JobError::InvalidTransition)
    } else {
        None
    }
}

/// The jobs after the reply to a report for the job `id` was stored: the
/// job, if its report is taken, has come to its end and holds what the page
/// reported; nothing else changes.
pub open spec fn after_report(jobs: Seq<JobView>, id: Seq<char>, ok: bool, result: Seq<char>) -> Seq<
    JobView,
> {
    if refusal_of(jobs, id) is None {
        let k = job_index(jobs, id);
        jobs.update(k, JobView { state: outcome_state(ok), result: Some(result), ..jobs[k] })
    } else {
        jobs
    }
}

/// How the handling of a page's report ended.
#[derive(Debug, Clone, PartialEq, Eq)]
pub enum ReportOutcome {
    /// The report was refused: the job is unknown, or it is neither
    /// dispatched nor started, such as a job that has got its reply.
    Refused(JobError),
    /// The report was taken and its reply stored in the page's log.
    Stored,
    /// The report was taken and its reply could not be written.
    NotStored(WriteError),
}

/// How the handling of a report ended, as a mathematical value.
pub enum ReportOutcomeView {
    Refused(JobError),
    Stored,
    NotStored(WriteFault),
}

impl View for ReportOutcome {
    type V = ReportOutcomeView;

    open spec fn view(&self) -> ReportOutcomeView {
        match self {
            ReportOutcome::Refused(refusal) => ReportOutcomeView::Refused(*refusal),
            ReportOutcome::Stored => ReportOutcomeView::Stored,
            ReportOutcome::NotStored(error) => ReportOutcomeView::NotStored(error@),
        }
    }
}

/// The outcome of a write as a mathematical value.
pub open spec fn write_view(written: Result<(), WriteError>) -> Result<(), WriteFault> {
    match written {
        Ok(()) => Ok(()),
        Err(error) => Err(error@),
    }
}

/// How the handling of a report for the job `id` ends, for what the write
/// of its reply came to: not stored where the write failed; else stored, or
/// refused where the job was ended or taken away in the meantime.
pub open spec fn conclusion(jobs: Seq<JobView>, id: Seq<char>, written: Result<(), WriteFault>) -> ReportOutcomeView {
    match written {
        Err(fault) => ReportOutcomeView::NotStored(fault),
        Ok(()) => match refusal_of(jobs, id) {
            Some(refusal) => ReportOutcomeView::Refused(refusal),
            None => ReportOutcomeView::Stored,
        },
    }
}

/// Owns the jobs and moves them through their lifecycle as pages poll and
/// report.
pub struct Dispatcher {
    store: JobManager,
}

impl Dispatcher {
    /// The jobs, oldest first.
    pub closed spec fn jobs(&self) -> Seq<JobView> {
        self.store.jobs()
    }

    /// How many job ids have been handed out.
    pub closed spec fn issued(&self) -> nat {
        self.store.issued()
    }

    /// What every dispatcher satisfies: no page has two jobs in flight, and
    /// no two jobs share an id.
    #[verifier::type_invariant]
    pub open spec fn wf(&self) -> bool {
        &&& all_single_flight(self.jobs())
        &&& distinct_ids(self.jobs())
    }

    /// A dispatcher without jobs.
    pub fn new() -> (dispatcher: Dispatcher)
        ensures
            dispatcher.jobs() == Seq::<JobView>::empty(),
            dispatcher.issued() == 0,
    {
        Dispatcher { store: JobManager::new() }
    }

    /// The job with this id, if the dispatcher holds it.
    pub fn job(&self, id: &str) -> (found: Option<Job>)
        ensures
            all_single_flight(self.jobs()),
            distinct_ids(self.jobs()),
            match found {
                Some(job) => has_job(self.jobs(), id@) && job@ == self.jobs()[job_index(self.jobs(), id@)],
                None => !has_job(self.jobs(), id@),
            },
    {
        proof {
            use_type_invariant(self);
        }
        self.store.get(id)
    }

    /// Hands the job that is pending for `page` over to the page, and marks
    /// it as dispatched if it was only requested. The job is returned as it
    /// was before.
    pub fn hand_over(&mut self, page: &str) -> (job: Option<Job>)
        ensures
            job_view(job) == handed_over(old(self).jobs(), page@),
            final(self).jobs() == after_poll(old(self).jobs(), page@),
            job matches Some(handed) ==> is_stored_as_dispatched(final(self).jobs(), page@, handed@),
            final(self).issued() == old(self).issued(),
            all_single_flight(final(self).jobs()),
            distinct_ids(final(self).jobs()),
    {
        proof {
            use_type_invariant(&*self);
        }
        let ghost jobs = self.store.jobs();
        // The store is taken out, changed, and put back, so that the
        // invariant is asked for once, when the change is complete.
        let mut store = JobManager::new();
        std::mem::swap(&mut self.store, &mut store);
        let found = store.get_by_page(page);
        proof {
            lemma_handed_job_is_stored(jobs, page@);
            assert forall|other: Seq<char>| single_flight(after_poll(jobs, page@), other) by {
                assert(single_flight(jobs, other));
                lemma_poll_keeps_single_flight(jobs, page@, other);
            }
        }
        match &found {
            None => {
                proof {
                    assert forall|i: int| !is_pending(jobs, page@, i) by {}
                    assert(store.jobs() == after_poll(jobs, page@));
                }
            },
            Some(job) => {
                proof {
                    let i = choose|i: int| is_pending(jobs, page@, i) && job@ == #[trigger] jobs[i];
                    let c = choose|i: int| is_pending(jobs, page@, i);
                    lemma_pending_unique(jobs, page@, i, c);
                    use_type_invariant(&store);
                    assert(jobs[c].id == job@.id);
                    assert(has_job(jobs, job@.id));
                    let k = job_index(jobs, job@.id);
                    assert(k == c) by {
                        if k < c {
                            assert(jobs[k].id != jobs[c].id);
                        } else if c < k {
                            assert(jobs[c].id != jobs[k].id);
                        }
                    }
                }
                if job.state == JobState::Requested {
                    let moved = store.update_state(job.id.as_str(), JobState::Dispatched);
                    assert(moved is Ok);
                }
                assert(store.jobs() == after_poll(jobs, page@));
            },
        }
        proof {
            use_type_invariant(&store);
        }
        std::mem::swap(&mut self.store, &mut store);
        found
    }

    /// Marks the dispatched job `job_id` as started, for a page that tells
    /// that it has begun to run the job's code. A job that is unknown or not
    /// dispatched is reported and nothing changes.
    pub fn mark_started(&mut self, job_id: &str) -> (outcome: Result<(), JobError>)
        ensures
            final(self).issued() == old(self).issued(),
            all_single_flight(final(self).jobs()),
            distinct_ids(final(self).jobs()),
            match outcome {
                Ok(()) => {
                    let k = job_index(old(self).jobs(), job_id@);
                    &&& has_job(old(self).jobs(), job_id@)
                    &&& old(self).jobs()[k].state == JobState::Dispatched
                    &&& final(self).jobs() == old(self).jobs().update(
                        k,
                        JobView { state: JobState::Started, ..old(self).jobs()[k] },
                    )
                },
                Err(JobError::NotFound) => {
                    &&& !has_job(old(self).jobs(), job_id@)
                    &&& final(self).jobs() == old(self).jobs()
                },
                Err(JobError::InvalidTransition) => {
                    &&& has_job(old(self).jobs(), job_id@)
                    &&& old(self).jobs()[job_index(old(self).jobs(), job_id@)].state != JobState::Dispatched
                    &&& final(self).jobs() == old(self).jobs()
                },
            },
    {
        proof {
            use_type_invariant(&*self);
        }
        let ghost jobs = self.store.jobs();
        let mut store = JobManager::new();
        std::mem::swap(&mut self.store, &mut store);
        let outcome = store.update_state(job_id, JobState::Started);
        proof {
            assert forall|other: Seq<char>| single_flight(store.jobs(), other) by {
                assert(single_flight(jobs, other));
                if outcome is Ok {
                    lemma_fewer_in_flight(jobs, store.jobs(), other);
                }
            }
            use_type_invariant(&store);
        }
        std::mem::swap(&mut self.store, &mut store);
        outcome
    }

    /// Looks at a page's report for the job `job_id` before anything is
    /// written: a report is taken for a job that is dispatched or started,
    /// and the name of the job's page is returned, in whose log the reply
    /// goes. A report for a job that is unknown, that was never handed out,
    /// or that has come to its end is refused, so that a job that got its
    /// reply gets no second one. Nothing changes either way: the job moves
    /// on when its reply is stored, see `conclude_result`.
    pub fn begin_result(&self, job_id: &str) -> (outcome: Result<String, JobError>)
        ensures
            match outcome {
                Ok(page) => refusal_of(self.jobs(), job_id@) is None && page@ == self.jobs()[job_index(
                    self.jobs(),
                    job_id@,
                )].page_name,
                Err(refusal) => refusal_of(self.jobs(), job_id@) == Some(refusal),
            },
    {
        match self.store.get(job_id) {
            None => Err(JobError::NotFound),
            Some(job) => {
                if job.state == JobState::Dispatched || job.state == JobState::Started {
                    Ok(job.page_name)
                } else {
                    Err(JobError::InvalidTransition)
                }
            },
        }
    }

    /// Ends the job `job_id` after its reply was stored: a job that is
    /// dispatched or started becomes `Finished` where the page reported
    /// success and `Failed` where it reported an error, and keeps what the
    /// page reported. A dispatched job passes through `Started` on its way.
    /// A job that is unknown, was never handed out, or has come to its end
    /// is reported and nothing changes.
    pub fn finish_result(&mut self, job_id: &str, ok: bool, result: &str) -> (outcome: Result<(), JobError>)
        ensures
            final(self).issued() == old(self).issued(),
            all_single_flight(final(self).jobs()),
            distinct_ids(final(self).jobs()),
            final(self).jobs() == after_report(old(self).jobs(), job_id@, ok, result@),
            match outcome {
                Ok(()) => refusal_of(old(self).jobs(), job_id@) is None,
                Err(refusal) => refusal_of(old(self).jobs(), job_id@) == Some(refusal),
            },
    {
        proof {
            use_type_invariant(&*self);
        }
        let ghost jobs = self.store.jobs();
        let state = match self.store.get(job_id) {
            None => {
                return Err(JobError::NotFound);
            },
            Some(job) => job.state,
        };
        if state != JobState::Dispatched && state != JobState::Started {
            return Err(JobError::InvalidTransition);
        }
        let mut store = JobManager::new();
        std::mem::swap(&mut self.store, &mut store);
        if state == JobState::Dispatched {
            let moved = store.update_state(job_id, JobState::Started);
            assert(moved is Ok);
        }
        let ghost started = store.jobs();
        proof {
            let k = job_index(jobs, job_id@);
            assert(started.len() == jobs.len());
            assert(started[k].id == job_id@);
            assert(has_job(started, job_id@));
            use_type_invariant(&store);
            let at = job_index(started, job_id@);
            assert(at == k) by {
                if at < k {
                    assert(started[at].id != started[k].id);
                } else if k < at {
                    assert(started[k].id != started[at].id);
                }
            }
        }
        let outcome = store.finish(job_id, ok, result);
        proof {
            assert(outcome is Ok);
            assert(store.jobs() =~= after_report(jobs, job_id@, ok, result@));
            assert forall|other: Seq<char>| single_flight(store.jobs(), other) by {
                assert(single_flight(jobs, other));
                lemma_fewer_in_flight(jobs, store.jobs(), other);
            }
            use_type_invariant(&store);
        }
        std::mem::swap(&mut self.store, &mut store);
        outcome
    }

    /// Brings the handling of a report for the job `job_id` to its end, for
    /// what the write of the reply came to. Where the reply was stored, the
    /// job is ended as `finish_result` does. Where it was not, the jobs stay
    /// as they were, so that the page can report again.
    pub fn conclude_result(
        &mut self,
        job_id: &str,
        ok: bool,
        result: &str,
        written: Result<(), WriteError>,
    ) -> (outcome: ReportOutcome)
        ensures
            final(self).issued() == old(self).issued(),
            all_single_flight(final(self).jobs()),
            distinct_ids(final(self).jobs()),
            outcome@ == conclusion(old(self).jobs(), job_id@, write_view(written)),
            final(self).jobs() == if written is Ok {
                after_report(old(self).jobs(), job_id@, ok, result@)
            } else {
                old(self).jobs()
            },
    {
        proof {
            use_type_invariant(&*self);
        }
        match written {
            Err(error) => ReportOutcome::NotStored(error),
            Ok(()) => match self.finish_result(job_id, ok, result) {
                Ok(()) => ReportOutcome::Stored,
                Err(refusal) => ReportOutcome::Refused(refusal),
            },
        }
    }

    /// Creates the job for a request that was read from a log, at time
    /// `now_ms` (milliseconds since the Unix epoch). `None`, and nothing
    /// changes, where the store has no id left to issue.
    pub fn accept(&mut self, request: &Request, now_ms: u64) -> (job: Option<Job>)
        ensures
            all_single_flight(final(self).jobs()),
            distinct_ids(final(self).jobs()),
            match job {
                Some(job) => {
                    &&& old(self).issued() < u64::MAX
                    &&& job@ == job_for(request@, now_ms, old(self).issued())
                    &&& !has_job(old(self).jobs(), job@.id)
                    &&& final(self).jobs() == old(self).jobs().push(job@)
                    &&& final(self).issued() == old(self).issued() + 1
                },
                None => {
                    &&& old(self).issued() >= u64::MAX
                    &&& final(self).jobs() == old(self).jobs()
                    &&& final(self).issued() == old(self).issued()
                },
            },
    {
        proof {
            use_type_invariant(&*self);
        }
        if !self.store.can_create() {
            return None;
        }
        let ghost jobs = self.store.jobs();
        let mut store = JobManager::new();
        std::mem::swap(&mut self.store, &mut store);
        let job = store.create_at(
            request.target.as_str(),
            request.agent.as_str(),
            request.code.as_str(),
            now_ms,
        );
        proof {
            assert forall|other: Seq<char>| single_flight(store.jobs(), other) by {
                assert(single_flight(jobs, other));
                lemma_request_keeps_single_flight(jobs, job@, other);
            }
        }
        proof {
            use_type_invariant(&store);
        }
        std::mem::swap(&mut self.store, &mut store);
        Some(job)
    }

    /// Times out every job that has been dispatched or started for longer
    /// than `timeout` at time `now` (both in seconds).
    pub fn sweep(&mut self, now: u64, timeout: u64)
        ensures
            final(self).issued() == old(self).issued(),
            final(self).jobs().len() == old(self).jobs().len(),
            forall|i: int|
                0 <= i < old(self).jobs().len() ==> #[trigger] final(self).jobs()[i] == swept(
                    old(self).jobs()[i],
                    now,
                    timeout,
                ),
            all_single_flight(final(self).jobs()),
            distinct_ids(final(self).jobs()),
    {
        proof {
            use_type_invariant(&*self);
        }
        let ghost jobs = self.store.jobs();
        let mut store = JobManager::new();
        std::mem::swap(&mut self.store, &mut store);
        store.sweep(now, timeout);
        proof {
            assert forall|other: Seq<char>| single_flight(store.jobs(), other) by {
                assert(single_flight(jobs, other));
                lemma_fewer_in_flight(jobs, store.jobs(), other);
            }
        }
        proof {
            use_type_invariant(&store);
        }
        std::mem::swap(&mut self.store, &mut store);
    }

    /// Deletes the job with this id, if the dispatcher holds it.
    pub fn remove(&mut self, id: &str)
        ensures
            final(self).issued() == old(self).issued(),
            final(self).jobs() == if has_job(old(self).jobs(), id@) {
                old(self).jobs().remove(job_index(old(self).jobs(), id@))
            } else {
                old(self).jobs()
            },
            all_single_flight(final(self).jobs()),
            distinct_ids(final(self).jobs()),
    {
        proof {
            use_type_invariant(&*self);
        }
        let ghost jobs = self.store.jobs();
        let mut store = JobManager::new();
        std::mem::swap(&mut self.store, &mut store);
        store.remove(id);
        proof {
            assert forall|other: Seq<char>| single_flight(store.jobs(), other) by {
                assert(single_flight(jobs, other));
                if has_job(jobs, id@) {
                    lemma_removal_keeps_single_flight(jobs, job_index(jobs, id@), other);
                }
            }
        }
        proof {
            use_type_invariant(&store);
        }
        std::mem::swap(&mut self.store, &mut store);
    }

    /// Looks at the text of a page's log after it changed. A text that does
    /// not parse is set aside and the last good document kept. Otherwise the
    /// new document is kept and, where blocks or code were added and the
    /// turn has come to another request of the page, a job is created for
    /// that request at time `now_ms` (milliseconds since the Unix epoch).
    pub fn rescan_at(&mut self, last: LogDocument, text: &str, page_name: &str, now_ms: u64) -> (kept: (
        LogDocument,
        Option<Job>,
    ))
        ensures
            all_single_flight(final(self).jobs()),
            distinct_ids(final(self).jobs()),
            match document_of(text@) {
                Err(_) => {
                    &&& kept.0.blocks() == last.blocks()
                    &&& kept.1 is None
                },
                Ok(blocks) => {
                    &&& kept.0.blocks() == blocks
                    &&& kept.0.describes(text.spec_bytes())
                    &&& match (Comparison { old: last.blocks(), new: blocks }).request_to_dispatch(
                        page_name@,
                    ) {
                        Some(request) => if old(self).issued() < u64::MAX {
                            kept.1 matches Some(job) && job@ == job_for(request, now_ms, old(self).issued())
                        } else {
                            kept.1 is None
                        },
                        None => kept.1 is None,
                    }
                },
            },
            match kept.1 {
                Some(job) => {
                    &&& final(self).jobs() == old(self).jobs().push(job@)
                    &&& final(self).issued() == old(self).issued() + 1
                    &&& !has_job(old(self).jobs(), job@.id)
                },
                None => final(self).jobs() == old(self).jobs() && final(self).issued() == old(self).issued(),
            },
    {
        proof {
            use_type_invariant(&*self);
        }
        let document = match parse_file_ast(text) {
            Err(_) => {
                return (last, None);
            },
            Ok(document) => document,
        };
        match new_request(&last, &document, page_name) {
            None => (document, None),
            Some(request) => {
                let job = self.accept(&request, now_ms);
                (document, job)
            },
        }
    }

    /// Looks at the text of a page's log after it changed, at the system
    /// clock's reading.
    pub fn rescan(&mut self, last: LogDocument, text: &str, page_name: &str) -> (kept: (
        LogDocument,
        Option<Job>,
    ))
        ensures
            all_single_flight(final(self).jobs()),
            distinct_ids(final(self).jobs()),
            match document_of(text@) {
                Err(_) => kept.0.blocks() == last.blocks() && kept.1 is None,
                Ok(blocks) => {
                    &&& kept.0.blocks() == blocks
                    &&& kept.0.describes(text.spec_bytes())
                    &&& kept.1 is Some <==> old(self).issued() < u64::MAX && (Comparison {
                        old: last.blocks(),
                        new: blocks,
                    }).request_to_dispatch(page_name@) is Some
                },
            },
            match kept.1 {
                Some(job) => {
                    &&& final(self).jobs() == old(self).jobs().push(job@)
                    &&& final(self).issued() == old(self).issued() + 1
                    &&& !has_job(old(self).jobs(), job@.id)
                    &&& job@.state == JobState::Requested
                    &&& job@.page_name == page_name@
                },
                None => final(self).jobs() == old(self).jobs() && final(self).issued() == old(self).issued(),
            },
    {
        let now_ms = now_millis();
        let kept = self.rescan_at(last, text, page_name, now_ms);
        proof {
            match document_of(text@) {
                Ok(blocks) => {
                    let both = Comparison { old: last.blocks(), new: blocks };
                    match both.request_to_dispatch(page_name@) {
                        Some(request) => {
                            let i = choose|i: int| earliest_unanswered(blocks, page_name@, i);
                            assert(is_unanswered(blocks, page_name@, i));
                        },
                        None => {},
                    }
                },
                Err(_) => {},
            }
        }
        kept
    }
}

} // verus!
