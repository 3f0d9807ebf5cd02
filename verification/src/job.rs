//! Job lifecycle: identity, state, and the store that owns both.

use crate::clock::millis_to_secs;
use crate::clock::now_millis;
use crate::clock::seconds_of;
use crate::text::decimal;
use crate::text::lemma_decimal_injective;
use crate::text::lemma_decimal_reads_back;
use crate::text::push_decimal;
use crate::text::str_eq;
use vstd::prelude::*;
use vstd::string::*;

verus! {

/// Where a job stands in its lifecycle.
#[derive(Debug, Clone, Copy, PartialEq, Eq, Structural)]
pub enum JobState {
    Requested,
    Dispatched,
    Started,
    Finished,
    Failed,
    Timeout,
}

/// Why the store refused an operation.
#[derive(Debug, Clone, Copy, PartialEq, Eq, Structural)]
pub enum JobError {
    /// No job has the given id.
    NotFound,
    /// The lifecycle has no edge from the job's state to the requested one.
    InvalidTransition,
}

/// One unit of work for a page.
#[derive(Debug, Clone)]
pub struct Job {
    pub id: String,
    pub page_name: String,
    pub agent: String,
    pub code: String,
    pub state: JobState,
    /// Creation time, in seconds since the Unix epoch.
    pub started_at: u64,
    /// What the page reported, once it has.
    pub result: Option<String>,
}

/// A job as a mathematical value.
pub struct JobView {
    pub id: Seq<char>,
    pub page_name: Seq<char>,
    pub agent: Seq<char>,
    pub code: Seq<char>,
    pub state: JobState,
    pub started_at: u64,
    pub result: Option<Seq<char>>,
}

impl View for Job {
    type V = JobView;

    open spec fn view(&self) -> JobView {
        JobView {
            id: self.id@,
            page_name: self.page_name@,
            agent: self.agent@,
            code: self.code@,
            state: self.state,
            started_at: self.started_at,
            result: match self.result {
                Some(text) => Some(text@),
                None => None,
            },
        }
    }
}

/// The legal edges of the lifecycle.
pub open spec fn legal_transition(from: JobState, to: JobState) -> bool {
    match (from, to) {
        (JobState::Requested, JobState::Dispatched) => true,
        (JobState::Dispatched, JobState::Started) => true,
        (JobState::Started, JobState::Finished) => true,
        (JobState::Started, JobState::Failed) => true,
        (JobState::Dispatched, JobState::Timeout) => true,
        (JobState::Started, JobState::Timeout) => true,
        _ => false,
    }
}

/// Whether a job in this state is on its way to or running on a page.
pub open spec fn in_flight(state: JobState) -> bool {
    state == JobState::Dispatched || state == JobState::Started
}

/// Whether a job in this state has come to its end.
pub open spec fn is_final(state: JobState) -> bool {
    state == JobState::Finished || state == JobState::Failed || state == JobState::Timeout
}

/// A job that has come to its end stays as it is: the lifecycle has no edge
/// out of `Finished`, `Failed` or `Timeout`, and none into `Requested`.
pub proof fn lemma_final_states(from: JobState, to: JobState)
    ensures
        is_final(from) ==> !legal_transition(from, to),
        !legal_transition(from, JobState::Requested),
        legal_transition(from, to) ==> from != to,
{
}

/// The text of the id issued at time `stamp` (milliseconds) as the
/// `serial`-th id of a store: `job-<stamp>-<serial>`.
pub open spec fn job_id_text(stamp: nat, serial: nat) -> Seq<char> {
    seq!['j', 'o', 'b', '-'] + decimal(stamp) + seq!['-'] + decimal(serial)
}

/// Whether `id` is the text of an id with a serial number below `bound`.
pub open spec fn issued_below(id: Seq<char>, bound: nat) -> bool {
    exists|stamp: nat, serial: nat| serial < bound && id == #[trigger] job_id_text(stamp, serial)
}

/// Ids with different serial numbers differ, whatever their time stamps:
/// a store that never hands out a serial number twice never hands out an id
/// twice, also within one millisecond and after jobs were removed.
pub proof fn lemma_job_ids_differ(stamp1: nat, serial1: nat, stamp2: nat, serial2: nat)
    requires
        serial1 != serial2,
    ensures
        job_id_text(stamp1, serial1) != job_id_text(stamp2, serial2),
{
    let a = job_id_text(stamp1, serial1);
    let b = job_id_text(stamp2, serial2);
    if a == b {
        lemma_decimal_reads_back(stamp1);
        lemma_decimal_reads_back(stamp2);
        lemma_decimal_reads_back(serial1);
        lemma_decimal_reads_back(serial2);
        let t1 = decimal(serial1);
        let t2 = decimal(serial2);
        let h1 = 4 + decimal(stamp1).len();
        let h2 = 4 + decimal(stamp2).len();
        assert(a.len() == h1 + 1 + t1.len());
        assert(b.len() == h2 + 1 + t2.len());
        // The dash before the serial number is no digit, so it cannot fall
        // inside the other id's serial number.
        assert(a[h1 as int] == '-');
        assert(b[h2 as int] == '-');
        if t1.len() < t2.len() {
            assert(b[h1 as int] == t2[h1 - h2 - 1]);
        } else if t2.len() < t1.len() {
            assert(a[h2 as int] == t1[h2 - h1 - 1]);
        }
        assert(t1.len() == t2.len());
        assert(t1 =~= t2) by {
            assert forall|i: int| 0 <= i < t1.len() implies t1[i] == t2[i] by {
                assert(a[h1 + 1 + i] == t1[i]);
                assert(b[h2 + 1 + i] == t2[i]);
            }
        }
        lemma_decimal_injective(serial1, serial2);
    }
}

/// An id issued under a serial number that a store has not yet reached
/// differs from every id that the store has issued, whether the job that
/// got it is still held or was removed: over the lifetime of a store, whose
/// serial numbers only grow, no id comes twice.
pub proof fn lemma_fresh_id(id: Seq<char>, bound: nat, stamp: nat, serial: nat)
    requires
        issued_below(id, bound),
        serial >= bound,
    ensures
        job_id_text(stamp, serial) != id,
{
    let (earlier, lower) = choose|earlier: nat, lower: nat|
        lower < bound && id == #[trigger] job_id_text(earlier, lower);
    lemma_job_ids_differ(earlier, lower, stamp, serial);
}

/// The ids that a store issues one after another, from the serial number
/// `first` on, are pairwise distinct, whatever the clock read at each call:
/// also where it read the same millisecond every time.
pub proof fn lemma_ids_in_a_row_differ(stamps: Seq<nat>, first: nat)
    ensures
        forall|i: int, j: int|
            0 <= i < j < stamps.len() ==> job_id_text(#[trigger] stamps[i], (first + i) as nat)
                != job_id_text(#[trigger] stamps[j], (first + j) as nat),
{
    assert forall|i: int, j: int| 0 <= i < j < stamps.len() implies job_id_text(
        #[trigger] stamps[i],
        (first + i) as nat,
    ) != job_id_text(#[trigger] stamps[j], (first + j) as nat) by {
        lemma_job_ids_differ(stamps[i], (first + i) as nat, stamps[j], (first + j) as nat);
    }
}

/// An id that was issued below a bound was issued below every greater
/// bound: what a store has handed out stays handed out as it goes on.
pub proof fn lemma_issued_stays(id: Seq<char>, bound: nat, later: nat)
    requires
        issued_below(id, bound),
        bound <= later,
    ensures
        issued_below(id, later),
{
    let (stamp, serial) = choose|stamp: nat, serial: nat|
        serial < bound && id == #[trigger] job_id_text(stamp, serial);
    assert(serial < later && id == job_id_text(stamp, serial));
}

/// Decides whether the lifecycle has an edge from `from` to `to`.
pub fn can_transition(from: JobState, to: JobState) -> (ok: bool)
    ensures
        ok == legal_transition(from, to),
{
    match (from, to) {
        (JobState::Requested, JobState::Dispatched) => true,
        (JobState::Dispatched, JobState::Started) => true,
        (JobState::Started, JobState::Finished) => true,
        (JobState::Started, JobState::Failed) => true,
        (JobState::Dispatched, JobState::Timeout) => true,
        (JobState::Started, JobState::Timeout) => true,
        _ => false,
    }
}

/// Writes the id for time `stamp` and serial number `serial`.
pub fn format_job_id(stamp: u64, serial: u64) -> (id: String)
    ensures
        id@ == job_id_text(stamp as nat, serial as nat),
{
    let mut id = String::from_str("job-");
    proof {
        reveal_strlit("job-");
        assert("job-"@ =~= seq!['j', 'o', 'b', '-']);
    }
    push_decimal(&mut id, stamp);
    id.push('-');
    push_decimal(&mut id, serial);
    proof {
        assert(id@ =~= job_id_text(stamp as nat, serial as nat));
    }
    id
}

impl Job {
    /// A copy of this job.
    pub fn duplicate(&self) -> (copy: Job)
        ensures
            copy@ == self@,
    {
        Job {
            id: self.id.clone(),
            page_name: self.page_name.clone(),
            agent: self.agent.clone(),
            code: self.code.clone(),
            state: self.state,
            started_at: self.started_at,
            result: match &self.result {
                Some(text) => Some(text.clone()),
                None => None,
            },
        }
    }
}

/// Owns every job and its state. Jobs are kept in the order of creation.
pub struct JobManager {
    jobs: Vec<Job>,
    issued: u64,
}

/// Whether no two jobs of `jobs` share an id.
pub open spec fn distinct_ids(jobs: Seq<JobView>) -> bool {
    forall|i: int, j: int| 0 <= i < j < jobs.len() ==> (#[trigger] jobs[i]).id != (#[trigger] jobs[j]).id
}

/// Whether `jobs` holds a job with this id.
pub open spec fn has_job(jobs: Seq<JobView>, id: Seq<char>) -> bool {
    exists|i: int| 0 <= i < jobs.len() && (#[trigger] jobs[i]).id == id
}

/// The place of the job with this id in `jobs`; meant for stores that hold
/// one.
pub open spec fn job_index(jobs: Seq<JobView>, id: Seq<char>) -> int {
    choose|i: int| 0 <= i < jobs.len() && (#[trigger] jobs[i]).id == id
}

/// Whether `job` belongs to `page` and is in `state`.
pub open spec fn job_matches(job: JobView, page: Seq<char>, state: JobState) -> bool {
    job.page_name == page && job.state == state
}

/// Whether `page` has no job in `state`.
pub open spec fn none_in_state(jobs: Seq<JobView>, page: Seq<char>, state: JobState) -> bool {
    forall|i: int| 0 <= i < jobs.len() ==> !job_matches(#[trigger] jobs[i], page, state)
}

/// Whether the job at `i` comes before the job at `j` when jobs are ordered
/// by creation time, and by their place in the store where the times agree.
pub open spec fn not_later(jobs: Seq<JobView>, i: int, j: int) -> bool {
    jobs[i].started_at < jobs[j].started_at || (jobs[i].started_at == jobs[j].started_at && i <= j)
}

/// Whether the job at `i` is the earliest of `page`'s jobs in `state`.
pub open spec fn earliest_in_state(jobs: Seq<JobView>, page: Seq<char>, state: JobState, i: int) -> bool {
    &&& 0 <= i < jobs.len()
    &&& job_matches(jobs[i], page, state)
    &&& forall|j: int|
        0 <= j < jobs.len() && job_matches(#[trigger] jobs[j], page, state) ==> not_later(jobs, i, j)
}

/// Whether the job at `i` is the one to hand to `page`: the earliest
/// dispatched job; or, where the page has no job dispatched or started, the
/// earliest requested one.
pub open spec fn is_pending(jobs: Seq<JobView>, page: Seq<char>, i: int) -> bool {
    ||| earliest_in_state(jobs, page, JobState::Dispatched, i)
    ||| (none_in_state(jobs, page, JobState::Dispatched) && none_in_state(
        jobs,
        page,
        JobState::Started,
    ) && earliest_in_state(jobs, page, JobState::Requested, i))
}

/// Whether `page` has at most one job dispatched or started.
pub open spec fn single_flight(jobs: Seq<JobView>, page: Seq<char>) -> bool {
    forall|i: int, j: int|
        0 <= i < jobs.len() && 0 <= j < jobs.len() && (#[trigger] jobs[i]).page_name == page && (
        #[trigger] jobs[j]).page_name == page && in_flight(jobs[i].state) && in_flight(jobs[j].state)
            ==> i == j
}

/// Whether an in-flight job created at `started_at` has outlived `timeout`
/// at time `now` (all in seconds).
pub open spec fn overdue(started_at: u64, now: u64, timeout: u64) -> bool {
    now - started_at > timeout
}

/// A job after a sweep at time `now`: timed out if it was in flight for
/// longer than `timeout`, else as it was.
pub open spec fn swept(job: JobView, now: u64, timeout: u64) -> JobView {
    if in_flight(job.state) && overdue(job.started_at, now, timeout) {
        JobView { state: JobState::Timeout, ..job }
    } else {
        job
    }
}

/// At most one job is pending for a page: the choice is determined by the
/// store's contents, also where two jobs of the page are dispatched.
pub proof fn lemma_pending_unique(jobs: Seq<JobView>, page: Seq<char>, i: int, j: int)
    requires
        is_pending(jobs, page, i),
        is_pending(jobs, page, j),
    ensures
        i == j,
{
}

/// The jobs of a list as mathematical values.
pub open spec fn jobs_view(jobs: Seq<Job>) -> Seq<JobView> {
    Seq::new(jobs.len(), |i: int| jobs[i]@)
}

/// Puts the job at `i` into `state`.
fn set_state(jobs: &mut Vec<Job>, i: usize, state: JobState)
    requires
        i < old(jobs)@.len(),
    ensures
        final(jobs)@.len() == old(jobs)@.len(),
        jobs_view(final(jobs)@) == jobs_view(old(jobs)@).update(
            i as int,
            JobView { state: state, ..old(jobs)@[i as int]@ },
        ),
{
    jobs[i].state = state;
    proof {
        assert(jobs_view(jobs@) =~= jobs_view(old(jobs)@).update(
            i as int,
            JobView { state: state, ..old(jobs)@[i as int]@ },
        ));
    }
}

/// Puts the job at `i` into `state` and records what the page reported.
fn set_outcome(jobs: &mut Vec<Job>, i: usize, state: JobState, result: &str)
    requires
        i < old(jobs)@.len(),
    ensures
        final(jobs)@.len() == old(jobs)@.len(),
        jobs_view(final(jobs)@) == jobs_view(old(jobs)@).update(
            i as int,
            JobView { state: state, result: Some(result@), ..old(jobs)@[i as int]@ },
        ),
{
    jobs[i].state = state;
    jobs[i].result = Some(String::from_str(result));
    proof {
        assert(jobs_view(jobs@) =~= jobs_view(old(jobs)@).update(
            i as int,
            JobView { state: state, result: Some(result@), ..old(jobs)@[i as int]@ },
        ));
    }
}

/// The state that ends a job: `Finished` where the page reported success,
/// `Failed` where it reported an error.
pub open spec fn outcome_state(ok: bool) -> JobState {
    if ok {
        JobState::Finished
    } else {
        JobState::Failed
    }
}

impl JobManager {
    /// The jobs in the store, oldest first.
    pub closed spec fn jobs(&self) -> Seq<JobView> {
        jobs_view(self.jobs@)
    }

    /// How many ids the store has handed out since it was made.
    pub closed spec fn issued(&self) -> nat {
        self.issued as nat
    }

    /// What every store satisfies: ids are pairwise distinct, and each was
    /// issued under a serial number that the store has already passed.
    #[verifier::type_invariant]
    pub open spec fn wf(&self) -> bool {
        &&& distinct_ids(self.jobs())
        &&& forall|i: int|
            0 <= i < self.jobs().len() ==> issued_below((#[trigger] self.jobs()[i]).id, self.issued())
    }

    /// An empty store that has issued no id.
    pub fn new() -> (store: JobManager)
        ensures
            store.jobs() == Seq::<JobView>::empty(),
            store.issued() == 0,
    {
        let store = JobManager { jobs: Vec::new(), issued: 0 };
        assert(store.jobs() =~= Seq::<JobView>::empty());
        store
    }

    /// The place of the job with this id, if the store holds it.
    fn find(&self, id: &str) -> (found: Option<usize>)
        ensures
            match found {
                Some(i) => i < self.jobs().len() && self.jobs()[i as int].id == id@ && has_job(
                    self.jobs(),
                    id@,
                ) && job_index(self.jobs(), id@) == i,
                None => !has_job(self.jobs(), id@),
            },
    {
        let mut i: usize = 0;
        while i < self.jobs.len()
            invariant
                0 <= i <= self.jobs.len(),
                self.jobs().len() == self.jobs.len(),
                forall|k: int| 0 <= k < i ==> (#[trigger] self.jobs()[k]).id != id@,
            decreases self.jobs.len() - i,
        {
            if str_eq(self.jobs[i].id.as_str(), id) {
                proof {
                    use_type_invariant(self);
                    assert(self.jobs()[i as int].id == id@);
                }
                return Some(i);
            }
            i += 1;
        }
        None
    }

    /// Creates a job for `page_name` at time `now_ms` (milliseconds since
    /// the Unix epoch): a fresh id, state `Requested`, and the creation time
    /// in seconds. The id differs from every id that the store has issued
    /// so far, whether the job that got it is still held or not, and counts
    /// as issued from now on.
    pub fn create_at(&mut self, page_name: &str, agent: &str, code: &str, now_ms: u64) -> (job: Job)
        requires
            old(self).issued() < u64::MAX,
        ensures
            final(self).jobs() == old(self).jobs().push(job@),
            final(self).issued() == old(self).issued() + 1,
            job@ == (JobView {
                id: job_id_text(now_ms as nat, old(self).issued()),
                page_name: page_name@,
                agent: agent@,
                code: code@,
                state: JobState::Requested,
                started_at: millis_to_secs(now_ms),
                result: None,
            }),
            !has_job(old(self).jobs(), job@.id),
            forall|id: Seq<char>| #[trigger] issued_below(id, old(self).issued()) ==> job@.id != id,
            issued_below(job@.id, final(self).issued()),
    {
        proof {
            use_type_invariant(&*self);
            assert forall|id: Seq<char>| #[trigger]
                issued_below(id, self.issued()) implies job_id_text(now_ms as nat, self.issued()) != id by {
                lemma_fresh_id(id, self.issued(), now_ms as nat, self.issued());
            }
        }
        let serial = self.issued;
        let job = Job {
            id: format_job_id(now_ms, serial),
            page_name: String::from_str(page_name),
            agent: String::from_str(agent),
            code: String::from_str(code),
            state: JobState::Requested,
            started_at: seconds_of(now_ms),
            result: None,
        };
        let copy = job.duplicate();
        proof {
            assert forall|i: int| 0 <= i < self.jobs().len() implies (#[trigger] self.jobs()[i]).id
                != job@.id by {
                lemma_fresh_id(self.jobs()[i].id, self.issued(), now_ms as nat, serial as nat);
            }
        }
        self.issued = serial + 1;
        // The list is taken out of the store, changed, and put back, so that
        // the store's invariant is asked for once, when the list is whole.
        let mut jobs: Vec<Job> = Vec::new();
        std::mem::swap(&mut self.jobs, &mut jobs);
        jobs.push(job);
        proof {
            assert(jobs_view(jobs@) =~= old(self).jobs().push(copy@));
        }
        std::mem::swap(&mut self.jobs, &mut jobs);
        copy
    }

    /// Whether the store can still issue an id.
    pub fn can_create(&self) -> (ok: bool)
        ensures
            ok == (self.issued() < u64::MAX),
    {
        self.issued < u64::MAX
    }

    /// Creates a job for `page_name`, stamped with the system clock's
    /// reading.
    pub fn create(&mut self, page_name: &str, agent: &str, code: &str) -> (job: Job)
        requires
            old(self).issued() < u64::MAX,
        ensures
            final(self).jobs() == old(self).jobs().push(job@),
            final(self).issued() == old(self).issued() + 1,
            exists|now_ms: u64|
                job@ == (JobView {
                    id: #[trigger] job_id_text(now_ms as nat, old(self).issued()),
                    page_name: page_name@,
                    agent: agent@,
                    code: code@,
                    state: JobState::Requested,
                    started_at: millis_to_secs(now_ms),
                    result: None,
                }),
            !has_job(old(self).jobs(), job@.id),
            forall|id: Seq<char>| #[trigger] issued_below(id, old(self).issued()) ==> job@.id != id,
            issued_below(job@.id, final(self).issued()),
    {
        let now_ms = now_millis();
        self.create_at(page_name, agent, code, now_ms)
    }

    /// The job with this id, if the store holds it.
    pub fn get(&self, id: &str) -> (found: Option<Job>)
        ensures
            match found {
                Some(job) => has_job(self.jobs(), id@) && job@ == self.jobs()[job_index(self.jobs(), id@)],
                None => !has_job(self.jobs(), id@),
            },
    {
        match self.find(id) {
            Some(i) => Some(self.jobs[i].duplicate()),
            None => None,
        }
    }

    /// The job to hand to `page_name`, if there is one: the earliest
    /// dispatched job of the page; or, where the page has no job dispatched
    /// or started, the earliest requested one. "Earliest" goes by creation
    /// time, and by the order of creation where the times agree.
    pub fn get_by_page(&self, page_name: &str) -> (found: Option<Job>)
        ensures
            match found {
                Some(job) => exists|i: int|
                    is_pending(self.jobs(), page_name@, i) && job@ == #[trigger] self.jobs()[i],
                None => forall|i: int| !is_pending(self.jobs(), page_name@, i),
            },
    {
        let mut dispatched: Option<usize> = None;
        let mut requested: Option<usize> = None;
        let mut started: bool = false;
        let mut k: usize = 0;
        while k < self.jobs.len()
            invariant
                0 <= k <= self.jobs.len(),
                self.jobs().len() == self.jobs.len(),
                match dispatched {
                    Some(i) => earliest_in_state(
                        self.jobs().take(k as int),
                        page_name@,
                        JobState::Dispatched,
                        i as int,
                    ),
                    None => none_in_state(self.jobs().take(k as int), page_name@, JobState::Dispatched),
                },
                match requested {
                    Some(i) => earliest_in_state(
                        self.jobs().take(k as int),
                        page_name@,
                        JobState::Requested,
                        i as int,
                    ),
                    None => none_in_state(self.jobs().take(k as int), page_name@, JobState::Requested),
                },
                started == !none_in_state(self.jobs().take(k as int), page_name@, JobState::Started),
            decreases self.jobs.len() - k,
        {
            let ghost before = self.jobs().take(k as int);
            let ghost after = self.jobs().take(k + 1);
            proof {
                assert(after[k as int] == self.jobs()[k as int]);
                assert forall|j: int| 0 <= j < k implies #[trigger] after[j] == before[j] by {}
            }
            let job = &self.jobs[k];
            if str_eq(job.page_name.as_str(), page_name) {
                match job.state {
                    JobState::Dispatched => {
                        match dispatched {
                            Some(i) => {
                                if job.started_at < self.jobs[i].started_at {
                                    dispatched = Some(k);
                                }
                            },
                            None => {
                                dispatched = Some(k);
                            },
                        }
                    },
                    JobState::Requested => {
                        match requested {
                            Some(i) => {
                                if job.started_at < self.jobs[i].started_at {
                                    requested = Some(k);
                                }
                            },
                            None => {
                                requested = Some(k);
                            },
                        }
                    },
                    JobState::Started => {
                        started = true;
                    },
                    _ => {},
                }
            }
            proof {
                if started {
                    if !none_in_state(before, page_name@, JobState::Started) {
                        let w = choose|w: int|
                            0 <= w < before.len() && job_matches(
                                #[trigger] before[w],
                                page_name@,
                                JobState::Started,
                            );
                        assert(job_matches(after[w], page_name@, JobState::Started));
                    } else {
                        assert(job_matches(after[k as int], page_name@, JobState::Started));
                    }
                }
            }
            k += 1;
        }
        proof {
            assert(self.jobs().take(k as int) =~= self.jobs());
        }
        match dispatched {
            Some(i) => Some(self.jobs[i].duplicate()),
            None => {
                if started {
                    None
                } else {
                    match requested {
                        Some(i) => Some(self.jobs[i].duplicate()),
                        None => None,
                    }
                }
            },
        }
    }

    /// Moves the job with this id along an edge of the lifecycle. A job that
    /// the store does not hold, and a move that the lifecycle does not
    /// allow, are reported and change nothing.
    pub fn update_state(&mut self, id: &str, state: JobState) -> (outcome: Result<(), JobError>)
        ensures
            final(self).issued() == old(self).issued(),
            match outcome {
                Ok(()) => {
                    let k = job_index(old(self).jobs(), id@);
                    &&& has_job(old(self).jobs(), id@)
                    &&& legal_transition(old(self).jobs()[k].state, state)
                    &&& final(self).jobs() == old(self).jobs().update(
                        k,
                        JobView { state: state, ..old(self).jobs()[k] },
                    )
                },
                Err(JobError::NotFound) => !has_job(old(self).jobs(), id@) && final(self).jobs() == old(
                    self,
                ).jobs(),
                Err(JobError::InvalidTransition) => {
                    &&& has_job(old(self).jobs(), id@)
                    &&& !legal_transition(old(self).jobs()[job_index(old(self).jobs(), id@)].state, state)
                    &&& final(self).jobs() == old(self).jobs()
                },
            },
    {
        proof {
            use_type_invariant(&*self);
        }
        match self.find(id) {
            None => Err(JobError::NotFound),
            Some(i) => {
                if !can_transition(self.jobs[i].state, state) {
                    return Err(JobError::InvalidTransition);
                }
                let mut jobs: Vec<Job> = Vec::new();
                std::mem::swap(&mut self.jobs, &mut jobs);
                set_state(&mut jobs, i, state);
                std::mem::swap(&mut self.jobs, &mut jobs);
                Ok(())
            },
        }
    }

    /// Deletes the job with this id; a store that does not hold it is left
    /// as it is. The id is not issued again.
    pub fn remove(&mut self, id: &str)
        ensures
            final(self).issued() == old(self).issued(),
            final(self).jobs() == if has_job(old(self).jobs(), id@) {
                old(self).jobs().remove(job_index(old(self).jobs(), id@))
            } else {
                old(self).jobs()
            },
    {
        proof {
            use_type_invariant(&*self);
        }
        match self.find(id) {
            None => {},
            Some(i) => {
                let mut jobs: Vec<Job> = Vec::new();
                std::mem::swap(&mut self.jobs, &mut jobs);
                jobs.remove(i);
                proof {
                    assert(jobs_view(jobs@) =~= old(self).jobs().remove(i as int));
                }
                std::mem::swap(&mut self.jobs, &mut jobs);
            },
        }
    }

    /// Times out every job that has been dispatched or started for longer
    /// than `timeout` at time `now` (both in seconds); all other jobs stay
    /// as they are.
    pub fn sweep(&mut self, now: u64, timeout: u64)
        ensures
            final(self).issued() == old(self).issued(),
            final(self).jobs().len() == old(self).jobs().len(),
            forall|i: int|
                0 <= i < old(self).jobs().len() ==> #[trigger] final(self).jobs()[i] == swept(
                    old(self).jobs()[i],
                    now,
                    timeout,
                ),
    {
        proof {
            use_type_invariant(&*self);
        }
        let mut jobs: Vec<Job> = Vec::new();
        std::mem::swap(&mut self.jobs, &mut jobs);
        let ghost before = jobs_view(jobs@);
        let mut i: usize = 0;
        while i < jobs.len()
            invariant
                0 <= i <= jobs.len(),
                jobs_view(jobs@).len() == before.len(),
                jobs@.len() == before.len(),
                forall|k: int| 0 <= k < i ==> #[trigger] jobs_view(jobs@)[k] == swept(before[k], now, timeout),
                forall|k: int| i <= k < before.len() ==> #[trigger] jobs_view(jobs@)[k] == before[k],
            decreases jobs.len() - i,
        {
            let state = jobs[i].state;
            let born = jobs[i].started_at;
            assert(jobs_view(jobs@)[i as int] == jobs@[i as int]@);
            assert(jobs_view(jobs@)[i as int] == before[i as int]);
            if (state == JobState::Dispatched || state == JobState::Started) && now > born && now - born
                > timeout {
                set_state(&mut jobs, i, JobState::Timeout);
            }
            i += 1;
        }
        proof {
            assert forall|k: int| 0 <= k < before.len() implies (#[trigger] jobs_view(jobs@)[k]).id
                == before[k].id by {}
        }
        std::mem::swap(&mut self.jobs, &mut jobs);
    }

    /// Ends a started job: records what the page reported and moves the job
    /// to `Finished` or `Failed`. A job that the store does not hold, and a
    /// job that is not started, are reported and change nothing.
    pub fn finish(&mut self, id: &str, ok: bool, result: &str) -> (outcome: Result<(), JobError>)
        ensures
            final(self).issued() == old(self).issued(),
            match outcome {
                Ok(()) => {
                    let k = job_index(old(self).jobs(), id@);
                    &&& has_job(old(self).jobs(), id@)
                    &&& old(self).jobs()[k].state == JobState::Started
                    &&& final(self).jobs() == old(self).jobs().update(
                        k,
                        JobView { state: outcome_state(ok), result: Some(result@), ..old(self).jobs()[k] },
                    )
                },
                Err(JobError::NotFound) => !has_job(old(self).jobs(), id@) && final(self).jobs() == old(
                    self,
                ).jobs(),
                Err(JobError::InvalidTransition) => {
                    &&& has_job(old(self).jobs(), id@)
                    &&& old(self).jobs()[job_index(old(self).jobs(), id@)].state != JobState::Started
                    &&& final(self).jobs() == old(self).jobs()
                },
            },
    {
        proof {
            use_type_invariant(&*self);
        }
        match self.find(id) {
            None => Err(JobError::NotFound),
            Some(i) => {
                let state = if ok {
                    JobState::Finished
                } else {
                    JobState::Failed
                };
                if !can_transition(self.jobs[i].state, state) {
                    return Err(JobError::InvalidTransition);
                }
                let mut jobs: Vec<Job> = Vec::new();
                std::mem::swap(&mut self.jobs, &mut jobs);
                set_outcome(&mut jobs, i, state, result);
                std::mem::swap(&mut self.jobs, &mut jobs);
                Ok(())
            },
        }
    }
}

impl Default for JobManager {
    /// An empty store that has issued no id.
    fn default() -> (store: JobManager)
        ensures
            store.jobs() == Seq::<JobView>::empty(),
            store.issued() == 0,
    {
        JobManager::new()
    }
}

} // verus!
