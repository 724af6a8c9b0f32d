//! The `jobs` collection: one document per job definition, with a unique
//! index on `name`. The table here is the verified model of that
//! collection, and its methods are the exact store transitions the
//! scheduler and the completion ingestor perform: the two-phase atomic
//! claim, the `agents_running` bookkeeping, the `$addToSet` on
//! `agents_complete`, and the completion check.

use vstd::prelude::*;

use crate::util::{clone_i32_vec, clone_string_vec, contains_string, shares_element};

verus! {

/// Where a job stands in its lifecycle. `Error` is reserved and never set
/// by the core.
#[derive(Debug, Clone, Copy, PartialEq, Eq, Structural)]
pub enum Status {
    Pending,
    Running,
    Completed,
    Error,
}

impl Status {
    /// Store encoding of the status.
    pub open spec fn spec_code(self) -> i32 {
        match self {
            Status::Pending => 0,
            Status::Running => 1,
            Status::Completed => 2,
            Status::Error => 3,
        }
    }

    /// Integer code of this status, as persisted.
    pub fn code(self) -> (c: i32)
        ensures
            c == self.spec_code(),
    {
        match self {
            Status::Pending => 0,
            Status::Running => 1,
            Status::Completed => 2,
            Status::Error => 3,
        }
    }
}

impl From<i32> for Status {
    fn from(value: i32) -> (s: Status) {
        if value == 0 {
            Status::Pending
        } else if value == 1 {
            Status::Running
        } else if value == 2 {
            Status::Completed
        } else {
            Status::Error
        }
    }
}

impl vstd::std_specs::convert::FromSpecImpl<i32> for Status {
    open spec fn obeys_from_spec() -> bool {
        true
    }

    open spec fn from_spec(value: i32) -> Status {
        if value == 0 {
            Status::Pending
        } else if value == 1 {
            Status::Running
        } else if value == 2 {
            Status::Completed
        } else {
            Status::Error
        }
    }
}

/// One job document. `next_run` is unix seconds; `timeout` and `retries`
/// are stored but not enforced by the executor.
#[derive(Debug)]
pub struct JobV1 {
    pub name: String,
    pub next_run: i64,
    pub status: Status,
    pub description: String,
    pub command: String,
    pub args: Vec<String>,
    pub env: Vec<String>,
    pub cwd: String,
    pub timeout: u32,
    pub retries: u32,
    pub valid_return_codes: Vec<i32>,
    pub agents_required: Vec<String>,
    pub agents_running: Vec<String>,
    pub agents_complete: Vec<String>,
}

/// Ghost mirror of [`JobV1`].
#[verifier::ext_equal]
pub ghost struct JobView {
    pub name: Seq<char>,
    pub next_run: i64,
    pub status: Status,
    pub description: Seq<char>,
    pub command: Seq<char>,
    pub args: Seq<Seq<char>>,
    pub env: Seq<Seq<char>>,
    pub cwd: Seq<char>,
    pub timeout: u32,
    pub retries: u32,
    pub valid_return_codes: Seq<i32>,
    pub agents_required: Seq<Seq<char>>,
    pub agents_running: Seq<Seq<char>>,
    pub agents_complete: Seq<Seq<char>>,
}

impl View for JobV1 {
    type V = JobView;

    open spec fn view(&self) -> JobView {
        JobView {
            name: self.name@,
            next_run: self.next_run,
            status: self.status,
            description: self.description@,
            command: self.command@,
            args: self.args.deep_view(),
            env: self.env.deep_view(),
            cwd: self.cwd@,
            timeout: self.timeout,
            retries: self.retries,
            valid_return_codes: self.valid_return_codes@,
            agents_required: self.agents_required.deep_view(),
            agents_running: self.agents_running.deep_view(),
            agents_complete: self.agents_complete.deep_view(),
        }
    }
}

impl JobV1 {
    /// A field-by-field copy with the same view, for handing claimed jobs
    /// out of the table.
    pub fn duplicate(&self) -> (r: JobV1)
        ensures
            r@ == self@,
    {
        let r = JobV1 {
            name: self.name.clone(),
            next_run: self.next_run,
            status: self.status,
            description: self.description.clone(),
            command: self.command.clone(),
            args: clone_string_vec(&self.args),
            env: clone_string_vec(&self.env),
            cwd: self.cwd.clone(),
            timeout: self.timeout,
            retries: self.retries,
            valid_return_codes: clone_i32_vec(&self.valid_return_codes),
            agents_required: clone_string_vec(&self.agents_required),
            agents_running: clone_string_vec(&self.agents_running),
            agents_complete: clone_string_vec(&self.agents_complete),
        };
        assert(r@ =~~= self@);
        r
    }
}

/// The claim filter of a scheduler tick: pending, due, not yet handed to
/// any agent, and at least one required agent currently online. The last
/// clause is the `$in` test of `agents_required` against the online names.
pub open spec fn spec_claimable(j: JobView, now: i64, online: Seq<Seq<char>>) -> bool {
    &&& j.status is Pending
    &&& j.next_run < now
    &&& j.agents_running.len() == 0
    &&& exists|i: int|
        0 <= i < j.agents_required.len() && online.contains(#[trigger] j.agents_required[i])
}

/// A job with no required agents is never claimable, whatever the time and
/// whoever is online: the `$in` test against any online set is false.
pub proof fn lemma_empty_required_never_claimable(j: JobView, now: i64, online: Seq<Seq<char>>)
    requires
        j.agents_required.len() == 0,
    ensures
        !spec_claimable(j, now, online),
{
}

/// One job after the claim phase: set running when the filter matches.
pub open spec fn spec_claim_job(j: JobView, now: i64, online: Seq<Seq<char>>) -> JobView {
    if spec_claimable(j, now, online) {
        JobView { status: Status::Running, ..j }
    } else {
        j
    }
}

/// The whole collection after the claim phase's `update-many`.
pub open spec fn spec_claim_all(s: Seq<JobView>, now: i64, online: Seq<Seq<char>>) -> Seq<
    JobView,
> {
    Seq::new(s.len(), |k: int| spec_claim_job(s[k], now, online))
}

/// The fetch filter of the second phase: running and not yet handed to any
/// agent. These are the jobs the tick must dispatch.
pub open spec fn spec_ready_to_dispatch(j: JobView) -> bool {
    j.status is Running && j.agents_running.len() == 0
}

/// The jobs a tick dispatches, in collection order.
pub open spec fn spec_ready_list(s: Seq<JobView>) -> Seq<JobView> {
    s.filter(|j: JobView| spec_ready_to_dispatch(j))
}

/// One job after an agent was handed its command: the agent is appended to
/// `agents_running` unless already present.
pub open spec fn spec_mark_running(j: JobView, agent: Seq<char>) -> JobView {
    if j.agents_running.contains(agent) {
        j
    } else {
        JobView { agents_running: j.agents_running.push(agent), ..j }
    }
}

/// One job after a completion report: `$addToSet` of the agent on
/// `agents_complete`.
pub open spec fn spec_add_complete(j: JobView, agent: Seq<char>) -> JobView {
    if j.agents_complete.contains(agent) {
        j
    } else {
        JobView { agents_complete: j.agents_complete.push(agent), ..j }
    }
}

/// `$addToSet` idempotence: recording the same completion twice leaves the
/// job exactly as after the first time.
pub proof fn lemma_add_complete_idempotent(j: JobView, agent: Seq<char>)
    ensures
        spec_add_complete(spec_add_complete(j, agent), agent) == spec_add_complete(j, agent),
{
    let j1 = spec_add_complete(j, agent);
    if !j.agents_complete.contains(agent) {
        assert(j1.agents_complete[j.agents_complete.len() as int] == agent);
        assert(j1.agents_complete.contains(agent));
    }
}

/// Marking an agent as running twice is likewise a no-op the second time.
pub proof fn lemma_mark_running_idempotent(j: JobView, agent: Seq<char>)
    ensures
        spec_mark_running(spec_mark_running(j, agent), agent) == spec_mark_running(j, agent),
{
    let j1 = spec_mark_running(j, agent);
    if !j.agents_running.contains(agent) {
        assert(j1.agents_running[j.agents_running.len() as int] == agent);
        assert(j1.agents_running.contains(agent));
    }
}

/// The completion check's condition: both counters present and equal, and
/// the required set non-empty.
pub open spec fn spec_completion_ready(j: JobView) -> bool {
    j.agents_required.len() > 0 && j.agents_required.len() == j.agents_complete.len()
}

/// One job after the completion check: when every required agent has
/// reported, the job reaches its terminal state and both runtime lists are
/// cleared.
pub open spec fn spec_finish_job(j: JobView) -> JobView {
    if spec_completion_ready(j) {
        JobView {
            status: Status::Completed,
            agents_running: Seq::empty(),
            agents_complete: Seq::empty(),
            ..j
        }
    } else {
        j
    }
}

/// The views of a vector of job documents, in order.
pub open spec fn job_views(v: Seq<JobV1>) -> Seq<JobView> {
    Seq::new(v.len(), |i: int| v[i]@)
}

/// The verified model of the `jobs` collection.
pub struct JobsTable {
    jobs: Vec<JobV1>,
}

impl View for JobsTable {
    type V = Seq<JobView>;

    closed spec fn view(&self) -> Seq<JobView> {
        Seq::new(self.jobs@.len(), |i: int| self.jobs@[i]@)
    }
}

impl JobsTable {
    /// The unique index on `name` holds.
    pub open spec fn wf(self) -> bool {
        forall|i: int, j: int| #![trigger self@[i], self@[j]]
            0 <= i < j < self@.len() ==> self@[i].name != self@[j].name
    }

    /// The empty collection.
    pub fn new() -> (r: JobsTable)
        ensures
            r@ == Seq::<JobView>::empty(),
            r.wf(),
    {
        let r = JobsTable { jobs: Vec::new() };
        assert(r@ =~= Seq::<JobView>::empty());
        r
    }

    /// How many job definitions the collection holds.
    pub fn len(&self) -> (n: usize)
        ensures
            n == self@.len(),
    {
        self.jobs.len()
    }

    /// The job at `i`, in insertion order.
    pub fn job_at(&self, i: usize) -> (j: &JobV1)
        requires
            i < self@.len(),
        ensures
            j@ == self@[i as int],
    {
        &self.jobs[i]
    }

    /// The position of the job named `name`, if any.
    pub fn find_index(&self, name: &String) -> (r: Option<usize>)
        ensures
            match r {
                Option::Some(i) => i < self@.len() && self@[i as int].name == name@,
                Option::None => forall|k: int| 0 <= k < self@.len() ==> self@[k].name != name@,
            },
    {
        let mut i: usize = 0;
        while i < self.jobs.len()
            invariant
                i <= self.jobs.len(),
                forall|k: int| 0 <= k < i ==> self@[k].name != name@,
            decreases self.jobs.len() - i,
        {
            assert(self@[i as int] == self.jobs@[i as int]@);
            if self.jobs[i].name.eq(name) {
                return Option::Some(i);
            }
            i = i + 1;
        }
        Option::None
    }

    /// Adds a job definition, as the admin surface would; the unique index
    /// on `name` silently rejects a duplicate.
    pub fn insert_job(&mut self, job: JobV1) -> (inserted: bool)
        requires
            old(self).wf(),
        ensures
            final(self).wf(),
            inserted ==> final(self)@ == old(self)@.push(job@),
            !inserted ==> final(self)@ == old(self)@ && (exists|k: int|
                0 <= k < old(self)@.len() && old(self)@[k].name == job@.name),
            inserted <==> !(exists|k: int|
                0 <= k < old(self)@.len() && #[trigger] old(self)@[k].name == job@.name),
    {
        let mut i: usize = 0;
        while i < self.jobs.len()
            invariant
                i <= self.jobs.len(),
                self@ == old(self)@,
                old(self).wf(),
                forall|k: int| 0 <= k < i ==> self@[k].name != job@.name,
            decreases self.jobs.len() - i,
        {
            assert(self@[i as int] == self.jobs@[i as int]@);
            if self.jobs[i].name.eq(&job.name) {
                return false;
            }
            i = i + 1;
        }
        self.jobs.push(job);
        assert(self@ =~= old(self)@.push(job@));
        assert forall|a: int, b: int| #![trigger self@[a], self@[b]]
            0 <= a < b < self@.len() implies self@[a].name != self@[b].name by {
            if b < old(self)@.len() as int {
                assert(old(self)@[a].name != old(self)@[b].name);
            }
        }
        true
    }

    /// One scheduler tick against the store: the atomic claim
    /// (`update-many`: every claimable job becomes running), then the
    /// fetch of the jobs that are running with no agents yet. The returned
    /// copies are exactly the jobs this tick must dispatch, in collection
    /// order. A claimed job can never be claimed again (it is no longer
    /// pending); the fetch still returns a job whose earlier dispatch
    /// reached no agent at all, so delivery is retried while nothing has
    /// been handed out.
    pub fn get_jobs_to_run(&mut self, now: i64, online: &Vec<String>) -> (claimed: Vec<JobV1>)
        requires
            old(self).wf(),
        ensures
            final(self).wf(),
            final(self)@ == spec_claim_all(old(self)@, now, online.deep_view()),
            job_views(claimed@) == spec_ready_list(final(self)@),
    {
        let ghost s0 = self@;
        let ghost online_v = online.deep_view();
        let n = self.jobs.len();
        let mut k: usize = 0;
        while k < n
            invariant
                k <= n,
                n == self.jobs.len(),
                self@.len() == s0.len() == n,
                old(self).wf(),
                s0 == old(self)@,
                online_v == online.deep_view(),
                forall|t: int| 0 <= t < k ==> self@[t] == spec_claim_job(s0[t], now, online_v),
                forall|t: int| k <= t < n ==> self@[t] == s0[t],
            decreases n - k,
        {
            assert(self@[k as int] == self.jobs@[k as int]@);
            let due = {
                let job = &self.jobs[k];
                let pending = match job.status {
                    Status::Pending => true,
                    _ => false,
                };
                pending && job.next_run < now && job.agents_running.len() == 0 && shares_element(
                    &job.agents_required,
                    online,
                )
            };
            assert(due == spec_claimable(s0[k as int], now, online_v));
            if due {
                let ghost prev = self@;
                let mut row = self.jobs.remove(k);
                row.status = Status::Running;
                self.jobs.insert(k, row);
                assert(row@ =~~= spec_claim_job(s0[k as int], now, online_v));
                assert(self@ =~= prev.update(k as int, spec_claim_job(s0[k as int], now, online_v)));
            }
            k = k + 1;
        }
        assert(self@ =~= spec_claim_all(s0, now, online_v));
        let ghost s1 = self@;
        let mut claimed: Vec<JobV1> = Vec::new();
        let mut i: usize = 0;
        proof {
            reveal(Seq::filter);
            assert(s1.take(0) =~= Seq::<JobView>::empty());
            assert(spec_ready_list(s1.take(0)) =~= Seq::<JobView>::empty());
            assert(job_views(claimed@) =~= Seq::<JobView>::empty());
        }
        while i < n
            invariant
                i <= n,
                n == self.jobs.len(),
                self@ == s1,
                s1.len() == n,
                job_views(claimed@) == spec_ready_list(s1.take(i as int)),
            decreases n - i,
        {
            assert(self@[i as int] == self.jobs@[i as int]@);
            let ghost prefix = s1.take(i as int);
            let running = match self.jobs[i].status {
                Status::Running => true,
                _ => false,
            };
            let ready = running && self.jobs[i].agents_running.len() == 0;
            assert(ready == spec_ready_to_dispatch(s1[i as int]));
            proof {
                broadcast use Seq::lemma_filter_push;

                assert(s1.take(i as int + 1) =~= prefix.push(s1[i as int]));
                assert(spec_ready_list(s1.take(i as int + 1)) == spec_ready_list(
                    prefix.push(s1[i as int]),
                ));
                if spec_ready_to_dispatch(s1[i as int]) {
                    assert(spec_ready_list(prefix.push(s1[i as int])) == spec_ready_list(
                        prefix,
                    ).push(s1[i as int]));
                } else {
                    assert(spec_ready_list(prefix.push(s1[i as int])) == spec_ready_list(prefix));
                }
            }
            if ready {
                let copy = self.jobs[i].duplicate();
                claimed.push(copy);
                assert(job_views(claimed@) =~= spec_ready_list(prefix).push(s1[i as int]));
            } else {
                assert(job_views(claimed@) =~= spec_ready_list(prefix));
            }
            i = i + 1;
        }
        assert(s1.take(n as int) =~= s1);
        assert(spec_ready_list(s1.take(n as int)) == spec_ready_list(s1));
        claimed
    }

    /// Records one acknowledged delivery: appends the agent to the job's
    /// `agents_running` unless it is already listed. A name with no job is
    /// an update that matched nothing.
    pub fn add_agent_to_running_job(&mut self, job_name: &String, agent: &String)
        requires
            old(self).wf(),
        ensures
            final(self).wf(),
            final(self)@.len() == old(self)@.len(),
            forall|k: int|
                0 <= k < old(self)@.len() && old(self)@[k].name != job_name@ ==> final(self)@[k]
                    == old(self)@[k],
            forall|k: int|
                0 <= k < old(self)@.len() && old(self)@[k].name == job_name@ ==> final(self)@[k]
                    == spec_mark_running(old(self)@[k], agent@),
    {
        let mut i: usize = 0;
        while i < self.jobs.len()
            invariant
                i <= self.jobs.len(),
                self@ == old(self)@,
                old(self).wf(),
                forall|k: int| 0 <= k < i ==> self@[k].name != job_name@,
            decreases self.jobs.len() - i,
        {
            assert(self@[i as int] == self.jobs@[i as int]@);
            if self.jobs[i].name.eq(job_name) {
                let ghost updated = spec_mark_running(old(self)@[i as int], agent@);
                let mut row = self.jobs.remove(i);
                if !contains_string(&row.agents_running, agent) {
                    row.agents_running.push(agent.clone());
                    assert(row@.agents_running =~= old(self)@[i as int].agents_running.push(
                        agent@,
                    ));
                }
                assert(row@ =~~= updated);
                self.jobs.insert(i, row);
                assert(self@ =~= old(self)@.update(i as int, updated));
                proof {
                    self.lemma_unique_name_at(old(self)@, i as int, job_name@);
                }
                return;
            }
            i = i + 1;
        }
    }

    /// Records one completion report: `$addToSet` of the agent on the
    /// job's `agents_complete`. A name with no job matches nothing.
    pub fn complete_agent_on_job(&mut self, job_name: &String, agent: &String)
        requires
            old(self).wf(),
        ensures
            final(self).wf(),
            final(self)@.len() == old(self)@.len(),
            forall|k: int|
                0 <= k < old(self)@.len() && old(self)@[k].name != job_name@ ==> final(self)@[k]
                    == old(self)@[k],
            forall|k: int|
                0 <= k < old(self)@.len() && old(self)@[k].name == job_name@ ==> final(self)@[k]
                    == spec_add_complete(old(self)@[k], agent@),
    {
        let mut i: usize = 0;
        while i < self.jobs.len()
            invariant
                i <= self.jobs.len(),
                self@ == old(self)@,
                old(self).wf(),
                forall|k: int| 0 <= k < i ==> self@[k].name != job_name@,
            decreases self.jobs.len() - i,
        {
            assert(self@[i as int] == self.jobs@[i as int]@);
            if self.jobs[i].name.eq(job_name) {
                let ghost updated = spec_add_complete(old(self)@[i as int], agent@);
                let mut row = self.jobs.remove(i);
                if !contains_string(&row.agents_complete, agent) {
                    row.agents_complete.push(agent.clone());
                    assert(row@.agents_complete =~= old(self)@[i as int].agents_complete.push(
                        agent@,
                    ));
                }
                assert(row@ =~~= updated);
                self.jobs.insert(i, row);
                assert(self@ =~= old(self)@.update(i as int, updated));
                proof {
                    self.lemma_unique_name_at(old(self)@, i as int, job_name@);
                }
                return;
            }
            i = i + 1;
        }
    }

    /// The completion check: re-reads the job and, when every required
    /// agent has reported (`|agents_required| == |agents_complete|`, both
    /// non-empty), resets it to the completed terminal state with both
    /// runtime lists cleared. Any other job is left untouched.
    pub fn check_job_completion(&mut self, job_name: &String)
        requires
            old(self).wf(),
        ensures
            final(self).wf(),
            final(self)@.len() == old(self)@.len(),
            forall|k: int|
                0 <= k < old(self)@.len() && old(self)@[k].name != job_name@ ==> final(self)@[k]
                    == old(self)@[k],
            forall|k: int|
                0 <= k < old(self)@.len() && old(self)@[k].name == job_name@ ==> final(self)@[k]
                    == spec_finish_job(old(self)@[k]),
    {
        let mut i: usize = 0;
        while i < self.jobs.len()
            invariant
                i <= self.jobs.len(),
                self@ == old(self)@,
                old(self).wf(),
                forall|k: int| 0 <= k < i ==> self@[k].name != job_name@,
            decreases self.jobs.len() - i,
        {
            assert(self@[i as int] == self.jobs@[i as int]@);
            if self.jobs[i].name.eq(job_name) {
                let ghost updated = spec_finish_job(old(self)@[i as int]);
                let mut row = self.jobs.remove(i);
                if row.agents_required.len() > 0 && row.agents_required.len()
                    == row.agents_complete.len() {
                    row.status = Status::Completed;
                    row.agents_running = Vec::new();
                    row.agents_complete = Vec::new();
                    assert(row@.agents_running =~= Seq::<Seq<char>>::empty());
                    assert(row@.agents_complete =~= Seq::<Seq<char>>::empty());
                }
                assert(row@ =~~= updated);
                self.jobs.insert(i, row);
                assert(self@ =~= old(self)@.update(i as int, updated));
                proof {
                    self.lemma_unique_name_at(old(self)@, i as int, job_name@);
                }
                return;
            }
            i = i + 1;
        }
    }

    /// With the unique index, the row found at `i` is the only row with
    /// its name, and an update there changes no other row.
    proof fn lemma_unique_name_at(self, s0: Seq<JobView>, i: int, name: Seq<char>)
        requires
            0 <= i < s0.len(),
            s0[i].name == name,
            forall|a: int, b: int| #![trigger s0[a], s0[b]]
                0 <= a < b < s0.len() ==> s0[a].name != s0[b].name,
            self@.len() == s0.len(),
            self@[i].name == name,
            forall|k: int| 0 <= k < s0.len() && k != i ==> self@[k] == s0[k],
        ensures
            forall|k: int| 0 <= k < s0.len() && k != i ==> s0[k].name != name,
            self.wf(),
    {
        assert forall|k: int| 0 <= k < s0.len() && k != i implies s0[k].name != name by {
            let lo = if k < i {
                k
            } else {
                i
            };
            let hi = if k < i {
                i
            } else {
                k
            };
            assert(s0[lo].name != s0[hi].name);
        }
        assert forall|a: int, b: int| #![trigger self@[a], self@[b]]
            0 <= a < b < self@.len() implies self@[a].name != self@[b].name by {
            assert(s0[a].name != s0[b].name);
            assert(self@[a].name == s0[a].name);
            assert(self@[b].name == s0[b].name);
        }
    }
}

} // verus!
