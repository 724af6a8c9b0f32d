//! The registry and dispatcher decisions of the coordinator: which agents
//! are connected, which database agents still need a dial, which connected
//! agents a claimed job must be sent to, and what each of them is sent.
//! The sockets themselves live outside the library; every decision here is
//! a function of plain values.

use vstd::prelude::*;

use crate::agents::AgentV1;
use crate::jobs::{spec_claim_job, spec_claimable, spec_mark_running, JobV1, JobView, Status};
use crate::messages::{DispatchJob, DispatchJobView};
use crate::util::{clone_i32_vec, contains_string, spec_join_spaced, join_spaced};

verus! {

/// One live coordinator-to-agent control connection, keyed by the agent's
/// name and the endpoint that was dialled. The stream itself is owned by
/// the caller.
#[derive(Debug, Clone)]
pub struct ConnectedAgent {
    pub name: String,
    pub hostname: String,
    pub port: u16,
}

/// Ghost mirror of [`ConnectedAgent`].
#[verifier::ext_equal]
pub ghost struct ConnectedAgentView {
    pub name: Seq<char>,
    pub hostname: Seq<char>,
    pub port: u16,
}

impl View for ConnectedAgent {
    type V = ConnectedAgentView;

    open spec fn view(&self) -> ConnectedAgentView {
        ConnectedAgentView { name: self.name@, hostname: self.hostname@, port: self.port }
    }
}

impl ConnectedAgent {
    /// The connection key for a stored agent record; resolving the
    /// hostname and dialling it stay with the caller.
    pub fn of_record(a: &AgentV1) -> (r: ConnectedAgent)
        ensures
            r@.name == a@.name,
            r@.hostname == a@.hostname,
            r@.port == a@.port,
    {
        ConnectedAgent { name: a.name.clone(), hostname: a.hostname.clone(), port: a.port }
    }
}

/// The names of the connected agents, in map order: the online set that
/// the claim filter and the dispatch fan-out see.
pub open spec fn spec_names(s: Seq<ConnectedAgentView>) -> Seq<Seq<char>> {
    Seq::new(s.len(), |i: int| s[i].name)
}

/// Two connections would share a TCP endpoint.
pub open spec fn same_connection_endpoint(a: ConnectedAgentView, b: ConnectedAgentView) -> bool {
    a.hostname == b.hostname && a.port == b.port
}

/// The coordinator's map of live control connections. At most one
/// connection per endpoint: when two differently named records share an
/// endpoint, the first successful dial wins.
pub struct ConnectionMap {
    entries: Vec<ConnectedAgent>,
}

impl View for ConnectionMap {
    type V = Seq<ConnectedAgentView>;

    closed spec fn view(&self) -> Seq<ConnectedAgentView> {
        Seq::new(self.entries@.len(), |i: int| self.entries@[i]@)
    }
}

impl ConnectionMap {
    /// No two live connections share an endpoint.
    pub open spec fn wf(self) -> bool {
        forall|i: int, j: int| #![trigger self@[i], self@[j]]
            0 <= i < j < self@.len() ==> !same_connection_endpoint(self@[i], self@[j])
    }

    /// The empty map, as on coordinator start.
    pub fn new() -> (r: ConnectionMap)
        ensures
            r@ == Seq::<ConnectedAgentView>::empty(),
            r.wf(),
    {
        let r = ConnectionMap { entries: Vec::new() };
        assert(r@ =~= Seq::<ConnectedAgentView>::empty());
        r
    }

    /// How many agents are connected.
    pub fn len(&self) -> (n: usize)
        ensures
            n == self@.len(),
    {
        self.entries.len()
    }

    /// The connection at `i`, in insertion order.
    pub fn agent_at(&self, i: usize) -> (a: &ConnectedAgent)
        requires
            i < self@.len(),
        ensures
            a@ == self@[i as int],
    {
        &self.entries[i]
    }

    /// Whether some live connection already uses this endpoint.
    pub fn contains_endpoint(&self, hostname: &String, port: u16) -> (r: bool)
        ensures
            r <==> exists|k: int|
                0 <= k < self@.len() && (#[trigger] self@[k]).hostname == hostname@ && self@[k].port
                    == port,
    {
        let mut i: usize = 0;
        while i < self.entries.len()
            invariant
                i <= self.entries.len(),
                forall|k: int|
                    0 <= k < i ==> !((#[trigger] self@[k]).hostname == hostname@ && self@[k].port
                        == port),
            decreases self.entries.len() - i,
        {
            assert(self@[i as int] == self.entries@[i as int]@);
            if self.entries[i].hostname.eq(hostname) && self.entries[i].port == port {
                assert(self@[i as int].hostname == hostname@ && self@[i as int].port == port);
                return true;
            }
            i = i + 1;
        }
        false
    }

    /// Records a successful dial. A second connection to an endpoint that
    /// is already live is refused: the first dial won.
    pub fn insert(&mut self, agent: ConnectedAgent) -> (inserted: bool)
        requires
            old(self).wf(),
        ensures
            final(self).wf(),
            inserted ==> final(self)@ == old(self)@.push(agent@),
            !inserted ==> final(self)@ == old(self)@ && exists|k: int|
                0 <= k < old(self)@.len() && same_connection_endpoint(
                    #[trigger] old(self)@[k],
                    agent@,
                ),
    {
        let mut i: usize = 0;
        while i < self.entries.len()
            invariant
                i <= self.entries.len(),
                self@ == old(self)@,
                old(self).wf(),
                forall|k: int|
                    0 <= k < i ==> !same_connection_endpoint(#[trigger] self@[k], agent@),
            decreases self.entries.len() - i,
        {
            assert(self@[i as int] == self.entries@[i as int]@);
            if self.entries[i].hostname.eq(&agent.hostname) && self.entries[i].port == agent.port {
                assert(same_connection_endpoint(self@[i as int], agent@));
                return false;
            }
            i = i + 1;
        }
        let ghost av = agent@;
        self.entries.push(agent);
        assert(self@ =~= old(self)@.push(av));
        assert forall|a: int, b: int| #![trigger self@[a], self@[b]]
            0 <= a < b < self@.len() implies !same_connection_endpoint(self@[a], self@[b]) by {
            if b == old(self)@.len() as int {
                assert(!same_connection_endpoint(old(self)@[a], av));
            } else {
                assert(!same_connection_endpoint(old(self)@[a], old(self)@[b]));
            }
        }
        true
    }

    /// The position of the connection with this endpoint, if one is live.
    pub fn index_of_endpoint(&self, hostname: &String, port: u16) -> (r: Option<usize>)
        ensures
            match r {
                Option::Some(i) => i < self@.len() && self@[i as int].hostname == hostname@
                    && self@[i as int].port == port,
                Option::None => forall|k: int|
                    0 <= k < self@.len() ==> !((#[trigger] self@[k]).hostname == hostname@
                        && self@[k].port == port),
            },
    {
        let mut i: usize = 0;
        while i < self.entries.len()
            invariant
                i <= self.entries.len(),
                forall|k: int|
                    0 <= k < i ==> !((#[trigger] self@[k]).hostname == hostname@ && self@[k].port
                        == port),
            decreases self.entries.len() - i,
        {
            assert(self@[i as int] == self.entries@[i as int]@);
            if self.entries[i].hostname.eq(hostname) && self.entries[i].port == port {
                return Option::Some(i);
            }
            i = i + 1;
        }
        Option::None
    }

    /// Drops the connection at `i`: how a failed ping or send removes an
    /// agent from the map.
    pub fn remove_at(&mut self, i: usize) -> (removed: ConnectedAgent)
        requires
            old(self).wf(),
            i < old(self)@.len(),
        ensures
            final(self).wf(),
            removed@ == old(self)@[i as int],
            final(self)@ == old(self)@.remove(i as int),
    {
        let removed = self.entries.remove(i);
        assert(self@ =~= old(self)@.remove(i as int));
        assert forall|a: int, b: int| #![trigger self@[a], self@[b]]
            0 <= a < b < self@.len() implies !same_connection_endpoint(self@[a], self@[b]) by {
            let a0 = if a < i as int {
                a
            } else {
                a + 1
            };
            let b0 = if b < i as int {
                b
            } else {
                b + 1
            };
            assert(!same_connection_endpoint(old(self)@[a0], old(self)@[b0]));
        }
        removed
    }

    /// The connected agent names, in map order: what the scheduler hands
    /// to the claim filter as the online set.
    pub fn connected_names(&self) -> (names: Vec<String>)
        ensures
            names.deep_view() == spec_names(self@),
    {
        let mut names: Vec<String> = Vec::new();
        let mut i: usize = 0;
        while i < self.entries.len()
            invariant
                i <= self.entries.len(),
                names@.len() == i,
                forall|k: int| 0 <= k < i ==> names.deep_view()[k] == self@[k].name,
            decreases self.entries.len() - i,
        {
            assert(self@[i as int] == self.entries@[i as int]@);
            let ghost before = names.deep_view();
            names.push(self.entries[i].name.clone());
            assert(names.deep_view() =~= before.push(self@[i as int].name));
            i = i + 1;
        }
        assert(names.deep_view() =~= spec_names(self@));
        names
    }
}

/// Some live connection already uses the endpoint `(hostname, port)`.
pub open spec fn spec_endpoint_taken(
    conns: Seq<ConnectedAgentView>,
    hostname: Seq<char>,
    port: u16,
) -> bool {
    exists|k: int|
        0 <= k < conns.len() && (#[trigger] conns[k]).hostname == hostname && conns[k].port == port
}

/// The views of a vector of agent records, in order.
pub open spec fn agent_record_views(v: Seq<AgentV1>) -> Seq<crate::agents::AgentView> {
    Seq::new(v.len(), |i: int| v[i]@)
}

/// The views of a vector of connection keys, in order.
pub open spec fn connection_views(v: Seq<ConnectedAgent>) -> Seq<ConnectedAgentView> {
    Seq::new(v.len(), |i: int| v[i]@)
}

/// The connection key of a stored agent record.
pub open spec fn spec_connection_key(a: crate::agents::AgentView) -> ConnectedAgentView {
    ConnectedAgentView { name: a.name, hostname: a.hostname, port: a.port }
}

/// The connection keys of the records, in order.
pub open spec fn spec_record_keys(records: Seq<crate::agents::AgentView>) -> Seq<
    ConnectedAgentView,
> {
    Seq::new(records.len(), |i: int| spec_connection_key(records[i]))
}

/// The records the discover sweep should dial: those whose endpoint has no
/// live connection yet, in record order.
pub open spec fn spec_unconnected(
    records: Seq<crate::agents::AgentView>,
    conns: Seq<ConnectedAgentView>,
) -> Seq<ConnectedAgentView> {
    spec_record_keys(records).filter(
        |c: ConnectedAgentView| !spec_endpoint_taken(conns, c.hostname, c.port),
    )
}

/// The database agents not connected yet, by endpoint: the records the
/// discover sweep should dial, in record order.
pub fn unconnected_agents(records: &Vec<AgentV1>, map: &ConnectionMap) -> (out: Vec<
    ConnectedAgent,
>)
    ensures
        connection_views(out@) == spec_unconnected(agent_record_views(records@), map@),
{
    let ghost keys = spec_record_keys(agent_record_views(records@));
    let mut out: Vec<ConnectedAgent> = Vec::new();
    let mut i: usize = 0;
    proof {
        reveal(Seq::filter);
        assert(keys.take(0) =~= Seq::<ConnectedAgentView>::empty());
        assert(connection_views(out@) =~= Seq::<ConnectedAgentView>::empty());
    }
    while i < records.len()
        invariant
            i <= records.len(),
            keys == spec_record_keys(agent_record_views(records@)),
            keys.len() == records@.len(),
            connection_views(out@) == keys.take(i as int).filter(
                |c: ConnectedAgentView| !spec_endpoint_taken(map@, c.hostname, c.port),
            ),
        decreases records.len() - i,
    {
        let ghost prefix = keys.take(i as int);
        let ghost pred = |c: ConnectedAgentView| !spec_endpoint_taken(map@, c.hostname, c.port);
        let rec = &records[i];
        let taken = map.contains_endpoint(&rec.hostname, rec.port);
        assert(keys[i as int] == spec_connection_key(records@[i as int]@));
        assert(taken == spec_endpoint_taken(map@, keys[i as int].hostname, keys[i as int].port));
        proof {
            broadcast use Seq::lemma_filter_push;

            assert(keys.take(i as int + 1) =~= prefix.push(keys[i as int]));
            if pred(keys[i as int]) {
                assert(prefix.push(keys[i as int]).filter(pred) == prefix.filter(pred).push(
                    keys[i as int],
                ));
            } else {
                assert(prefix.push(keys[i as int]).filter(pred) == prefix.filter(pred));
            }
        }
        if !taken {
            let ghost before = connection_views(out@);
            let entry = ConnectedAgent::of_record(rec);
            out.push(entry);
            assert(connection_views(out@) =~= before.push(keys[i as int]));
        }
        i = i + 1;
    }
    assert(keys.take(records@.len() as int) =~= keys);
    out
}

/// The command message one required agent receives for a claimed job: the
/// job's command, its arguments joined into one space-separated string,
/// the full valid-return-code list, and the agent's own name.
pub open spec fn spec_dispatch_message(j: JobView, agent: Seq<char>) -> DispatchJobView {
    DispatchJobView {
        job_name: j.name,
        command: j.command,
        args: spec_join_spaced(j.args),
        agent_name: Option::Some(agent),
        valid_return_codes: Option::Some(j.valid_return_codes),
    }
}

/// Builds the `DispatchJob` for one agent of a claimed job.
pub fn dispatch_message_for(job: &JobV1, agent_name: &String) -> (d: DispatchJob)
    ensures
        d@ == spec_dispatch_message(job@, agent_name@),
{
    let d = DispatchJob {
        job_name: job.name.clone(),
        command: job.command.clone(),
        args: join_spaced(&job.args),
        agent_name: Option::Some(agent_name.clone()),
        valid_return_codes: Option::Some(clone_i32_vec(&job.valid_return_codes)),
    };
    assert(d@ =~~= spec_dispatch_message(job@, agent_name@));
    d
}

/// The dispatch fan-out of one job: the connected agents whose names the
/// job requires, in map order. Unreachable required agents are simply not
/// in the plan; they contribute no side effects.
pub fn plan_dispatch(job: &JobV1, map: &ConnectionMap) -> (targets: Vec<String>)
    ensures
        forall|k: int|
            0 <= k < targets.deep_view().len() ==> job@.agents_required.contains(
                #[trigger] targets.deep_view()[k],
            ) && spec_names(map@).contains(targets.deep_view()[k]),
        forall|j: int|
            0 <= j < map@.len() && job@.agents_required.contains((#[trigger] map@[j]).name)
                ==> targets.deep_view().contains(map@[j].name),
{
    let mut targets: Vec<String> = Vec::new();
    let mut i: usize = 0;
    while i < map.len()
        invariant
            i <= map@.len(),
            forall|k: int|
                0 <= k < targets.deep_view().len() ==> job@.agents_required.contains(
                    #[trigger] targets.deep_view()[k],
                ) && spec_names(map@).contains(targets.deep_view()[k]),
            forall|j: int|
                0 <= j < i && job@.agents_required.contains((#[trigger] map@[j]).name)
                    ==> targets.deep_view().contains(map@[j].name),
        decreases map@.len() - i,
    {
        let entry = map.agent_at(i);
        if contains_string(&job.agents_required, &entry.name) {
            let ghost before = targets.deep_view();
            targets.push(entry.name.clone());
            assert(targets.deep_view() =~= before.push(map@[i as int].name));
            assert(spec_names(map@)[i as int] == map@[i as int].name);
            assert(spec_names(map@).contains(map@[i as int].name));
            assert forall|j: int|
                0 <= j < i + 1 && job@.agents_required.contains(
                    (#[trigger] map@[j]).name,
                ) implies targets.deep_view().contains(map@[j].name) by {
                if j == i as int {
                    assert(targets.deep_view()[before.len() as int] == map@[i as int].name);
                } else {
                    assert(before.contains(map@[j].name));
                    let idx = choose|idx: int|
                        0 <= idx < before.len() && before[idx] == map@[j].name;
                    assert(targets.deep_view()[idx] == map@[j].name);
                }
            }
        } else {
            assert(!job@.agents_required.contains(map@[i as int].name));
        }
        i = i + 1;
    }
    targets
}

/// `agents_running` after the tick recorded each acknowledged delivery in
/// turn.
pub open spec fn spec_mark_running_all(j: JobView, agents: Seq<Seq<char>>) -> JobView
    decreases agents.len(),
{
    if agents.len() == 0 {
        j
    } else {
        spec_mark_running_all(spec_mark_running(j, agents[0]), agents.drop_first())
    }
}

/// Recording deliveries touches only `agents_running`, and only adds the
/// delivered names.
pub proof fn lemma_mark_running_all_bounds(
    j: JobView,
    agents: Seq<Seq<char>>,
    allowed: Seq<Seq<char>>,
)
    requires
        forall|i: int| 0 <= i < agents.len() ==> allowed.contains(#[trigger] agents[i]),
        forall|x: Seq<char>| j.agents_running.contains(x) ==> allowed.contains(x),
    ensures
        ({
            let r = spec_mark_running_all(j, agents);
            &&& r.status == j.status
            &&& r.name == j.name
            &&& r.agents_required == j.agents_required
            &&& r.agents_complete == j.agents_complete
            &&& forall|x: Seq<char>| r.agents_running.contains(x) ==> allowed.contains(x)
        }),
    decreases agents.len(),
{
    if agents.len() > 0 {
        let j1 = spec_mark_running(j, agents[0]);
        assert forall|x: Seq<char>| j1.agents_running.contains(x) implies allowed.contains(x) by {
            if !j.agents_running.contains(agents[0]) {
                let k = choose|k: int|
                    0 <= k < j1.agents_running.len() && j1.agents_running[k] == x;
                if k < j.agents_running.len() {
                    assert(j.agents_running.contains(x));
                } else {
                    assert(x == agents[0]);
                }
            }
        }
        assert(forall|i: int|
            0 <= i < agents.drop_first().len() ==> allowed.contains(
                #[trigger] agents.drop_first()[i],
            ));
        lemma_mark_running_all_bounds(j1, agents.drop_first(), allowed);
    }
}

/// The dispatch-tick invariant: take a job that a tick claims with
/// required set `R` and online set `O`, and any list of acknowledged
/// deliveries drawn from `O` intersected with `R` (the fan-out never
/// dispatches outside it). After the claim and those recordings the job is
/// running, and every name in `agents_running` is an online required
/// agent: the unreachable part of `R` has contributed no side effects.
pub proof fn lemma_dispatch_tick(
    j: JobView,
    now: i64,
    online: Seq<Seq<char>>,
    delivered: Seq<Seq<char>>,
)
    requires
        spec_claimable(j, now, online),
        forall|i: int|
            0 <= i < delivered.len() ==> online.contains(#[trigger] delivered[i])
                && j.agents_required.contains(delivered[i]),
    ensures
        ({
            let r = spec_mark_running_all(spec_claim_job(j, now, online), delivered);
            &&& r.status is Running
            &&& r.agents_required == j.agents_required
            &&& forall|x: Seq<char>|
                r.agents_running.contains(x) ==> online.contains(x) && j.agents_required.contains(
                    x,
                )
        }),
{
    let claimed = spec_claim_job(j, now, online);
    let allowed = delivered;
    assert(claimed.agents_running.len() == 0);
    lemma_mark_running_all_bounds(claimed, delivered, delivered);
    let r = spec_mark_running_all(claimed, delivered);
    assert forall|x: Seq<char>| r.agents_running.contains(x) implies online.contains(x)
        && j.agents_required.contains(x) by {
        assert(delivered.contains(x));
        let i = choose|i: int| 0 <= i < delivered.len() && delivered[i] == x;
        assert(online.contains(delivered[i]));
    }
}

} // verus!
