//! The `agents` collection: one document per registered agent, with unique
//! indexes on `name` and on `(hostname, port)`. The table here is the
//! verified model of that collection; registration and the status updates of
//! the registry's ping and discover sweeps are its only writers.

use vstd::prelude::*;

use crate::messages::{RegisterAgent, RegisterAgentView};

verus! {

/// Whether the coordinator currently holds a live connection to the agent.
#[derive(Debug, Clone, Copy, PartialEq, Eq, Structural)]
pub enum Status {
    Offline,
    Online,
}

impl Status {
    /// Store encoding of the status.
    pub open spec fn spec_code(self) -> i32 {
        match self {
            Status::Offline => 0,
            Status::Online => 1,
        }
    }

    /// Integer code of this status, as persisted.
    pub fn code(self) -> (c: i32)
        ensures
            c == self.spec_code(),
    {
        match self {
            Status::Offline => 0,
            Status::Online => 1,
        }
    }
}

impl From<Status> for i32 {
    fn from(status: Status) -> (c: i32) {
        status.code()
    }
}

impl vstd::std_specs::convert::FromSpecImpl<Status> for i32 {
    open spec fn obeys_from_spec() -> bool {
        true
    }

    open spec fn from_spec(status: Status) -> i32 {
        status.spec_code()
    }
}

impl From<i32> for Status {
    fn from(value: i32) -> (s: Status) {
        if value == 1 {
            Status::Online
        } else {
            Status::Offline
        }
    }
}

impl vstd::std_specs::convert::FromSpecImpl<i32> for Status {
    open spec fn obeys_from_spec() -> bool {
        true
    }

    open spec fn from_spec(value: i32) -> Status {
        if value == 1 {
            Status::Online
        } else {
            Status::Offline
        }
    }
}

/// One agent document. `last_ping` is milliseconds since the epoch.
#[derive(Debug, Clone)]
pub struct AgentV1 {
    pub name: String,
    pub hostname: String,
    pub last_ping: i64,
    pub status: Status,
    pub port: u16,
    pub version: u32,
}

/// Ghost mirror of [`AgentV1`].
#[verifier::ext_equal]
pub ghost struct AgentView {
    pub name: Seq<char>,
    pub hostname: Seq<char>,
    pub last_ping: i64,
    pub status: Status,
    pub port: u16,
    pub version: u32,
}

impl View for AgentV1 {
    type V = AgentView;

    open spec fn view(&self) -> AgentView {
        AgentView {
            name: self.name@,
            hostname: self.hostname@,
            last_ping: self.last_ping,
            status: self.status,
            port: self.port,
            version: self.version,
        }
    }
}

/// The blank document: what `agents` rows start from.
pub open spec fn spec_default_agent() -> AgentView {
    AgentView {
        name: Seq::empty(),
        hostname: Seq::empty(),
        last_ping: 0,
        status: Status::Offline,
        port: 0,
        version: 1,
    }
}

impl Default for AgentV1 {
    /// An empty agent record: offline, never pinged, schema version 1.
    fn default() -> (r: AgentV1)
        ensures
            r@ == spec_default_agent(),
    {
        let r = AgentV1 {
            name: String::new(),
            hostname: String::new(),
            last_ping: 0,
            status: Status::Offline,
            port: 0,
            version: 1,
        };
        assert(r@ =~= spec_default_agent());
        r
    }
}

/// The document a fresh registration creates: offline until the registry's
/// first successful ping, `last_ping` at the epoch.
pub open spec fn spec_agent_of_registration(r: RegisterAgentView) -> AgentView {
    AgentView {
        name: r.name,
        hostname: r.hostname,
        last_ping: 0,
        status: Status::Offline,
        port: r.port,
        version: 1,
    }
}

impl From<RegisterAgent> for AgentV1 {
    fn from(register_agent: RegisterAgent) -> (a: AgentV1) {
        let RegisterAgent { name, hostname, port } = register_agent;
        AgentV1 {
            name,
            hostname,
            last_ping: 0,
            status: Status::Offline,
            port,
            version: 1,
        }
    }
}

impl vstd::std_specs::convert::FromSpecImpl<RegisterAgent> for AgentV1 {
    open spec fn obeys_from_spec() -> bool {
        true
    }

    open spec fn from_spec(register_agent: RegisterAgent) -> AgentV1 {
        AgentV1 {
            name: register_agent.name,
            hostname: register_agent.hostname,
            last_ping: 0,
            status: Status::Offline,
            port: register_agent.port,
            version: 1,
        }
    }
}

/// Two agent rows collide on the `(hostname, port)` unique index.
pub open spec fn same_endpoint(a: AgentView, b: AgentView) -> bool {
    a.hostname == b.hostname && a.port == b.port
}

/// A row blocks a registration when it takes the name or the endpoint.
pub open spec fn collides_with(a: AgentView, r: RegisterAgentView) -> bool {
    a.name == r.name || same_endpoint(a, spec_agent_of_registration(r))
}

/// A registration collides with an existing row on either unique index.
pub open spec fn spec_register_collides(s: Seq<AgentView>, r: RegisterAgentView) -> bool {
    exists|j: int| 0 <= j < s.len() && collides_with(#[trigger] s[j], r)
}

/// The `agents` collection after one registration: appended when both
/// unique indexes admit it, untouched otherwise.
pub open spec fn spec_register(s: Seq<AgentView>, r: RegisterAgentView) -> Seq<AgentView> {
    if spec_register_collides(s, r) {
        s
    } else {
        s.push(spec_agent_of_registration(r))
    }
}

/// Unique-index idempotence: once a name is taken, registering it again,
/// with whatever endpoint, changes nothing; so re-registration of the same
/// agent is observably a no-op on the collection.
pub proof fn lemma_register_idempotent(s: Seq<AgentView>, r: RegisterAgentView)
    ensures
        spec_register(spec_register(s, r), r) == spec_register(s, r),
{
    let s1 = spec_register(s, r);
    if !spec_register_collides(s, r) {
        assert(s1[s.len() as int].name == r.name);
        assert(spec_register_collides(s1, r));
    }
}

/// The verified model of the `agents` collection.
pub struct AgentsTable {
    agents: Vec<AgentV1>,
}

impl View for AgentsTable {
    type V = Seq<AgentView>;

    closed spec fn view(&self) -> Seq<AgentView> {
        Seq::new(self.agents@.len(), |i: int| self.agents@[i]@)
    }
}

impl AgentsTable {
    /// Both unique indexes hold: no two rows share a name or an endpoint.
    pub open spec fn wf(self) -> bool {
        forall|i: int, j: int| #![trigger self@[i], self@[j]]
            0 <= i < j < self@.len() ==> self@[i].name != self@[j].name && !same_endpoint(
                self@[i],
                self@[j],
            )
    }

    /// The empty collection, as on first start.
    pub fn new() -> (r: AgentsTable)
        ensures
            r@ == Seq::<AgentView>::empty(),
            r.wf(),
    {
        let r = AgentsTable { agents: Vec::new() };
        assert(r@ =~= Seq::<AgentView>::empty());
        r
    }

    /// How many agents are registered.
    pub fn len(&self) -> (n: usize)
        ensures
            n == self@.len(),
    {
        self.agents.len()
    }

    /// The agent at `i`, in insertion order.
    pub fn agent_at(&self, i: usize) -> (a: &AgentV1)
        requires
            i < self@.len(),
        ensures
            a@ == self@[i as int],
    {
        &self.agents[i]
    }

    /// The position of the agent named `name`, if any.
    pub fn find_index(&self, name: &String) -> (r: Option<usize>)
        ensures
            match r {
                Option::Some(i) => i < self@.len() && self@[i as int].name == name@,
                Option::None => forall|k: int| 0 <= k < self@.len() ==> self@[k].name != name@,
            },
    {
        let mut i: usize = 0;
        while i < self.agents.len()
            invariant
                i <= self.agents.len(),
                forall|k: int| 0 <= k < i ==> self@[k].name != name@,
            decreases self.agents.len() - i,
        {
            if self.agents[i].name.eq(name) {
                assert(self@[i as int].name == name@);
                return Option::Some(i);
            }
            assert(self@[i as int].name != name@);
            i = i + 1;
        }
        Option::None
    }

    /// Ingests one `RegisterAgent` message: inserts the document unless one
    /// of the unique indexes rejects it; a duplicate is dropped silently, as
    /// during re-registration.
    pub fn register(&mut self, r: RegisterAgent) -> (inserted: bool)
        requires
            old(self).wf(),
        ensures
            final(self).wf(),
            final(self)@ == spec_register(old(self)@, r@),
            inserted <==> !spec_register_collides(old(self)@, r@),
    {
        let mut i: usize = 0;
        while i < self.agents.len()
            invariant
                i <= self.agents.len(),
                forall|k: int| 0 <= k < i ==> !collides_with(#[trigger] self@[k], r@),
                self@ == old(self)@,
                old(self).wf(),
            decreases self.agents.len() - i,
        {
            assert(self@[i as int] == self.agents@[i as int]@);
            let row = &self.agents[i];
            if row.name.eq(&r.name) || (row.hostname.eq(&r.hostname) && row.port == r.port) {
                assert(collides_with(self@[i as int], r@));
                assert(spec_register_collides(old(self)@, r@));
                return false;
            }
            assert(!collides_with(self@[i as int], r@));
            i = i + 1;
        }
        assert(!spec_register_collides(old(self)@, r@)) by {
            if spec_register_collides(old(self)@, r@) {
                let j = choose|j: int|
                    0 <= j < old(self)@.len() && collides_with(#[trigger] old(self)@[j], r@);
                assert(!collides_with(self@[j], r@));
            }
        }
        let ghost rv = r@;
        let agent: AgentV1 = AgentV1::from(r);
        assert(agent@ == spec_agent_of_registration(rv));
        self.agents.push(agent);
        assert(self@ =~= old(self)@.push(spec_agent_of_registration(rv)));
        assert forall|a: int, b: int| #![trigger self@[a], self@[b]]
            0 <= a < b < self@.len() implies self@[a].name != self@[b].name && !same_endpoint(
            self@[a],
            self@[b],
        ) by {
            if b == old(self)@.len() as int {
                assert(!collides_with(old(self)@[a], rv));
            } else {
                assert(old(self)@[a].name != old(self)@[b].name && !same_endpoint(
                    old(self)@[a],
                    old(self)@[b],
                ));
            }
        }
        true
    }

    /// Marks an agent online after a successful ping, stamping the ping
    /// time; a name with no row is left alone, as an update that matched
    /// nothing.
    pub fn mark_online(&mut self, name: &String, now: i64)
        requires
            old(self).wf(),
        ensures
            final(self).wf(),
            final(self)@.len() == old(self)@.len(),
            forall|k: int|
                0 <= k < old(self)@.len() && old(self)@[k].name != name@ ==> final(self)@[k]
                    == old(self)@[k],
            forall|k: int|
                0 <= k < old(self)@.len() && old(self)@[k].name == name@ ==> final(self)@[k]
                    == (AgentView { status: Status::Online, last_ping: now, ..old(self)@[k] }),
    {
        self.set_status(name, Status::Online, Option::Some(now));
    }

    /// Marks an agent offline after a failed dial or ping; the ping stamp is
    /// left as it was.
    pub fn mark_offline(&mut self, name: &String)
        requires
            old(self).wf(),
        ensures
            final(self).wf(),
            final(self)@.len() == old(self)@.len(),
            forall|k: int|
                0 <= k < old(self)@.len() && old(self)@[k].name != name@ ==> final(self)@[k]
                    == old(self)@[k],
            forall|k: int|
                0 <= k < old(self)@.len() && old(self)@[k].name == name@ ==> final(self)@[k]
                    == (AgentView { status: Status::Offline, ..old(self)@[k] }),
    {
        self.set_status(name, Status::Offline, Option::None);
    }

    fn set_status(&mut self, name: &String, status: Status, stamp: Option<i64>)
        requires
            old(self).wf(),
        ensures
            final(self).wf(),
            final(self)@.len() == old(self)@.len(),
            forall|k: int|
                0 <= k < old(self)@.len() && old(self)@[k].name != name@ ==> final(self)@[k]
                    == old(self)@[k],
            forall|k: int|
                0 <= k < old(self)@.len() && old(self)@[k].name == name@ ==> final(self)@[k]
                    == (AgentView {
                    status,
                    last_ping: match stamp {
                        Option::Some(t) => t,
                        Option::None => old(self)@[k].last_ping,
                    },
                    ..old(self)@[k]
                }),
    {
        let mut i: usize = 0;
        while i < self.agents.len()
            invariant
                i <= self.agents.len(),
                self@ == old(self)@,
                old(self).wf(),
                forall|k: int| 0 <= k < i ==> self@[k].name != name@,
            decreases self.agents.len() - i,
        {
            assert(self@[i as int] == self.agents@[i as int]@);
            if self.agents[i].name.eq(name) {
                let ghost updated = AgentView {
                    status,
                    last_ping: match stamp {
                        Option::Some(t) => t,
                        Option::None => old(self)@[i as int].last_ping,
                    },
                    ..old(self)@[i as int]
                };
                let mut row = self.agents.remove(i);
                row.status = status;
                match stamp {
                    Option::Some(t) => {
                        row.last_ping = t;
                    },
                    Option::None => {},
                }
                self.agents.insert(i, row);
                assert(self@ =~= old(self)@.update(i as int, updated));
                assert forall|k: int|
                    0 <= k < old(self)@.len() && old(self)@[k].name == name@ implies k
                    == i as int by {
                    if k != i as int {
                        let lo = if k < i as int {
                            k
                        } else {
                            i as int
                        };
                        let hi = if k < i as int {
                            i as int
                        } else {
                            k
                        };
                        assert(old(self)@[lo].name != old(self)@[hi].name);
                    }
                }
                assert forall|a: int, b: int| #![trigger self@[a], self@[b]]
                    0 <= a < b < self@.len() implies self@[a].name != self@[b].name
                    && !same_endpoint(self@[a], self@[b]) by {
                    assert(old(self)@[a].name != old(self)@[b].name && !same_endpoint(
                        old(self)@[a],
                        old(self)@[b],
                    ));
                    assert(self@[a].name == old(self)@[a].name && self@[a].hostname == old(
                        self,
                    )@[a].hostname && self@[a].port == old(self)@[a].port);
                    assert(self@[b].name == old(self)@[b].name && self@[b].hostname == old(
                        self,
                    )@[b].hostname && self@[b].port == old(self)@[b].port);
                }
                return;
            }
            assert(self@[i as int].name != name@);
            i = i + 1;
        }
    }
}

} // verus!
