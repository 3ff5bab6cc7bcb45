//! The agent registry: owner-scoped CRUD over named records with an
//! activate/deactivate lifecycle, a monotonic identifier counter, a
//! per-owner secondary index, and cursor-based pagination.
//!
//! The store is an explicit value passed into every operation; the host
//! keeps it persistent and serializes all mutating requests.

use vstd::prelude::*;
use vstd::string::StringExecFns;
use crate::decimal::dec_of;
use crate::decimal::u64_to_string;
use crate::pagination::{effective_limit, start_index, window};
use crate::response::{AttributeView, BankTransferView, Response, ResponseView};

verus! {

/// A single registered agent record.
#[derive(Debug)]
pub struct AgentInfo {
    pub id: u64,
    pub owner: String,
    pub name: String,
    pub description: String,
    pub configuration: String,
    pub is_active: bool,
    pub created_at: u64,
    pub updated_at: u64,
}

pub ghost struct AgentInfoView {
    pub id: u64,
    pub owner: Seq<char>,
    pub name: Seq<char>,
    pub description: Seq<char>,
    pub configuration: Seq<char>,
    pub is_active: bool,
    pub created_at: u64,
    pub updated_at: u64,
}

impl View for AgentInfo {
    type V = AgentInfoView;

    open spec fn view(&self) -> AgentInfoView {
        AgentInfoView {
            id: self.id,
            owner: self.owner@,
            name: self.name@,
            description: self.description@,
            configuration: self.configuration@,
            is_active: self.is_active,
            created_at: self.created_at,
            updated_at: self.updated_at,
        }
    }
}

impl Clone for AgentInfo {
    fn clone(&self) -> (r: Self)
        ensures
            r == *self,
    {
        AgentInfo {
            id: self.id,
            owner: self.owner.clone(),
            name: self.name.clone(),
            description: self.description.clone(),
            configuration: self.configuration.clone(),
            is_active: self.is_active,
            created_at: self.created_at,
            updated_at: self.updated_at,
        }
    }
}

/// The registry operator's configuration.
pub struct Config {
    pub owner: String,
}

pub ghost struct ConfigView {
    pub owner: Seq<char>,
}

impl View for Config {
    type V = ConfigView;

    open spec fn view(&self) -> ConfigView {
        ConfigView { owner: self.owner@ }
    }
}

/// One owner's entry in the secondary index: the identifiers of the records
/// this owner created, in creation order.
pub struct OwnerEntry {
    pub owner: String,
    pub agent_ids: Vec<u64>,
}

pub ghost struct OwnerEntryView {
    pub owner: Seq<char>,
    pub agent_ids: Seq<u64>,
}

impl View for OwnerEntry {
    type V = OwnerEntryView;

    open spec fn view(&self) -> OwnerEntryView {
        OwnerEntryView { owner: self.owner@, agent_ids: self.agent_ids@ }
    }
}

/// The whole registry state: configuration, identifier counter, the keyed
/// record store (record `id` lives at position `id - 1`), and the per-owner
/// index.
pub struct Registry {
    pub config: Config,
    pub agent_count: u64,
    pub agents: Vec<AgentInfo>,
    pub owner_agents: Vec<OwnerEntry>,
}

pub ghost struct RegistryView {
    pub config: ConfigView,
    pub agent_count: u64,
    pub agents: Seq<AgentInfoView>,
    pub owner_agents: Seq<OwnerEntryView>,
}

impl View for Registry {
    type V = RegistryView;

    open spec fn view(&self) -> RegistryView {
        RegistryView {
            config: self.config@,
            agent_count: self.agent_count,
            agents: self.agents@.map_values(|a: AgentInfo| a@),
            owner_agents: self.owner_agents@.map_values(|e: OwnerEntry| e@),
        }
    }
}

/// The errors a registry request can report.
#[derive(Clone, Copy, Debug, PartialEq, Eq, Structural)]
pub enum ContractError {
    /// No record exists at the given identifier.
    NotFound,
    /// The caller is not the record's owner.
    Unauthorized,
}

impl ContractError {
    /// A human-readable description of the error.
    pub fn message(&self) -> (r: &'static str)
        ensures
            *self is NotFound ==> r@ == "agent not found"@,
            *self is Unauthorized ==> r@ == "Unauthorized"@,
    {
        match self {
            ContractError::NotFound => "agent not found",
            ContractError::Unauthorized => "Unauthorized",
        }
    }
}

/// What `index_of_owner` scans for: the identifier list of the first index
/// entry for `owner` at or after position `i` (empty if there is none).
pub open spec fn owner_ids_from(entries: Seq<OwnerEntryView>, owner: Seq<char>, i: int) -> Seq<
    u64,
>
    decreases entries.len() - i,
{
    if i < 0 || i >= entries.len() {
        Seq::empty()
    } else if entries[i].owner == owner {
        entries[i].agent_ids
    } else {
        owner_ids_from(entries, owner, i + 1)
    }
}

impl RegistryView {
    /// The identifiers owned by `owner`, in creation order (empty if the
    /// owner never created a record).
    pub open spec fn owner_ids(self, owner: Seq<char>) -> Seq<u64> {
        owner_ids_from(self.owner_agents, owner, 0)
    }

    /// Whether a record exists at `agent_id`.
    pub open spec fn has_agent(self, agent_id: u64) -> bool {
        1 <= agent_id <= self.agents.len()
    }

    /// The record stored at `agent_id`.
    pub open spec fn agent(self, agent_id: u64) -> AgentInfoView {
        self.agents[agent_id - 1]
    }

    /// One owner-index entry is consistent with the record store: every
    /// identifier it holds resolves to a record of that owner, and the
    /// identifiers are strictly increasing.
    pub open spec fn entry_wf(self, e: OwnerEntryView) -> bool {
        &&& forall|k: int|
            0 <= k < e.agent_ids.len() ==> 1 <= #[trigger] e.agent_ids[k] <= self.agents.len()
        &&& forall|k: int|
            0 <= k < e.agent_ids.len() ==> self.agents[#[trigger] e.agent_ids[k] - 1].owner
                == e.owner
        &&& forall|k1: int, k2: int|
            0 <= k1 < k2 < e.agent_ids.len() ==> #[trigger] e.agent_ids[k1]
                < #[trigger] e.agent_ids[k2]
    }

    /// Well-formedness of the whole registry: the counter equals the number
    /// of records, the record at position `i` carries identifier `i + 1`
    /// (identifiers are unique, gap-free, and never reused), every record's
    /// lifetime stamps are ordered, and the owner index is consistent with
    /// the store.
    pub open spec fn wf(self) -> bool {
        &&& self.agents.len() == self.agent_count as int
        &&& forall|i: int|
            0 <= i < self.agents.len() ==> (#[trigger] self.agents[i]).id == i + 1
        &&& forall|i: int|
            0 <= i < self.agents.len() ==> (#[trigger] self.agents[i]).created_at
                <= self.agents[i].updated_at
        &&& forall|i: int, j: int|
            0 <= i < j < self.owner_agents.len() ==> (#[trigger] self.owner_agents[i]).owner != (
            #[trigger] self.owner_agents[j]).owner
        &&& forall|i: int|
            0 <= i < self.owner_agents.len() ==> self.entry_wf(#[trigger] self.owner_agents[i])
    }
}

/// The scan returns the first matching entry's identifiers.
proof fn lemma_owner_ids_found(entries: Seq<OwnerEntryView>, owner: Seq<char>, i: int, j: int)
    requires
        0 <= i <= j < entries.len(),
        entries[j].owner == owner,
        forall|k: int| i <= k < j ==> (#[trigger] entries[k]).owner != owner,
    ensures
        owner_ids_from(entries, owner, i) == entries[j].agent_ids,
    decreases j - i,
{
    if i < j {
        lemma_owner_ids_found(entries, owner, i + 1, j);
    }
}

/// Without a matching entry the scan returns the empty sequence.
proof fn lemma_owner_ids_absent(entries: Seq<OwnerEntryView>, owner: Seq<char>, i: int)
    requires
        forall|k: int| 0 <= k < entries.len() ==> (#[trigger] entries[k]).owner != owner,
    ensures
        owner_ids_from(entries, owner, i) == Seq::<u64>::empty(),
    decreases entries.len() - i,
{
    if 0 <= i && i < entries.len() {
        lemma_owner_ids_absent(entries, owner, i + 1);
    }
}

/// Replacing an entry without changing its owner leaves every other owner's
/// scan result unchanged.
proof fn lemma_owner_ids_update_other(
    entries: Seq<OwnerEntryView>,
    j: int,
    e2: OwnerEntryView,
    owner: Seq<char>,
    i: int,
)
    requires
        0 <= j < entries.len(),
        e2.owner == entries[j].owner,
        owner != e2.owner,
    ensures
        owner_ids_from(entries.update(j, e2), owner, i) == owner_ids_from(entries, owner, i),
    decreases entries.len() - i,
{
    if 0 <= i && i < entries.len() {
        lemma_owner_ids_update_other(entries, j, e2, owner, i + 1);
    }
}

/// Appending a new entry leaves every other owner's scan result unchanged.
proof fn lemma_owner_ids_push_other(
    entries: Seq<OwnerEntryView>,
    e: OwnerEntryView,
    owner: Seq<char>,
    i: int,
)
    requires
        owner != e.owner,
        0 <= i,
    ensures
        owner_ids_from(entries.push(e), owner, i) == owner_ids_from(entries, owner, i),
    decreases entries.len() + 1 - i,
{
    if i < entries.len() + 1 {
        lemma_owner_ids_push_other(entries, e, owner, i + 1);
    }
}

/// The attributes reported for a successful instantiation.
pub open spec fn instantiate_response(owner: Seq<char>) -> ResponseView {
    ResponseView {
        messages: Seq::empty(),
        attributes: seq![
            (AttributeView { key: "method"@, value: "instantiate"@ }),
            (AttributeView { key: "owner"@, value: owner }),
        ],
    }
}

/// The attributes reported for a successful registration.
pub open spec fn register_response(agent_id: u64, owner: Seq<char>) -> ResponseView {
    ResponseView {
        messages: Seq::empty(),
        attributes: seq![
            (AttributeView { key: "method"@, value: "register_agent"@ }),
            (AttributeView { key: "agent_id"@, value: dec_of(agent_id as int) }),
            (AttributeView { key: "owner"@, value: owner }),
        ],
    }
}

/// The request that creates a registry.
pub struct InstantiateMsg {}

/// Creates an empty registry owned by `sender`, with the identifier counter
/// at zero.
pub fn instantiate(sender: String, _msg: InstantiateMsg) -> (r: (Registry, Response))
    ensures
        r.0@.wf(),
        r.0@.config == (ConfigView { owner: sender@ }),
        r.0@.agent_count == 0,
        r.0@.agents == Seq::<AgentInfoView>::empty(),
        r.0@.owner_agents == Seq::<OwnerEntryView>::empty(),
        r.1@ == instantiate_response(sender@),
{
    let mut resp = Response::new();
    resp.add_attribute("method", String::from_str("instantiate"));
    let ghost owner_view = sender@;
    let reg = Registry {
        config: Config { owner: sender.clone() },
        agent_count: 0,
        agents: Vec::new(),
        owner_agents: Vec::new(),
    };
    resp.add_attribute("owner", sender);
    proof {
        assert(reg@.agents =~= Seq::<AgentInfoView>::empty());
        assert(reg@.owner_agents =~= Seq::<OwnerEntryView>::empty());
        assert(resp@.attributes =~= instantiate_response(owner_view).attributes);
        assert(resp@.messages =~= Seq::<BankTransferView>::empty());
    }
    (reg, resp)
}

/// The complete effect of a successful registration: the record appended
/// with the next identifier, the counter advanced, the creator's index
/// entry extended by exactly that identifier, and every other owner's
/// entry untouched.
pub open spec fn execute_register_agent_post(
    pre: RegistryView,
    post: RegistryView,
    r: Result<Response, ContractError>,
    sender: Seq<char>,
    now: u64,
    name: Seq<char>,
    description: Seq<char>,
    configuration: Seq<char>,
) -> bool {
    let id = (pre.agent_count + 1) as u64;
    let agent = AgentInfoView {
        id,
        owner: sender,
        name,
        description,
        configuration,
        is_active: true,
        created_at: now,
        updated_at: now,
    };
    &&& post.config == pre.config
    &&& post.agent_count == pre.agent_count + 1
    &&& post.agents == pre.agents.push(agent)
    &&& post.owner_ids(sender) == pre.owner_ids(sender).push(id)
    &&& forall|o: Seq<char>| o != sender ==> #[trigger] post.owner_ids(o) == pre.owner_ids(o)
    &&& r matches Ok(resp) && resp@ == register_response(id, sender)
}

impl Registry {
    /// Position of the first owner-index entry for `owner`, if any.
    fn index_of_owner(&self, owner: &String) -> (r: Option<usize>)
        ensures
            match r {
                Some(j) => {
                    &&& j < self@.owner_agents.len()
                    &&& self@.owner_agents[j as int].owner == owner@
                    &&& forall|k: int|
                        0 <= k < j ==> (#[trigger] self@.owner_agents[k]).owner != owner@
                },
                None => forall|k: int|
                    0 <= k < self@.owner_agents.len() ==> (
                    #[trigger] self@.owner_agents[k]).owner != owner@,
            },
    {
        let n = self.owner_agents.len();
        let mut j: usize = 0;
        while j < n
            invariant
                j <= n,
                n == self@.owner_agents.len(),
                forall|k: int| 0 <= k < j ==> (#[trigger] self@.owner_agents[k]).owner != owner@,
            decreases n - j,
        {
            if self.owner_agents[j].owner == *owner {
                return Some(j);
            }
            j = j + 1;
        }
        None
    }

    /// Registers a new agent for `sender`: assigns the next identifier,
    /// stores the record as active with both timestamps at `now`, and
    /// appends the identifier to the creator's index entry.
    pub fn execute_register_agent(
        &mut self,
        sender: String,
        now: u64,
        name: String,
        description: String,
        configuration: String,
    ) -> (r: Result<Response, ContractError>)
        requires
            old(self)@.wf(),
            old(self).agent_count < u64::MAX,
        ensures
            final(self)@.wf(),
            execute_register_agent_post(
                old(self)@,
                final(self)@,
                r,
                sender@,
                now,
                name@,
                description@,
                configuration@,
            ),
    {
        let ghost pre = self@;
        let agent_id = self.agent_count + 1;
        self.agent_count = agent_id;
        let agent = AgentInfo {
            id: agent_id,
            owner: sender.clone(),
            name,
            description,
            configuration,
            is_active: true,
            created_at: now,
            updated_at: now,
        };
        let ghost agent_view = agent@;
        self.agents.push(agent);
        proof {
            assert(self@.agents =~= pre.agents.push(agent_view));
        }

        match self.index_of_owner(&sender) {
            Some(j) => {
                let ghost entries = self@.owner_agents;
                let mut entry = self.owner_agents.remove(j);
                let ghost entry_pre = entry@;
                entry.agent_ids.push(agent_id);
                let ghost entry_post = entry@;
                self.owner_agents.insert(j, entry);
                proof {
                    assert(self@.owner_agents =~= entries.update(j as int, entry_post));
                    assert(entry_post.agent_ids =~= entry_pre.agent_ids.push(agent_id));
                    lemma_register_index_update(pre, self@, sender@, agent_view, j as int);
                }
            },
            None => {
                let mut ids: Vec<u64> = Vec::new();
                ids.push(agent_id);
                let ghost entries = self@.owner_agents;
                self.owner_agents.push(OwnerEntry { owner: sender.clone(), agent_ids: ids });
                proof {
                    assert(self@.owner_agents =~= entries.push(
                        (OwnerEntryView { owner: sender@, agent_ids: seq![agent_id] }),
                    ));
                    lemma_register_index_push(pre, self@, sender@, agent_view);
                }
            },
        }

        let mut resp = Response::new();
        resp.add_attribute("method", String::from_str("register_agent"));
        resp.add_attribute("agent_id", u64_to_string(agent_id));
        resp.add_attribute("owner", sender);
        proof {
            assert(resp@.attributes =~= register_response(agent_id, sender@).attributes);
            assert(resp@.messages =~= Seq::<BankTransferView>::empty());
        }
        Ok(resp)
    }
}

/// The record after a sparse update: each provided field overwrites the
/// stored one, absent fields are left untouched, and the update stamp is
/// moved to `now`. Identifier, owner, lifecycle flag and creation stamp
/// never change.
pub open spec fn updated_agent(
    a: AgentInfoView,
    name: Option<Seq<char>>,
    description: Option<Seq<char>>,
    configuration: Option<Seq<char>>,
    now: u64,
) -> AgentInfoView {
    AgentInfoView {
        id: a.id,
        owner: a.owner,
        name: match name {
            Some(n) => n,
            None => a.name,
        },
        description: match description {
            Some(d) => d,
            None => a.description,
        },
        configuration: match configuration {
            Some(c) => c,
            None => a.configuration,
        },
        is_active: a.is_active,
        created_at: a.created_at,
        updated_at: now,
    }
}

/// The record after a lifecycle transition: only the active flag and the
/// update stamp change. Both transitions are idempotent.
pub open spec fn lifecycle_agent(a: AgentInfoView, active: bool, now: u64) -> AgentInfoView {
    AgentInfoView {
        id: a.id,
        owner: a.owner,
        name: a.name,
        description: a.description,
        configuration: a.configuration,
        is_active: active,
        created_at: a.created_at,
        updated_at: now,
    }
}

/// The attributes reported for a successful mutation that names only the
/// method and the affected identifier.
pub open spec fn method_response(method: Seq<char>, agent_id: u64) -> ResponseView {
    ResponseView {
        messages: Seq::empty(),
        attributes: seq![
            (AttributeView { key: "method"@, value: method }),
            (AttributeView { key: "agent_id"@, value: dec_of(agent_id as int) }),
        ],
    }
}

/// The complete effect of an update request: `NotFound` exactly when no
/// record exists at the identifier, `Unauthorized` exactly when the caller
/// is not the owner (both leaving the store unchanged), and otherwise the
/// single record rewritten by `updated_agent`.
pub open spec fn execute_update_agent_post(
    pre: RegistryView,
    post: RegistryView,
    r: Result<Response, ContractError>,
    sender: Seq<char>,
    now: u64,
    agent_id: u64,
    name: Option<Seq<char>>,
    description: Option<Seq<char>>,
    configuration: Option<Seq<char>>,
) -> bool {
    &&& post.config == pre.config
    &&& post.agent_count == pre.agent_count
    &&& post.owner_agents == pre.owner_agents
    &&& if !pre.has_agent(agent_id) {
        r == Err::<Response, ContractError>(ContractError::NotFound) && post == pre
    } else if pre.agent(agent_id).owner != sender {
        r == Err::<Response, ContractError>(ContractError::Unauthorized) && post == pre
    } else {
        &&& post.agents == pre.agents.update(
            agent_id - 1,
            updated_agent(pre.agent(agent_id), name, description, configuration, now),
        )
        &&& r matches Ok(resp) && resp@ == method_response("update_agent"@, agent_id)
    }
}

/// The complete effect of a lifecycle request (`active` false for
/// deactivation, true for activation), with the same authorization
/// semantics as an update.
pub open spec fn set_active_post(
    pre: RegistryView,
    post: RegistryView,
    r: Result<Response, ContractError>,
    sender: Seq<char>,
    now: u64,
    agent_id: u64,
    active: bool,
    method: Seq<char>,
) -> bool {
    &&& post.config == pre.config
    &&& post.agent_count == pre.agent_count
    &&& post.owner_agents == pre.owner_agents
    &&& if !pre.has_agent(agent_id) {
        r == Err::<Response, ContractError>(ContractError::NotFound) && post == pre
    } else if pre.agent(agent_id).owner != sender {
        r == Err::<Response, ContractError>(ContractError::Unauthorized) && post == pre
    } else {
        &&& post.agents == pre.agents.update(
            agent_id - 1,
            lifecycle_agent(pre.agent(agent_id), active, now),
        )
        &&& r matches Ok(resp) && resp@ == method_response(method, agent_id)
    }
}

impl RegistryView {
    /// Whether the mutation clock is admissible: the ledger's block time
    /// never runs backwards, so a mutation's `now` is at least the touched
    /// record's last update stamp.
    pub open spec fn clock_ok(self, sender: Seq<char>, now: u64, agent_id: u64) -> bool {
        self.has_agent(agent_id) && self.agent(agent_id).owner == sender ==> now >= self.agent(
            agent_id,
        ).updated_at
    }
}

impl Registry {
    /// Updates the provided fields of the record at `agent_id`, if the
    /// caller owns it. Updating is a sparse overwrite: absent fields stay;
    /// an update with no fields still bumps the update stamp.
    pub fn execute_update_agent(
        &mut self,
        sender: String,
        now: u64,
        agent_id: u64,
        name: Option<String>,
        description: Option<String>,
        configuration: Option<String>,
    ) -> (r: Result<Response, ContractError>)
        requires
            old(self)@.wf(),
            old(self)@.clock_ok(sender@, now, agent_id),
        ensures
            final(self)@.wf(),
            execute_update_agent_post(
                old(self)@,
                final(self)@,
                r,
                sender@,
                now,
                agent_id,
                name.deep_view(),
                description.deep_view(),
                configuration.deep_view(),
            ),
    {
        let ghost pre = self@;
        let n_agents = self.agents.len();
        if agent_id < 1 || agent_id > self.agent_count {
            return Err(ContractError::NotFound);
        }
        proof {
            assert(agent_id - 1 < n_agents as int);
        }
        let idx = (agent_id - 1) as usize;
        if !(self.agents[idx].owner == sender) {
            proof {
                assert(pre.agent(agent_id) == self.agents@[idx as int]@);
            }
            return Err(ContractError::Unauthorized);
        }
        let ghost vec_pre = self.agents@;
        let mut agent = self.agents.remove(idx);
        if let Some(n) = name {
            agent.name = n;
        }
        if let Some(d) = description {
            agent.description = d;
        }
        if let Some(c) = configuration {
            agent.configuration = c;
        }
        agent.updated_at = now;
        let ghost a_snap = agent;
        let ghost agent_view = agent@;
        self.agents.insert(idx, agent);
        proof {
            assert(self.agents@ =~= vec_pre.update(agent_id - 1, a_snap));
            assert forall|i: int| 0 <= i < self@.agents.len() implies self@.agents[i]
                == pre.agents.update(agent_id - 1, agent_view)[i] by {
                if i != agent_id - 1 {
                    assert(self.agents@[i] == vec_pre[i]);
                }
            }
            assert(self@.agents =~= pre.agents.update(agent_id - 1, agent_view));
            assert(agent_view == updated_agent(
                pre.agent(agent_id),
                name.deep_view(),
                description.deep_view(),
                configuration.deep_view(),
                now,
            ));
            lemma_single_update_wf(pre, self@, agent_id);
        }
        let mut resp = Response::new();
        resp.add_attribute("method", String::from_str("update_agent"));
        resp.add_attribute("agent_id", u64_to_string(agent_id));
        proof {
            assert(resp@.attributes =~= method_response("update_agent"@, agent_id).attributes);
            assert(resp@.messages =~= Seq::<BankTransferView>::empty());
        }
        Ok(resp)
    }

    /// Sets the lifecycle flag of the record at `agent_id` to `active`,
    /// if the caller owns it.
    fn set_active(&mut self, sender: String, now: u64, agent_id: u64, active: bool) -> (r: Result<
        (),
        ContractError,
    >)
        requires
            old(self)@.wf(),
            old(self)@.clock_ok(sender@, now, agent_id),
        ensures
            final(self)@.wf(),
            final(self)@.config == old(self)@.config,
            final(self)@.agent_count == old(self)@.agent_count,
            final(self)@.owner_agents == old(self)@.owner_agents,
            !old(self)@.has_agent(agent_id) ==> r == Err::<(), ContractError>(
                ContractError::NotFound,
            ) && final(self)@ == old(self)@,
            old(self)@.has_agent(agent_id) && old(self)@.agent(agent_id).owner != sender@ ==> r
                == Err::<(), ContractError>(ContractError::Unauthorized) && final(self)@ == old(
                self,
            )@,
            old(self)@.has_agent(agent_id) && old(self)@.agent(agent_id).owner == sender@ ==> r
                is Ok && final(self)@.agents == old(self)@.agents.update(
                agent_id - 1,
                lifecycle_agent(old(self)@.agent(agent_id), active, now),
            ),
    {
        let ghost pre = self@;
        let n_agents = self.agents.len();
        if agent_id < 1 || agent_id > self.agent_count {
            return Err(ContractError::NotFound);
        }
        proof {
            assert(agent_id - 1 < n_agents as int);
        }
        let idx = (agent_id - 1) as usize;
        if !(self.agents[idx].owner == sender) {
            proof {
                assert(pre.agent(agent_id) == self.agents@[idx as int]@);
            }
            return Err(ContractError::Unauthorized);
        }
        let ghost vec_pre = self.agents@;
        let mut agent = self.agents.remove(idx);
        agent.is_active = active;
        agent.updated_at = now;
        let ghost a_snap = agent;
        let ghost agent_view = agent@;
        self.agents.insert(idx, agent);
        proof {
            assert(self.agents@ =~= vec_pre.update(agent_id - 1, a_snap));
            assert forall|i: int| 0 <= i < self@.agents.len() implies self@.agents[i]
                == pre.agents.update(agent_id - 1, agent_view)[i] by {
                if i != agent_id - 1 {
                    assert(self.agents@[i] == vec_pre[i]);
                }
            }
            assert(self@.agents =~= pre.agents.update(agent_id - 1, agent_view));
            lemma_single_update_wf(pre, self@, agent_id);
        }
        Ok(())
    }

    /// Deactivates the record at `agent_id` (idempotent), if the caller
    /// owns it. An inactive record stays stored and fetchable.
    pub fn execute_deactivate_agent(&mut self, sender: String, now: u64, agent_id: u64) -> (r:
        Result<Response, ContractError>)
        requires
            old(self)@.wf(),
            old(self)@.clock_ok(sender@, now, agent_id),
        ensures
            final(self)@.wf(),
            set_active_post(
                old(self)@,
                final(self)@,
                r,
                sender@,
                now,
                agent_id,
                false,
                "deactivate_agent"@,
            ),
    {
        match self.set_active(sender, now, agent_id, false) {
            Ok(()) => {
                let mut resp = Response::new();
                resp.add_attribute("method", String::from_str("deactivate_agent"));
                resp.add_attribute("agent_id", u64_to_string(agent_id));
                proof {
                    assert(resp@.attributes =~= method_response(
                        "deactivate_agent"@,
                        agent_id,
                    ).attributes);
                    assert(resp@.messages =~= Seq::<BankTransferView>::empty());
                }
                Ok(resp)
            },
            Err(e) => Err(e),
        }
    }

    /// Activates the record at `agent_id` (idempotent), if the caller owns
    /// it.
    pub fn execute_activate_agent(&mut self, sender: String, now: u64, agent_id: u64) -> (r:
        Result<Response, ContractError>)
        requires
            old(self)@.wf(),
            old(self)@.clock_ok(sender@, now, agent_id),
        ensures
            final(self)@.wf(),
            set_active_post(
                old(self)@,
                final(self)@,
                r,
                sender@,
                now,
                agent_id,
                true,
                "activate_agent"@,
            ),
    {
        match self.set_active(sender, now, agent_id, true) {
            Ok(()) => {
                let mut resp = Response::new();
                resp.add_attribute("method", String::from_str("activate_agent"));
                resp.add_attribute("agent_id", u64_to_string(agent_id));
                proof {
                    assert(resp@.attributes =~= method_response(
                        "activate_agent"@,
                        agent_id,
                    ).attributes);
                    assert(resp@.messages =~= Seq::<BankTransferView>::empty());
                }
                Ok(resp)
            },
            Err(e) => Err(e),
        }
    }
}

/// Rewriting one record in place, without touching its identifier, owner,
/// or stamp order, keeps the registry well-formed: the owner index still
/// resolves, because ownership did not move.
proof fn lemma_single_update_wf(pre: RegistryView, post: RegistryView, agent_id: u64)
    requires
        pre.wf(),
        pre.has_agent(agent_id),
        post.agent_count == pre.agent_count,
        post.owner_agents == pre.owner_agents,
        post.agents.len() == pre.agents.len(),
        post.agents == pre.agents.update(agent_id - 1, post.agents[agent_id - 1]),
        post.agents[agent_id - 1].id == agent_id,
        post.agents[agent_id - 1].owner == pre.agents[agent_id - 1].owner,
        post.agents[agent_id - 1].created_at <= post.agents[agent_id - 1].updated_at,
    ensures
        post.wf(),
{
    assert forall|i: int| 0 <= i < post.owner_agents.len() implies post.entry_wf(
        #[trigger] post.owner_agents[i],
    ) by {
        assert(pre.entry_wf(pre.owner_agents[i]));
        let e = post.owner_agents[i];
        assert forall|k: int| 0 <= k < e.agent_ids.len() implies 1 <= #[trigger] e.agent_ids[k]
            <= post.agents.len() && post.agents[e.agent_ids[k] - 1].owner == e.owner by {
            if e.agent_ids[k] == agent_id {
                assert(pre.agents[agent_id - 1].owner == e.owner);
            } else {
                assert(post.agents[e.agent_ids[k] - 1] == pre.agents[e.agent_ids[k] - 1]);
            }
        }
    }
}

/// After a registration that extended an existing index entry, the registry
/// is well-formed again and the index reads as the contract promises.
proof fn lemma_register_index_update(
    pre: RegistryView,
    post: RegistryView,
    sender: Seq<char>,
    agent: AgentInfoView,
    j: int,
)
    requires
        pre.wf(),
        pre.agent_count < u64::MAX,
        agent.id == pre.agent_count + 1,
        agent.owner == sender,
        agent.created_at <= agent.updated_at,
        post.agents == pre.agents.push(agent),
        post.agent_count == pre.agent_count + 1,
        0 <= j < pre.owner_agents.len(),
        pre.owner_agents[j].owner == sender,
        forall|k: int| 0 <= k < j ==> (#[trigger] pre.owner_agents[k]).owner != sender,
        post.owner_agents == pre.owner_agents.update(
            j,
            (OwnerEntryView {
                owner: sender,
                agent_ids: pre.owner_agents[j].agent_ids.push(agent.id),
            }),
        ),
    ensures
        post.wf(),
        post.owner_ids(sender) == pre.owner_ids(sender).push(agent.id),
        forall|o: Seq<char>| o != sender ==> #[trigger] post.owner_ids(o) == pre.owner_ids(o),
{
    let e2 = OwnerEntryView {
        owner: sender,
        agent_ids: pre.owner_agents[j].agent_ids.push(agent.id),
    };
    assert forall|i: int| 0 <= i < post.owner_agents.len() implies post.entry_wf(
        #[trigger] post.owner_agents[i],
    ) by {
        assert(pre.entry_wf(pre.owner_agents[i]));
        let e = post.owner_agents[i];
        if i == j {
            let ids = e.agent_ids;
            let old_ids = pre.owner_agents[j].agent_ids;
            assert forall|k: int| 0 <= k < ids.len() implies 1 <= #[trigger] ids[k]
                <= post.agents.len() && post.agents[ids[k] - 1].owner == e.owner by {
                if k < old_ids.len() {
                    assert(ids[k] == old_ids[k]);
                    assert(post.agents[ids[k] - 1] == pre.agents[ids[k] - 1]);
                } else {
                    assert(ids[k] == agent.id);
                }
            }
            assert forall|k1: int, k2: int| 0 <= k1 < k2 < ids.len() implies #[trigger] ids[k1]
                < #[trigger] ids[k2] by {
                if k2 < old_ids.len() {
                } else {
                    assert(ids[k2] == agent.id);
                    assert(ids[k1] == old_ids[k1]);
                    assert(old_ids[k1] <= pre.agents.len());
                }
            }
        } else {
            assert(e == pre.owner_agents[i]);
            assert forall|k: int| 0 <= k < e.agent_ids.len() implies 1 <= #[trigger] e.agent_ids[k]
                <= post.agents.len() && post.agents[e.agent_ids[k] - 1].owner == e.owner by {
                assert(post.agents[e.agent_ids[k] - 1] == pre.agents[e.agent_ids[k] - 1]);
            }
        }
    }
    lemma_owner_ids_found(pre.owner_agents, sender, 0, j);
    lemma_owner_ids_found(post.owner_agents, sender, 0, j);
    assert forall|o: Seq<char>| o != sender implies #[trigger] post.owner_ids(o) == pre.owner_ids(
        o,
    ) by {
        lemma_owner_ids_update_other(pre.owner_agents, j, e2, o, 0);
    }
}

/// After a registration that created a fresh index entry, the registry is
/// well-formed again and the index reads as the contract promises.
proof fn lemma_register_index_push(
    pre: RegistryView,
    post: RegistryView,
    sender: Seq<char>,
    agent: AgentInfoView,
)
    requires
        pre.wf(),
        pre.agent_count < u64::MAX,
        agent.id == pre.agent_count + 1,
        agent.owner == sender,
        agent.created_at <= agent.updated_at,
        post.agents == pre.agents.push(agent),
        post.agent_count == pre.agent_count + 1,
        forall|k: int|
            0 <= k < pre.owner_agents.len() ==> (#[trigger] pre.owner_agents[k]).owner != sender,
        post.owner_agents == pre.owner_agents.push(
            (OwnerEntryView { owner: sender, agent_ids: seq![agent.id] }),
        ),
    ensures
        post.wf(),
        post.owner_ids(sender) == pre.owner_ids(sender).push(agent.id),
        forall|o: Seq<char>| o != sender ==> #[trigger] post.owner_ids(o) == pre.owner_ids(o),
{
    let e2 = OwnerEntryView { owner: sender, agent_ids: seq![agent.id] };
    let n = pre.owner_agents.len() as int;
    assert forall|i: int| 0 <= i < post.owner_agents.len() implies post.entry_wf(
        #[trigger] post.owner_agents[i],
    ) by {
        let e = post.owner_agents[i];
        if i == n {
            assert(e.agent_ids[0] == agent.id);
            assert(post.agents[agent.id - 1] == agent);
        } else {
            assert(pre.entry_wf(pre.owner_agents[i]));
            assert(e == pre.owner_agents[i]);
            assert forall|k: int| 0 <= k < e.agent_ids.len() implies 1 <= #[trigger] e.agent_ids[k]
                <= post.agents.len() && post.agents[e.agent_ids[k] - 1].owner == e.owner by {
                assert(post.agents[e.agent_ids[k] - 1] == pre.agents[e.agent_ids[k] - 1]);
            }
        }
    }
    lemma_owner_ids_absent(pre.owner_agents, sender, 0);
    lemma_owner_ids_found(post.owner_agents, sender, 0, n);
    assert(post.owner_ids(sender) =~= pre.owner_ids(sender).push(agent.id));
    assert forall|o: Seq<char>| o != sender implies #[trigger] post.owner_ids(o) == pre.owner_ids(
        o,
    ) by {
        lemma_owner_ids_push_other(pre.owner_agents, e2, o, 0);
    }
}

/// A single record, as returned by a point query.
#[derive(Debug)]
pub struct AgentResponse {
    pub agent: AgentInfo,
}

impl View for AgentResponse {
    type V = AgentInfoView;

    open spec fn view(&self) -> AgentInfoView {
        self.agent@
    }
}

/// A page of records, as returned by a listing query.
#[derive(Debug)]
pub struct AgentsResponse {
    pub agents: Vec<AgentInfo>,
}

impl View for AgentsResponse {
    type V = Seq<AgentInfoView>;

    open spec fn view(&self) -> Seq<AgentInfoView> {
        self.agents@.map_values(|a: AgentInfo| a@)
    }
}

/// What a full-range listing returns: a contiguous window of the record
/// sequence.
pub open spec fn list_agents_spec(
    reg: RegistryView,
    start_after: Option<u64>,
    limit: Option<u32>,
) -> Seq<AgentInfoView> {
    window(reg.agents, start_index(start_after), effective_limit(limit))
}

/// The position an owner-sequence cursor resumes at: just after the first
/// occurrence of `start_after` in the owner's identifier sequence, or 0 if
/// the identifier is absent (a deliberate lenient fallback) or no cursor
/// was given.
pub open spec fn owner_start_pos(ids: Seq<u64>, start_after: Option<u64>) -> int {
    match start_after {
        None => 0,
        Some(x) => match ids.index_of_first(x) {
            Some(j) => j + 1,
            None => 0,
        },
    }
}

/// What an owner-sequence listing returns: up to `limit` of the owner's
/// identifiers from the cursor position on, each resolved against the
/// store, in sequence order.
pub open spec fn list_owner_agents_spec(
    reg: RegistryView,
    owner: Seq<char>,
    start_after: Option<u64>,
    limit: Option<u32>,
) -> Seq<AgentInfoView> {
    let ids = reg.owner_ids(owner);
    window(ids, owner_start_pos(ids, start_after), effective_limit(limit)).map_values(
        |id: u64| reg.agent(id),
    )
}

impl Registry {
    /// Fetches the record at `agent_id`. Point lookups ignore the active
    /// flag: an inactive record is still fetchable.
    pub fn query_agent(&self, agent_id: u64) -> (r: Result<AgentResponse, ContractError>)
        requires
            self@.wf(),
        ensures
            self@.has_agent(agent_id) ==> (r matches Ok(a) && a@ == self@.agent(agent_id)),
            !self@.has_agent(agent_id) ==> r == Err::<AgentResponse, ContractError>(
                ContractError::NotFound,
            ),
    {
        let n_agents = self.agents.len();
        if agent_id < 1 || agent_id > self.agent_count {
            return Err(ContractError::NotFound);
        }
        proof {
            assert(agent_id - 1 < n_agents as int);
        }
        let idx = (agent_id - 1) as usize;
        Ok(AgentResponse { agent: self.agents[idx].clone() })
    }

    /// Lists up to `limit` (default 10) records in ascending identifier
    /// order, resuming just after `start_after` if given.
    pub fn list_agents(&self, start_after: Option<u64>, limit: Option<u32>) -> (r: AgentsResponse)
        requires
            self@.wf(),
        ensures
            r@ == list_agents_spec(self@, start_after, limit),
    {
        let n = self.agents.len();
        let lim: usize = match limit {
            Some(l) => l as usize,
            None => 10,
        };
        let start: usize = match start_after {
            Some(s) => if s >= n as u64 {
                n
            } else {
                s as usize
            },
            None => 0,
        };
        let mut agents: Vec<AgentInfo> = Vec::new();
        let mut idx: usize = start;
        while idx < n && agents.len() < lim
            invariant
                self@.wf(),
                start <= idx <= n,
                n == self.agents.len(),
                idx - start == agents.len() <= lim,
                agents@.map_values(|a: AgentInfo| a@) == self@.agents.subrange(
                    start as int,
                    idx as int,
                ),
            decreases n - idx,
        {
            let ghost prev = agents@.map_values(|a: AgentInfo| a@);
            agents.push(self.agents[idx].clone());
            proof {
                assert(agents@.map_values(|a: AgentInfo| a@) =~= prev.push(
                    self@.agents[idx as int],
                ));
                assert(self@.agents.subrange(start as int, idx + 1) =~= self@.agents.subrange(
                    start as int,
                    idx as int,
                ).push(self@.agents[idx as int]));
            }
            idx = idx + 1;
        }
        let r = AgentsResponse { agents };
        proof {
            assert(r@ =~= list_agents_spec(self@, start_after, limit));
        }
        r
    }

    /// Position in `ids` just after the first occurrence of `x`, or 0 if
    /// `x` does not occur.
    fn position_after(ids: &Vec<u64>, x: u64) -> (p: usize)
        ensures
            p as int == owner_start_pos(ids@, Some(x)),
            p <= ids@.len(),
    {
        let m = ids.len();
        let mut k: usize = 0;
        while k < m
            invariant
                k <= m,
                m == ids@.len(),
                forall|q: int| 0 <= q < k ==> ids@[q] != x,
            decreases m - k,
        {
            if ids[k] == x {
                proof {
                    ids@.index_of_first_ensures(x);
                }
                return k + 1;
            }
            k = k + 1;
        }
        proof {
            ids@.index_of_first_ensures(x);
            assert(!ids@.contains(x)) by {
                if ids@.contains(x) {
                    let w = choose|w: int| 0 <= w < ids@.len() && ids@[w] == x;
                    assert(ids@[w] != x);
                }
            }
        }
        0
    }

    /// Lists up to `limit` (default 10) of `owner`'s records, in creation
    /// order, resuming just after the position of `start_after` in the
    /// owner's identifier sequence if given (from the start if absent).
    pub fn list_owner_agents(
        &self,
        owner: String,
        start_after: Option<u64>,
        limit: Option<u32>,
    ) -> (r: AgentsResponse)
        requires
            self@.wf(),
        ensures
            r@ == list_owner_agents_spec(self@, owner@, start_after, limit),
    {
        let lim: usize = match limit {
            Some(l) => l as usize,
            None => 10,
        };
        let mut agents: Vec<AgentInfo> = Vec::new();
        match self.index_of_owner(&owner) {
            None => {
                let r = AgentsResponse { agents };
                proof {
                    lemma_owner_ids_absent(self@.owner_agents, owner@, 0);
                    assert(r@ =~= list_owner_agents_spec(self@, owner@, start_after, limit));
                }
                r
            },
            Some(j) => {
                proof {
                    lemma_owner_ids_found(self@.owner_agents, owner@, 0, j as int);
                    assert(self@.owner_ids(owner@) == self@.owner_agents[j as int].agent_ids);
                    assert(self@.entry_wf(self@.owner_agents[j as int]));
                }
                let n_agents = self.agents.len();
                let ids = &self.owner_agents[j].agent_ids;
                let ghost ids_view = ids@;
                let m = ids.len();
                let pos: usize = match start_after {
                    Some(x) => Self::position_after(ids, x),
                    None => 0,
                };
                let mut k: usize = pos;
                while k < m && agents.len() < lim
                    invariant
                        self@.wf(),
                        self@.entry_wf(self@.owner_agents[j as int]),
                        j < self@.owner_agents.len(),
                        ids_view == self@.owner_agents[j as int].agent_ids,
                        ids@ == ids_view,
                        n_agents == self@.agents.len(),
                        pos <= k <= m,
                        m == ids_view.len(),
                        k - pos == agents.len() <= lim,
                        agents@.map_values(|a: AgentInfo| a@) == ids_view.subrange(
                            pos as int,
                            k as int,
                        ).map_values(|id: u64| self@.agent(id)),
                    decreases m - k,
                {
                    let ghost prev = agents@.map_values(|a: AgentInfo| a@);
                    let id = ids[k];
                    proof {
                        assert(1 <= ids_view[k as int] <= self@.agents.len());
                        assert(id - 1 < n_agents as int);
                    }
                    let idx = (id - 1) as usize;
                    agents.push(self.agents[idx].clone());
                    proof {
                        assert(agents@.map_values(|a: AgentInfo| a@) =~= prev.push(
                            self@.agent(id),
                        ));
                        assert(ids_view.subrange(pos as int, k + 1).map_values(
                            |id: u64| self@.agent(id),
                        ) =~= ids_view.subrange(pos as int, k as int).map_values(
                            |id: u64| self@.agent(id),
                        ).push(self@.agent(id)));
                    }
                    k = k + 1;
                }
                let r = AgentsResponse { agents };
                proof {
                    assert(r@ =~= list_owner_agents_spec(self@, owner@, start_after, limit));
                }
                r
            },
        }
    }
}

/// The registry's mutating operations.
pub enum ExecuteMsg {
    RegisterAgent { name: String, description: String, configuration: String },
    UpdateAgent {
        agent_id: u64,
        name: Option<String>,
        description: Option<String>,
        configuration: Option<String>,
    },
    DeactivateAgent { agent_id: u64 },
    ActivateAgent { agent_id: u64 },
}

/// The registry's read-only operations.
pub enum QueryMsg {
    GetAgent { agent_id: u64 },
    ListAgents { start_after: Option<u64>, limit: Option<u32> },
    ListOwnerAgents { owner: String, start_after: Option<u64>, limit: Option<u32> },
}

/// The typed answer to a query; the host serializes it.
#[derive(Debug)]
pub enum QueryResponse {
    Agent(AgentResponse),
    Agents(AgentsResponse),
}

impl Registry {
    /// Dispatches a mutating request for the already-authenticated caller
    /// `sender` at block time `now`.
    pub fn execute(&mut self, sender: String, now: u64, msg: ExecuteMsg) -> (r: Result<
        Response,
        ContractError,
    >)
        requires
            old(self)@.wf(),
            msg is RegisterAgent ==> old(self).agent_count < u64::MAX,
            match msg {
                ExecuteMsg::UpdateAgent { agent_id, .. } => old(self)@.clock_ok(
                    sender@,
                    now,
                    agent_id,
                ),
                ExecuteMsg::DeactivateAgent { agent_id } => old(self)@.clock_ok(
                    sender@,
                    now,
                    agent_id,
                ),
                ExecuteMsg::ActivateAgent { agent_id } => old(self)@.clock_ok(
                    sender@,
                    now,
                    agent_id,
                ),
                _ => true,
            },
        ensures
            final(self)@.wf(),
            match msg {
                ExecuteMsg::RegisterAgent { name, description, configuration } =>
                    execute_register_agent_post(
                    old(self)@,
                    final(self)@,
                    r,
                    sender@,
                    now,
                    name@,
                    description@,
                    configuration@,
                ),
                ExecuteMsg::UpdateAgent { agent_id, name, description, configuration } =>
                    execute_update_agent_post(
                    old(self)@,
                    final(self)@,
                    r,
                    sender@,
                    now,
                    agent_id,
                    name.deep_view(),
                    description.deep_view(),
                    configuration.deep_view(),
                ),
                ExecuteMsg::DeactivateAgent { agent_id } => set_active_post(
                    old(self)@,
                    final(self)@,
                    r,
                    sender@,
                    now,
                    agent_id,
                    false,
                    "deactivate_agent"@,
                ),
                ExecuteMsg::ActivateAgent { agent_id } => set_active_post(
                    old(self)@,
                    final(self)@,
                    r,
                    sender@,
                    now,
                    agent_id,
                    true,
                    "activate_agent"@,
                ),
            },
    {
        match msg {
            ExecuteMsg::RegisterAgent { name, description, configuration } => self
                .execute_register_agent(sender, now, name, description, configuration),
            ExecuteMsg::UpdateAgent { agent_id, name, description, configuration } => self
                .execute_update_agent(sender, now, agent_id, name, description, configuration),
            ExecuteMsg::DeactivateAgent { agent_id } => self.execute_deactivate_agent(
                sender,
                now,
                agent_id,
            ),
            ExecuteMsg::ActivateAgent { agent_id } => self.execute_activate_agent(
                sender,
                now,
                agent_id,
            ),
        }
    }

    /// Dispatches a read-only request. Reads need no authorization.
    pub fn query(&self, msg: QueryMsg) -> (r: Result<QueryResponse, ContractError>)
        requires
            self@.wf(),
        ensures
            match msg {
                QueryMsg::GetAgent { agent_id } => {
                    &&& self@.has_agent(agent_id) ==> (r matches Ok(QueryResponse::Agent(a))
                        && a@ == self@.agent(agent_id))
                    &&& !self@.has_agent(agent_id) ==> r == Err::<QueryResponse, ContractError>(
                        ContractError::NotFound,
                    )
                },
                QueryMsg::ListAgents { start_after, limit } => (r matches Ok(
                    QueryResponse::Agents(a),
                ) && a@ == list_agents_spec(self@, start_after, limit)),
                QueryMsg::ListOwnerAgents { owner, start_after, limit } => (r matches Ok(
                    QueryResponse::Agents(a),
                ) && a@ == list_owner_agents_spec(self@, owner@, start_after, limit)),
            },
    {
        match msg {
            QueryMsg::GetAgent { agent_id } => match self.query_agent(agent_id) {
                Ok(a) => Ok(QueryResponse::Agent(a)),
                Err(e) => Err(e),
            },
            QueryMsg::ListAgents { start_after, limit } => Ok(
                QueryResponse::Agents(self.list_agents(start_after, limit)),
            ),
            QueryMsg::ListOwnerAgents { owner, start_after, limit } => Ok(
                QueryResponse::Agents(self.list_owner_agents(owner, start_after, limit)),
            ),
        }
    }
}

/// Identifiers are issued strictly increasing and unique, with no gaps: in
/// a well-formed registry the record at position `i` carries identifier
/// `i + 1`, so any two distinct records carry distinct identifiers and
/// every identifier up to the counter resolves.
pub proof fn lemma_identifiers_strictly_increasing(reg: RegistryView)
    requires
        reg.wf(),
    ensures
        forall|i: int, j: int|
            0 <= i < j < reg.agents.len() ==> (#[trigger] reg.agents[i]).id < (
            #[trigger] reg.agents[j]).id,
        forall|id: u64| 1 <= id <= reg.agent_count ==> reg.has_agent(id),
{
}

/// A sparse update never moves a record's identifier, owner, lifecycle
/// flag, or creation stamp, and never lets the update stamp run backwards
/// under an admissible clock.
pub proof fn lemma_update_preserves_provenance(
    a: AgentInfoView,
    name: Option<Seq<char>>,
    description: Option<Seq<char>>,
    configuration: Option<Seq<char>>,
    now: u64,
)
    requires
        a.created_at <= a.updated_at <= now,
    ensures
        updated_agent(a, name, description, configuration, now).id == a.id,
        updated_agent(a, name, description, configuration, now).owner == a.owner,
        updated_agent(a, name, description, configuration, now).is_active == a.is_active,
        updated_agent(a, name, description, configuration, now).created_at == a.created_at,
        updated_agent(a, name, description, configuration, now).updated_at >= a.updated_at,
        updated_agent(a, name, description, configuration, now).updated_at >= updated_agent(
            a,
            name,
            description,
            configuration,
            now,
        ).created_at,
{
}

/// What the scan finds for any owner inherits the index's consistency:
/// strictly increasing identifiers, each resolving to a record of that
/// owner.
proof fn lemma_owner_ids_from_wf(reg: RegistryView, owner: Seq<char>, i: int)
    requires
        reg.wf(),
    ensures
        ({
            let ids = owner_ids_from(reg.owner_agents, owner, i);
            &&& forall|k: int| 0 <= k < ids.len() ==> 1 <= #[trigger] ids[k] <= reg.agents.len()
            &&& forall|k: int|
                0 <= k < ids.len() ==> reg.agents[#[trigger] ids[k] - 1].owner == owner
            &&& forall|k1: int, k2: int|
                0 <= k1 < k2 < ids.len() ==> #[trigger] ids[k1] < #[trigger] ids[k2]
        }),
    decreases reg.owner_agents.len() - i,
{
    if i < 0 || i >= reg.owner_agents.len() {
    } else if reg.owner_agents[i].owner == owner {
        assert(reg.entry_wf(reg.owner_agents[i]));
        assert(owner_ids_from(reg.owner_agents, owner, i) == reg.owner_agents[i].agent_ids);
    } else {
        lemma_owner_ids_from_wf(reg, owner, i + 1);
        assert(owner_ids_from(reg.owner_agents, owner, i) == owner_ids_from(
            reg.owner_agents,
            owner,
            i + 1,
        ));
    }
}

/// The identifiers in an owner's index sequence are strictly increasing
/// and each resolves to a record of that owner.
pub proof fn lemma_owner_ids_wf(reg: RegistryView, owner: Seq<char>)
    requires
        reg.wf(),
    ensures
        ({
            let ids = reg.owner_ids(owner);
            &&& forall|k: int| 0 <= k < ids.len() ==> 1 <= #[trigger] ids[k] <= reg.agents.len()
            &&& forall|k: int|
                0 <= k < ids.len() ==> reg.agents[#[trigger] ids[k] - 1].owner == owner
            &&& forall|k1: int, k2: int|
                0 <= k1 < k2 < ids.len() ==> #[trigger] ids[k1] < #[trigger] ids[k2]
        }),
{
    lemma_owner_ids_from_wf(reg, owner, 0);
}

/// Owner-sequence pagination chains without gaps or repeats: a full page
/// followed by the page resuming after its last identifier is exactly the
/// single larger page.
pub proof fn lemma_list_owner_agents_pages_chain(
    reg: RegistryView,
    owner: Seq<char>,
    start_after: Option<u64>,
    l1: u32,
    l2: u32,
)
    requires
        reg.wf(),
        0 < l1,
        l1 + l2 <= u32::MAX,
        list_owner_agents_spec(reg, owner, start_after, Some(l1)).len() == l1,
    ensures
        ({
            let p1 = list_owner_agents_spec(reg, owner, start_after, Some(l1));
            p1 + list_owner_agents_spec(reg, owner, Some(p1.last().id), Some(l2))
                == list_owner_agents_spec(reg, owner, start_after, Some((l1 + l2) as u32))
        }),
{
    lemma_owner_ids_wf(reg, owner);
    let ids = reg.owner_ids(owner);
    let n = ids.len() as int;
    let pos = owner_start_pos(ids, start_after);
    let p1 = list_owner_agents_spec(reg, owner, start_after, Some(l1));
    assert(0 <= pos) by {
        if start_after is Some {
            ids.index_of_first_ensures(start_after->0);
        }
    }
    assert(pos + l1 <= n);
    let last_id = ids[pos + l1 - 1];
    assert(p1.last() == reg.agent(last_id));
    assert(p1.last().id == last_id);
    ids.index_of_first_ensures(last_id);
    assert(ids.contains(last_id));
    let found = ids.index_of_first(last_id)->0;
    assert(found == pos + l1 - 1) by {
        if found < pos + l1 - 1 {
            assert(ids[found] < ids[pos + l1 - 1]);
        }
        if found > pos + l1 - 1 {
            assert(ids[pos + l1 - 1] != last_id);
        }
    }
    assert(owner_start_pos(ids, Some(last_id)) == pos + l1);
    let w1 = window(ids, pos, l1 as int);
    let w2 = window(ids, pos + l1, l2 as int);
    let w12 = window(ids, pos, (l1 + l2) as int);
    assert(w1 + w2 =~= w12);
    assert((w1 + w2).map_values(|id: u64| reg.agent(id)) =~= w1.map_values(
        |id: u64| reg.agent(id),
    ) + w2.map_values(|id: u64| reg.agent(id)));
}

/// An owner-sequence page shorter than its limit is the final page: it
/// reaches the end of the owner's identifier sequence.
pub proof fn lemma_list_owner_agents_final_page(
    reg: RegistryView,
    owner: Seq<char>,
    start_after: Option<u64>,
    l: u32,
)
    requires
        reg.wf(),
        list_owner_agents_spec(reg, owner, start_after, Some(l)).len() < l,
    ensures
        ({
            let ids = reg.owner_ids(owner);
            let pos = owner_start_pos(ids, start_after);
            let n = ids.len() as int;
            let lo = if pos <= n {
                pos
            } else {
                n
            };
            list_owner_agents_spec(reg, owner, start_after, Some(l)) == ids.subrange(
                lo,
                n,
            ).map_values(|id: u64| reg.agent(id))
        }),
{
    let ids = reg.owner_ids(owner);
    if start_after is Some {
        ids.index_of_first_ensures(start_after->0);
    }
    assert(0 <= owner_start_pos(ids, start_after));
}

/// Full-range pagination chains without gaps or repeats: a full page
/// followed by the page resuming after its last identifier is exactly the
/// single larger page.
pub proof fn lemma_list_agents_pages_chain(
    reg: RegistryView,
    start_after: Option<u64>,
    l1: u32,
    l2: u32,
)
    requires
        reg.wf(),
        0 < l1,
        l1 + l2 <= u32::MAX,
        list_agents_spec(reg, start_after, Some(l1)).len() == l1,
    ensures
        ({
            let p1 = list_agents_spec(reg, start_after, Some(l1));
            p1 + list_agents_spec(reg, Some(p1.last().id), Some(l2)) == list_agents_spec(
                reg,
                start_after,
                Some((l1 + l2) as u32),
            )
        }),
{
    let i = start_index(start_after);
    let n = reg.agents.len() as int;
    let lo = if i <= n {
        i
    } else {
        n
    };
    let p1 = list_agents_spec(reg, start_after, Some(l1));
    assert(p1.last() == reg.agents[lo + l1 - 1]);
    assert(p1.last().id == lo + l1);
    assert(p1 + list_agents_spec(reg, Some(p1.last().id), Some(l2)) =~= list_agents_spec(
        reg,
        start_after,
        Some((l1 + l2) as u32),
    ));
}

/// A page shorter than its limit is the final page: it reaches the end of
/// the record sequence, so chaining pages reproduces the whole sequence
/// exactly once.
pub proof fn lemma_list_agents_final_page(reg: RegistryView, start_after: Option<u64>, l: u32)
    requires
        reg.wf(),
        list_agents_spec(reg, start_after, Some(l)).len() < l,
    ensures
        ({
            let i = start_index(start_after);
            let n = reg.agents.len() as int;
            let lo = if i <= n {
                i
            } else {
                n
            };
            list_agents_spec(reg, start_after, Some(l)) == reg.agents.subrange(lo, n)
        }),
{
}

} // verus!
