//! The agent marketplace: owner-scoped listings browsed by buyers, soft
//! deletion, and an atomic fee-splitting purchase settlement.
//!
//! The store is an explicit value passed into every operation; the host
//! keeps it persistent, serializes all mutating requests, and executes the
//! transfer batch a purchase returns atomically with the state transition.

use vstd::prelude::*;
use vstd::string::StringExecFns;
use vstd::arithmetic::div_mod::{
    lemma_div_is_ordered,
    lemma_div_multiples_vanish_fancy,
    lemma_fundamental_div_mod,
};
use crate::decimal::dec_of;
use crate::decimal::u64_to_string;
use crate::decimal::u128_to_string;
use crate::pagination::{
    effective_limit,
    filtered_from,
    lemma_page_concat,
    lemma_page_elements,
    lemma_page_exhausted,
    lemma_page_last,
    page_from,
    start_index,
};
use crate::response::{
    AttributeView,
    BankTransfer,
    BankTransferView,
    Coin,
    CoinView,
    Response,
    ResponseView,
};

verus! {

/// A single marketplace listing.
#[derive(Debug)]
pub struct AgentInfo {
    pub id: u64,
    pub owner: String,
    pub name: String,
    pub description: String,
    pub price: u128,
    pub category: String,
    pub is_active: bool,
}

pub ghost struct AgentInfoView {
    pub id: u64,
    pub owner: Seq<char>,
    pub name: Seq<char>,
    pub description: Seq<char>,
    pub price: u128,
    pub category: Seq<char>,
    pub is_active: bool,
}

impl View for AgentInfo {
    type V = AgentInfoView;

    open spec fn view(&self) -> AgentInfoView {
        AgentInfoView {
            id: self.id,
            owner: self.owner@,
            name: self.name@,
            description: self.description@,
            price: self.price,
            category: self.category@,
            is_active: self.is_active,
        }
    }
}

impl Clone for AgentInfo {
    fn clone(&self) -> (r: Self)
        ensures
            r == *self,
    {
        AgentInfo {
            id: self.id,
            owner: self.owner.clone(),
            name: self.name.clone(),
            description: self.description.clone(),
            price: self.price,
            category: self.category.clone(),
            is_active: self.is_active,
        }
    }
}

/// The marketplace operator's configuration, fixed at creation: the
/// operator identity that receives fees, and the fee percentage
/// (0 to 100 inclusive).
pub struct Config {
    pub owner: String,
    pub fee_percentage: u128,
}

pub ghost struct ConfigView {
    pub owner: Seq<char>,
    pub fee_percentage: u128,
}

impl View for Config {
    type V = ConfigView;

    open spec fn view(&self) -> ConfigView {
        ConfigView { owner: self.owner@, fee_percentage: self.fee_percentage }
    }
}

/// The whole marketplace state: configuration, identifier counter, and the
/// keyed record store (listing `id` lives at position `id - 1`).
pub struct Marketplace {
    pub config: Config,
    pub agent_count: u64,
    pub agents: Vec<AgentInfo>,
}

pub ghost struct MarketplaceView {
    pub config: ConfigView,
    pub agent_count: u64,
    pub agents: Seq<AgentInfoView>,
}

impl View for Marketplace {
    type V = MarketplaceView;

    open spec fn view(&self) -> MarketplaceView {
        MarketplaceView {
            config: self.config@,
            agent_count: self.agent_count,
            agents: self.agents@.map_values(|a: AgentInfo| a@),
        }
    }
}

/// The errors a marketplace request can report.
#[derive(Clone, Copy, Debug, PartialEq, Eq, Structural)]
pub enum ContractError {
    /// No listing exists at the given identifier.
    NotFound,
    /// The caller is not the listing's owner.
    Unauthorized,
    /// A purchase was attempted on a deactivated listing.
    ListingInactive,
    /// No payment of the accepted denomination was supplied.
    NoFunds,
    /// The payment is below the listing's price.
    InsufficientFunds,
}

impl ContractError {
    /// A human-readable description of the error.
    pub fn message(&self) -> (r: &'static str)
        ensures
            *self is NotFound ==> r@ == "agent not found"@,
            *self is Unauthorized ==> r@ == "Unauthorized"@,
            *self is ListingInactive ==> r@ == "Agent not active"@,
            *self is NoFunds ==> r@ == "No funds sent"@,
            *self is InsufficientFunds ==> r@ == "Insufficient funds"@,
    {
        match self {
            ContractError::NotFound => "agent not found",
            ContractError::Unauthorized => "Unauthorized",
            ContractError::ListingInactive => "Agent not active",
            ContractError::NoFunds => "No funds sent",
            ContractError::InsufficientFunds => "Insufficient funds",
        }
    }
}

impl MarketplaceView {
    /// Whether a listing exists at `agent_id`.
    pub open spec fn has_agent(self, agent_id: u64) -> bool {
        1 <= agent_id <= self.agents.len()
    }

    /// The listing stored at `agent_id`.
    pub open spec fn agent(self, agent_id: u64) -> AgentInfoView {
        self.agents[agent_id - 1]
    }

    /// Well-formedness: the fee percentage is within 0 to 100, the counter
    /// equals the number of listings, and the listing at position `i`
    /// carries identifier `i + 1` (identifiers are unique, gap-free, and
    /// never reused).
    pub open spec fn wf(self) -> bool {
        &&& self.config.fee_percentage <= 100
        &&& self.agents.len() == self.agent_count as int
        &&& forall|i: int| 0 <= i < self.agents.len() ==> (#[trigger] self.agents[i]).id == i + 1
    }
}

/// The platform's cut of a sale: `floor(price * fee_percentage / 100)`.
pub open spec fn fee_of(price: u128, fee_percentage: u128) -> int {
    (price * fee_percentage) / 100
}

/// The seller's proceeds: the price minus the platform's cut. Together
/// with the fee this reconstitutes the price exactly.
pub open spec fn seller_amount_of(price: u128, fee_percentage: u128) -> int {
    price - fee_of(price, fee_percentage)
}

/// Computes the platform fee without ever overflowing, for every price and
/// every admissible percentage: `price` is split into hundreds and
/// remainder, so no intermediate product exceeds the price itself.
pub fn compute_fee(price: u128, fee_percentage: u128) -> (f: u128)
    requires
        fee_percentage <= 100,
    ensures
        f as int == fee_of(price, fee_percentage),
        f <= price,
{
    let q = price / 100;
    let r = price % 100;
    proof {
        let p = price as int;
        let ff = fee_percentage as int;
        let qi = q as int;
        let ri = r as int;
        lemma_fundamental_div_mod(p, 100);
        assert(p == 100 * qi + ri);
        assert(qi * ff <= 100 * qi) by (nonlinear_arith)
            requires
                0 <= qi,
                0 <= ff <= 100,
        ;
        assert(ri * ff <= 9900) by (nonlinear_arith)
            requires
                0 <= ri < 100,
                0 <= ff <= 100,
        ;
    }
    let t1 = q * fee_percentage;
    let t2 = (r * fee_percentage) / 100;
    proof {
        let p = price as int;
        let ff = fee_percentage as int;
        let qi = q as int;
        let ri = r as int;
        let k = (ri * ff) / 100;
        let m = (ri * ff) % 100;
        lemma_fundamental_div_mod(ri * ff, 100);
        assert(ri * ff >= 0) by (nonlinear_arith)
            requires
                0 <= ri,
                0 <= ff,
        ;
        assert(p * ff == 100 * (qi * ff + k) + m) by (nonlinear_arith)
            requires
                p == 100 * qi + ri,
                ri * ff == 100 * k + m,
        ;
        lemma_div_multiples_vanish_fancy(qi * ff + k, m, 100);
        assert((p * ff) / 100 == qi * ff + k);
        assert(ri * ff <= 100 * ri) by (nonlinear_arith)
            requires
                0 <= ri,
                0 <= ff <= 100,
        ;
        lemma_div_is_ordered(ri * ff, 100 * ri, 100);
        assert((100 * ri) / 100 == ri) by {
            lemma_div_multiples_vanish_fancy(ri, 0, 100);
        }
        assert(qi * ff + k <= 100 * qi + ri);
    }
    t1 + t2
}

/// The fee split is exact for every price and every admissible percentage:
/// seller proceeds plus fee reconstitute the price, and the fee is
/// `floor(price * fee_percentage / 100)`, never exceeding the price.
pub proof fn lemma_fee_split(price: u128, fee_percentage: u128)
    requires
        fee_percentage <= 100,
    ensures
        fee_of(price, fee_percentage) + seller_amount_of(price, fee_percentage) == price,
        0 <= fee_of(price, fee_percentage) <= price,
        0 <= seller_amount_of(price, fee_percentage) <= price,
        fee_of(price, fee_percentage) == (price * fee_percentage) / 100,
{
    let p = price as int;
    let ff = fee_percentage as int;
    assert(p * ff >= 0) by (nonlinear_arith)
        requires
            0 <= p,
            0 <= ff,
    ;
    assert(p * ff <= p * 100) by (nonlinear_arith)
        requires
            0 <= p,
            0 <= ff <= 100,
    ;
    lemma_div_is_ordered(p * ff, p * 100, 100);
    assert((p * 100) / 100 == p) by {
        lemma_div_multiples_vanish_fancy(p, 0, 100);
        assert(p * 100 == 100 * p) by (nonlinear_arith);
    }
    assert(p * ff / 100 >= 0) by {
        vstd::arithmetic::div_mod::lemma_div_pos_is_pos(p * ff, 100);
    }
}

/// The denomination this marketplace settles in.
pub open spec fn accepted_denom() -> Seq<char> {
    "inj"@
}

/// The first payment of the accepted denomination among the attached
/// funds, from position `i` on.
pub open spec fn find_payment(funds: Seq<Coin>, i: int) -> Option<CoinView>
    decreases funds.len() - i,
{
    if i < 0 || i >= funds.len() {
        None
    } else if funds[i]@.denom == accepted_denom() {
        Some(funds[i]@)
    } else {
        find_payment(funds, i + 1)
    }
}

/// Locates the first payment of the accepted denomination.
fn find_accepted_payment(funds: &Vec<Coin>) -> (r: Option<Coin>)
    ensures
        match r {
            Some(c) => find_payment(funds@, 0) == Some(c@),
            None => find_payment(funds@, 0) is None,
        },
{
    let n = funds.len();
    let inj = String::from_str("inj");
    let mut i: usize = 0;
    while i < n
        invariant
            i <= n,
            n == funds@.len(),
            inj@ == accepted_denom(),
            find_payment(funds@, 0) == find_payment(funds@, i as int),
        decreases n - i,
    {
        if funds[i].denom == inj {
            return Some(funds[i].clone());
        }
        i = i + 1;
    }
    None
}

/// The attributes reported for a successful instantiation.
pub open spec fn instantiate_response(owner: Seq<char>, fee_percentage: u128) -> ResponseView {
    ResponseView {
        messages: Seq::empty(),
        attributes: seq![
            (AttributeView { key: "method"@, value: "instantiate"@ }),
            (AttributeView { key: "owner"@, value: owner }),
            (AttributeView { key: "fee_percentage"@, value: dec_of(fee_percentage as int) }),
        ],
    }
}

/// The attributes reported for a successful listing creation.
pub open spec fn list_response(agent_id: u64, owner: Seq<char>) -> ResponseView {
    ResponseView {
        messages: Seq::empty(),
        attributes: seq![
            (AttributeView { key: "method"@, value: "list_agent"@ }),
            (AttributeView { key: "agent_id"@, value: dec_of(agent_id as int) }),
            (AttributeView { key: "owner"@, value: owner }),
        ],
    }
}

/// The attributes reported for a successful mutation that names only the
/// method and the affected identifier.
pub open spec fn method_response(method: Seq<char>, agent_id: u64) -> ResponseView {
    ResponseView {
        messages: Seq::empty(),
        attributes: seq![
            (AttributeView { key: "method"@, value: method }),
            (AttributeView { key: "agent_id"@, value: dec_of(agent_id as int) }),
        ],
    }
}

/// Everything a successful purchase returns: exactly two transfers — the
/// seller's proceeds to the listing's owner and the fee to the operator,
/// splitting the price exactly — and the settlement attributes.
pub open spec fn purchase_response(
    agent: AgentInfoView,
    config: ConfigView,
    buyer: Seq<char>,
) -> ResponseView {
    let fee = fee_of(agent.price, config.fee_percentage);
    ResponseView {
        messages: seq![
            (BankTransferView {
                to_address: agent.owner,
                denom: accepted_denom(),
                amount: (agent.price - fee) as u128,
            }),
            (BankTransferView {
                to_address: config.owner,
                denom: accepted_denom(),
                amount: fee as u128,
            }),
        ],
        attributes: seq![
            (AttributeView { key: "method"@, value: "purchase_agent"@ }),
            (AttributeView { key: "agent_id"@, value: dec_of(agent.id as int) }),
            (AttributeView { key: "buyer"@, value: buyer }),
            (AttributeView { key: "seller"@, value: agent.owner }),
            (AttributeView { key: "price"@, value: dec_of(agent.price as int) }),
            (AttributeView { key: "fee"@, value: dec_of(fee) }),
        ],
    }
}

/// The request that creates a marketplace.
pub struct InstantiateMsg {
    pub fee_percentage: u128,
}

/// Creates an empty marketplace operated by `sender`, with the identifier
/// counter at zero and the fee percentage fixed for its lifetime.
pub fn instantiate(sender: String, msg: InstantiateMsg) -> (r: (Marketplace, Response))
    requires
        msg.fee_percentage <= 100,
    ensures
        r.0@.wf(),
        r.0@.config == (ConfigView { owner: sender@, fee_percentage: msg.fee_percentage }),
        r.0@.agent_count == 0,
        r.0@.agents == Seq::<AgentInfoView>::empty(),
        r.1@ == instantiate_response(sender@, msg.fee_percentage),
{
    let mut resp = Response::new();
    resp.add_attribute("method", String::from_str("instantiate"));
    let ghost owner_view = sender@;
    let market = Marketplace {
        config: Config { owner: sender.clone(), fee_percentage: msg.fee_percentage },
        agent_count: 0,
        agents: Vec::new(),
    };
    resp.add_attribute("owner", sender);
    resp.add_attribute("fee_percentage", u128_to_string(msg.fee_percentage));
    proof {
        assert(market@.agents =~= Seq::<AgentInfoView>::empty());
        assert(resp@.attributes =~= instantiate_response(
            owner_view,
            msg.fee_percentage,
        ).attributes);
        assert(resp@.messages =~= Seq::<BankTransferView>::empty());
    }
    (market, resp)
}

/// The complete effect of a successful listing creation: the record
/// appended with the next identifier, active, and the counter advanced.
pub open spec fn execute_list_agent_post(
    pre: MarketplaceView,
    post: MarketplaceView,
    r: Result<Response, ContractError>,
    sender: Seq<char>,
    name: Seq<char>,
    description: Seq<char>,
    price: u128,
    category: Seq<char>,
) -> bool {
    let id = (pre.agent_count + 1) as u64;
    let agent = AgentInfoView {
        id,
        owner: sender,
        name,
        description,
        price,
        category,
        is_active: true,
    };
    &&& post.config == pre.config
    &&& post.agent_count == pre.agent_count + 1
    &&& post.agents == pre.agents.push(agent)
    &&& r matches Ok(resp) && resp@ == list_response(id, sender)
}

/// The listing after a sparse update: each provided field overwrites the
/// stored one, absent fields are left untouched. Identifier, owner, and
/// lifecycle flag never change.
pub open spec fn updated_agent(
    a: AgentInfoView,
    name: Option<Seq<char>>,
    description: Option<Seq<char>>,
    price: Option<u128>,
    category: Option<Seq<char>>,
) -> AgentInfoView {
    AgentInfoView {
        id: a.id,
        owner: a.owner,
        name: match name {
            Some(n) => n,
            None => a.name,
        },
        description: match description {
            Some(d) => d,
            None => a.description,
        },
        price: match price {
            Some(x) => x,
            None => a.price,
        },
        category: match category {
            Some(c) => c,
            None => a.category,
        },
        is_active: a.is_active,
    }
}

/// The complete effect of an update request: `NotFound` exactly when no
/// listing exists at the identifier, `Unauthorized` exactly when the caller
/// is not the owner (both leaving the store unchanged), and otherwise the
/// single listing rewritten by `updated_agent`.
pub open spec fn execute_update_agent_post(
    pre: MarketplaceView,
    post: MarketplaceView,
    r: Result<Response, ContractError>,
    sender: Seq<char>,
    agent_id: u64,
    name: Option<Seq<char>>,
    description: Option<Seq<char>>,
    price: Option<u128>,
    category: Option<Seq<char>>,
) -> bool {
    &&& post.config == pre.config
    &&& post.agent_count == pre.agent_count
    &&& if !pre.has_agent(agent_id) {
        r == Err::<Response, ContractError>(ContractError::NotFound) && post == pre
    } else if pre.agent(agent_id).owner != sender {
        r == Err::<Response, ContractError>(ContractError::Unauthorized) && post == pre
    } else {
        &&& post.agents == pre.agents.update(
            agent_id - 1,
            updated_agent(pre.agent(agent_id), name, description, price, category),
        )
        &&& r matches Ok(resp) && resp@ == method_response("update_agent"@, agent_id)
    }
}

/// The complete effect of a removal request: a soft delete. The listing is
/// marked inactive — never erased — with the same authorization semantics
/// as an update; removing an already-inactive listing is idempotent.
pub open spec fn execute_remove_agent_post(
    pre: MarketplaceView,
    post: MarketplaceView,
    r: Result<Response, ContractError>,
    sender: Seq<char>,
    agent_id: u64,
) -> bool {
    &&& post.config == pre.config
    &&& post.agent_count == pre.agent_count
    &&& if !pre.has_agent(agent_id) {
        r == Err::<Response, ContractError>(ContractError::NotFound) && post == pre
    } else if pre.agent(agent_id).owner != sender {
        r == Err::<Response, ContractError>(ContractError::Unauthorized) && post == pre
    } else {
        &&& post.agents == pre.agents.update(
            agent_id - 1,
            (AgentInfoView { is_active: false, ..pre.agent(agent_id) }),
        )
        &&& r matches Ok(resp) && resp@ == method_response("remove_agent"@, agent_id)
    }
}

/// The complete effect of a purchase request on the (unchanged) store
/// `m`: each failure comes exactly on the inputs that cause it — a missing
/// listing, an inactive listing, no payment of the accepted denomination,
/// a payment below the price — and with no error the result carries
/// exactly the two transfers of `purchase_response`.
pub open spec fn execute_purchase_agent_post(
    m: MarketplaceView,
    r: Result<Response, ContractError>,
    sender: Seq<char>,
    funds: Seq<Coin>,
    agent_id: u64,
) -> bool {
    &&& !m.has_agent(agent_id) ==> r == Err::<Response, ContractError>(ContractError::NotFound)
    &&& m.has_agent(agent_id) && !m.agent(agent_id).is_active ==> r == Err::<
        Response,
        ContractError,
    >(ContractError::ListingInactive)
    &&& m.has_agent(agent_id) && m.agent(agent_id).is_active && find_payment(funds, 0) is None
        ==> r == Err::<Response, ContractError>(ContractError::NoFunds)
    &&& m.has_agent(agent_id) && m.agent(agent_id).is_active && (find_payment(funds, 0) matches
    Some(c) && c.amount < m.agent(agent_id).price) ==> r == Err::<Response, ContractError>(
        ContractError::InsufficientFunds,
    )
    &&& m.has_agent(agent_id) && m.agent(agent_id).is_active && (find_payment(funds, 0) matches
    Some(c) && c.amount >= m.agent(agent_id).price) ==> (r matches Ok(resp) && resp@
        == purchase_response(m.agent(agent_id), m.config, sender))
}

/// Rewriting one listing in place, without touching its identifier, keeps
/// the marketplace well-formed.
proof fn lemma_single_update_wf(pre: MarketplaceView, post: MarketplaceView, agent_id: u64)
    requires
        pre.wf(),
        pre.has_agent(agent_id),
        post.config == pre.config,
        post.agent_count == pre.agent_count,
        post.agents.len() == pre.agents.len(),
        post.agents == pre.agents.update(agent_id - 1, post.agents[agent_id - 1]),
        post.agents[agent_id - 1].id == agent_id,
    ensures
        post.wf(),
{
}

impl Marketplace {
    /// Lists a new agent for sale by `sender`: assigns the next identifier
    /// and stores the listing as active.
    pub fn execute_list_agent(
        &mut self,
        sender: String,
        name: String,
        description: String,
        price: u128,
        category: String,
    ) -> (r: Result<Response, ContractError>)
        requires
            old(self)@.wf(),
            old(self).agent_count < u64::MAX,
        ensures
            final(self)@.wf(),
            execute_list_agent_post(
                old(self)@,
                final(self)@,
                r,
                sender@,
                name@,
                description@,
                price,
                category@,
            ),
    {
        let ghost pre = self@;
        let agent_id = self.agent_count + 1;
        self.agent_count = agent_id;
        let agent = AgentInfo {
            id: agent_id,
            owner: sender.clone(),
            name,
            description,
            price,
            category,
            is_active: true,
        };
        let ghost agent_view = agent@;
        self.agents.push(agent);
        proof {
            assert(self@.agents =~= pre.agents.push(agent_view));
        }
        let mut resp = Response::new();
        resp.add_attribute("method", String::from_str("list_agent"));
        resp.add_attribute("agent_id", u64_to_string(agent_id));
        resp.add_attribute("owner", sender);
        proof {
            assert(resp@.attributes =~= list_response(agent_id, sender@).attributes);
            assert(resp@.messages =~= Seq::<BankTransferView>::empty());
        }
        Ok(resp)
    }

    /// Updates the provided fields of the listing at `agent_id`, if the
    /// caller owns it. Updating is a sparse overwrite: absent fields stay.
    pub fn execute_update_agent(
        &mut self,
        sender: String,
        agent_id: u64,
        name: Option<String>,
        description: Option<String>,
        price: Option<u128>,
        category: Option<String>,
    ) -> (r: Result<Response, ContractError>)
        requires
            old(self)@.wf(),
        ensures
            final(self)@.wf(),
            execute_update_agent_post(
                old(self)@,
                final(self)@,
                r,
                sender@,
                agent_id,
                name.deep_view(),
                description.deep_view(),
                price,
                category.deep_view(),
            ),
    {
        let ghost pre = self@;
        let n_agents = self.agents.len();
        if agent_id < 1 || agent_id > self.agent_count {
            return Err(ContractError::NotFound);
        }
        proof {
            assert(agent_id - 1 < n_agents as int);
        }
        let idx = (agent_id - 1) as usize;
        if !(self.agents[idx].owner == sender) {
            proof {
                assert(pre.agent(agent_id) == self.agents@[idx as int]@);
            }
            return Err(ContractError::Unauthorized);
        }
        let ghost vec_pre = self.agents@;
        let mut agent = self.agents.remove(idx);
        if let Some(n) = name {
            agent.name = n;
        }
        if let Some(d) = description {
            agent.description = d;
        }
        if let Some(x) = price {
            agent.price = x;
        }
        if let Some(c) = category {
            agent.category = c;
        }
        let ghost a_snap = agent;
        let ghost agent_view = agent@;
        self.agents.insert(idx, agent);
        proof {
            assert(self.agents@ =~= vec_pre.update(agent_id - 1, a_snap));
            assert forall|i: int| 0 <= i < self@.agents.len() implies self@.agents[i]
                == pre.agents.update(agent_id - 1, agent_view)[i] by {
                if i != agent_id - 1 {
                    assert(self.agents@[i] == vec_pre[i]);
                }
            }
            assert(self@.agents =~= pre.agents.update(agent_id - 1, agent_view));
            assert(agent_view == updated_agent(
                pre.agent(agent_id),
                name.deep_view(),
                description.deep_view(),
                price,
                category.deep_view(),
            ));
            lemma_single_update_wf(pre, self@, agent_id);
        }
        let mut resp = Response::new();
        resp.add_attribute("method", String::from_str("update_agent"));
        resp.add_attribute("agent_id", u64_to_string(agent_id));
        proof {
            assert(resp@.attributes =~= method_response("update_agent"@, agent_id).attributes);
            assert(resp@.messages =~= Seq::<BankTransferView>::empty());
        }
        Ok(resp)
    }

    /// Removes the listing at `agent_id` from sale, if the caller owns it:
    /// a soft delete that marks it inactive. The listing stays stored and
    /// fetchable by identifier; there is no reactivation path.
    pub fn execute_remove_agent(&mut self, sender: String, agent_id: u64) -> (r: Result<
        Response,
        ContractError,
    >)
        requires
            old(self)@.wf(),
        ensures
            final(self)@.wf(),
            execute_remove_agent_post(old(self)@, final(self)@, r, sender@, agent_id),
    {
        let ghost pre = self@;
        let n_agents = self.agents.len();
        if agent_id < 1 || agent_id > self.agent_count {
            return Err(ContractError::NotFound);
        }
        proof {
            assert(agent_id - 1 < n_agents as int);
        }
        let idx = (agent_id - 1) as usize;
        if !(self.agents[idx].owner == sender) {
            proof {
                assert(pre.agent(agent_id) == self.agents@[idx as int]@);
            }
            return Err(ContractError::Unauthorized);
        }
        let ghost vec_pre = self.agents@;
        let mut agent = self.agents.remove(idx);
        agent.is_active = false;
        let ghost a_snap = agent;
        let ghost agent_view = agent@;
        self.agents.insert(idx, agent);
        proof {
            assert(self.agents@ =~= vec_pre.update(agent_id - 1, a_snap));
            assert forall|i: int| 0 <= i < self@.agents.len() implies self@.agents[i]
                == pre.agents.update(agent_id - 1, agent_view)[i] by {
                if i != agent_id - 1 {
                    assert(self.agents@[i] == vec_pre[i]);
                }
            }
            assert(self@.agents =~= pre.agents.update(agent_id - 1, agent_view));
            assert(agent_view == (AgentInfoView { is_active: false, ..pre.agent(agent_id) }));
            lemma_single_update_wf(pre, self@, agent_id);
        }
        let mut resp = Response::new();
        resp.add_attribute("method", String::from_str("remove_agent"));
        resp.add_attribute("agent_id", u64_to_string(agent_id));
        proof {
            assert(resp@.attributes =~= method_response("remove_agent"@, agent_id).attributes);
            assert(resp@.messages =~= Seq::<BankTransferView>::empty());
        }
        Ok(resp)
    }

    /// Settles a purchase of the listing at `agent_id` by `sender` paying
    /// with `funds`. All checks precede any effect: on any failure no
    /// transfer is issued and the store (taken immutably) is untouched. On
    /// success the response carries exactly the two transfers that split
    /// the price between seller and operator. Overpayment is accepted and
    /// not refunded; the transfer amounts are computed from the price
    /// alone. The listing stays active and purchasable.
    pub fn execute_purchase_agent(&self, sender: String, funds: Vec<Coin>, agent_id: u64) -> (r:
        Result<Response, ContractError>)
        requires
            self@.wf(),
        ensures
            execute_purchase_agent_post(self@, r, sender@, funds@, agent_id),
    {
        let n_agents = self.agents.len();
        if agent_id < 1 || agent_id > self.agent_count {
            return Err(ContractError::NotFound);
        }
        proof {
            assert(agent_id - 1 < n_agents as int);
        }
        let idx = (agent_id - 1) as usize;
        let agent = &self.agents[idx];
        proof {
            assert(self@.agent(agent_id) == self.agents@[idx as int]@);
        }
        if !agent.is_active {
            return Err(ContractError::ListingInactive);
        }
        let payment = match find_accepted_payment(&funds) {
            Some(c) => c,
            None => {
                return Err(ContractError::NoFunds);
            },
        };
        if payment.amount < agent.price {
            return Err(ContractError::InsufficientFunds);
        }
        let fee_amount = compute_fee(agent.price, self.config.fee_percentage);
        let seller_amount = agent.price - fee_amount;
        let mut resp = Response::new();
        resp.add_message(
            BankTransfer {
                to_address: agent.owner.clone(),
                denom: String::from_str("inj"),
                amount: seller_amount,
            },
        );
        resp.add_message(
            BankTransfer {
                to_address: self.config.owner.clone(),
                denom: String::from_str("inj"),
                amount: fee_amount,
            },
        );
        resp.add_attribute("method", String::from_str("purchase_agent"));
        resp.add_attribute("agent_id", u64_to_string(agent_id));
        resp.add_attribute("buyer", sender);
        resp.add_attribute("seller", agent.owner.clone());
        resp.add_attribute("price", u128_to_string(agent.price));
        resp.add_attribute("fee", u128_to_string(fee_amount));
        proof {
            let expected = purchase_response(self@.agent(agent_id), self@.config, sender@);
            assert(resp@.messages =~= expected.messages);
            assert(resp@.attributes =~= expected.attributes);
        }
        Ok(resp)
    }
}

/// A single listing, as returned by a point query.
#[derive(Debug)]
pub struct AgentResponse {
    pub agent: AgentInfo,
}

impl View for AgentResponse {
    type V = AgentInfoView;

    open spec fn view(&self) -> AgentInfoView {
        self.agent@
    }
}

/// A page of listings, as returned by a browse query.
#[derive(Debug)]
pub struct AgentsResponse {
    pub agents: Vec<AgentInfo>,
}

impl View for AgentsResponse {
    type V = Seq<AgentInfoView>;

    open spec fn view(&self) -> Seq<AgentInfoView> {
        self.agents@.map_values(|a: AgentInfo| a@)
    }
}

/// The browse filter: only active listings are offered for sale.
pub open spec fn active_pred() -> spec_fn(AgentInfoView) -> bool {
    |a: AgentInfoView| a.is_active
}

/// What a browse returns: up to the limit of *active* listings — the limit
/// bounds the results, not the identifiers scanned — in ascending
/// identifier order, resuming just after `start_after`.
pub open spec fn list_agents_spec(
    m: MarketplaceView,
    start_after: Option<u64>,
    limit: Option<u32>,
) -> Seq<AgentInfoView> {
    page_from(m.agents, start_index(start_after), effective_limit(limit), active_pred())
}

impl Marketplace {
    /// Fetches the listing at `agent_id`. Point lookups ignore the active
    /// flag: a removed listing is still fetchable.
    pub fn query_agent(&self, agent_id: u64) -> (r: Result<AgentResponse, ContractError>)
        requires
            self@.wf(),
        ensures
            self@.has_agent(agent_id) ==> (r matches Ok(a) && a@ == self@.agent(agent_id)),
            !self@.has_agent(agent_id) ==> r == Err::<AgentResponse, ContractError>(
                ContractError::NotFound,
            ),
    {
        let n_agents = self.agents.len();
        if agent_id < 1 || agent_id > self.agent_count {
            return Err(ContractError::NotFound);
        }
        proof {
            assert(agent_id - 1 < n_agents as int);
        }
        let idx = (agent_id - 1) as usize;
        Ok(AgentResponse { agent: self.agents[idx].clone() })
    }

    /// Browses up to `limit` (default 10) active listings in ascending
    /// identifier order, resuming just after `start_after` if given.
    /// Inactive listings are skipped without counting toward the limit.
    pub fn list_agents(&self, start_after: Option<u64>, limit: Option<u32>) -> (r: AgentsResponse)
        requires
            self@.wf(),
        ensures
            r@ == list_agents_spec(self@, start_after, limit),
    {
        let n = self.agents.len();
        let lim: usize = match limit {
            Some(l) => l as usize,
            None => 10,
        };
        let start: usize = match start_after {
            Some(s) => if s >= n as u64 {
                n
            } else {
                s as usize
            },
            None => 0,
        };
        let ghost s = self@.agents;
        let ghost p = active_pred();
        let ghost full = page_from(s, start_index(start_after), lim as int, p);
        proof {
            if start_index(start_after) != start as int {
                assert(start_index(start_after) >= s.len());
                assert(full == Seq::<AgentInfoView>::empty());
                assert(page_from(s, start as int, lim as int, p) == Seq::<AgentInfoView>::empty());
            }
        }
        let mut agents: Vec<AgentInfo> = Vec::new();
        let mut idx: usize = start;
        while idx < n && agents.len() < lim
            invariant
                self@.wf(),
                s == self@.agents,
                p == active_pred(),
                full == page_from(s, start_index(start_after), lim as int, p),
                start <= idx <= n,
                n == self.agents.len(),
                agents.len() <= lim,
                full == agents@.map_values(|a: AgentInfo| a@) + page_from(
                    s,
                    idx as int,
                    lim - agents.len(),
                    p,
                ),
            decreases n - idx,
        {
            let ghost prev = agents@.map_values(|a: AgentInfo| a@);
            let ghost rem = lim - agents.len();
            if self.agents[idx].is_active {
                agents.push(self.agents[idx].clone());
                proof {
                    assert(p(s[idx as int]));
                    assert(page_from(s, idx as int, rem, p) == seq![s[idx as int]] + page_from(
                        s,
                        idx + 1,
                        rem - 1,
                        p,
                    ));
                    assert(agents@.map_values(|a: AgentInfo| a@) =~= prev.push(s[idx as int]));
                    assert(prev + page_from(s, idx as int, rem, p) =~= prev.push(s[idx as int])
                        + page_from(s, idx + 1, rem - 1, p));
                }
            } else {
                proof {
                    assert(!p(s[idx as int]));
                    assert(page_from(s, idx as int, rem, p) == page_from(s, idx + 1, rem, p));
                }
            }
            idx = idx + 1;
        }
        proof {
            assert(page_from(s, idx as int, lim - agents.len(), p)
                == Seq::<AgentInfoView>::empty());
            assert(full =~= agents@.map_values(|a: AgentInfo| a@));
        }
        let r = AgentsResponse { agents };
        proof {
            assert(r@ == full);
        }
        r
    }
}

/// The marketplace's mutating operations.
pub enum ExecuteMsg {
    ListAgent { name: String, description: String, price: u128, category: String },
    UpdateAgent {
        agent_id: u64,
        name: Option<String>,
        description: Option<String>,
        price: Option<u128>,
        category: Option<String>,
    },
    RemoveAgent { agent_id: u64 },
    PurchaseAgent { agent_id: u64 },
}

/// The marketplace's read-only operations.
pub enum QueryMsg {
    GetAgent { agent_id: u64 },
    ListAgents { start_after: Option<u64>, limit: Option<u32> },
}

/// The typed answer to a query; the host serializes it.
#[derive(Debug)]
pub enum QueryResponse {
    Agent(AgentResponse),
    Agents(AgentsResponse),
}

impl Marketplace {
    /// Dispatches a mutating request for the already-authenticated caller
    /// `sender`, carrying the funds attached to the request.
    pub fn execute(&mut self, sender: String, funds: Vec<Coin>, msg: ExecuteMsg) -> (r: Result<
        Response,
        ContractError,
    >)
        requires
            old(self)@.wf(),
            msg is ListAgent ==> old(self).agent_count < u64::MAX,
        ensures
            final(self)@.wf(),
            match msg {
                ExecuteMsg::ListAgent { name, description, price, category } =>
                    execute_list_agent_post(
                    old(self)@,
                    final(self)@,
                    r,
                    sender@,
                    name@,
                    description@,
                    price,
                    category@,
                ),
                ExecuteMsg::UpdateAgent { agent_id, name, description, price, category } =>
                    execute_update_agent_post(
                    old(self)@,
                    final(self)@,
                    r,
                    sender@,
                    agent_id,
                    name.deep_view(),
                    description.deep_view(),
                    price,
                    category.deep_view(),
                ),
                ExecuteMsg::RemoveAgent { agent_id } => execute_remove_agent_post(
                    old(self)@,
                    final(self)@,
                    r,
                    sender@,
                    agent_id,
                ),
                ExecuteMsg::PurchaseAgent { agent_id } => final(self)@ == old(self)@
                    && execute_purchase_agent_post(old(self)@, r, sender@, funds@, agent_id),
            },
    {
        match msg {
            ExecuteMsg::ListAgent { name, description, price, category } => self
                .execute_list_agent(sender, name, description, price, category),
            ExecuteMsg::UpdateAgent { agent_id, name, description, price, category } => self
                .execute_update_agent(sender, agent_id, name, description, price, category),
            ExecuteMsg::RemoveAgent { agent_id } => self.execute_remove_agent(sender, agent_id),
            ExecuteMsg::PurchaseAgent { agent_id } => self.execute_purchase_agent(
                sender,
                funds,
                agent_id,
            ),
        }
    }

    /// Dispatches a read-only request. Reads need no authorization.
    pub fn query(&self, msg: QueryMsg) -> (r: Result<QueryResponse, ContractError>)
        requires
            self@.wf(),
        ensures
            match msg {
                QueryMsg::GetAgent { agent_id } => {
                    &&& self@.has_agent(agent_id) ==> (r matches Ok(QueryResponse::Agent(a))
                        && a@ == self@.agent(agent_id))
                    &&& !self@.has_agent(agent_id) ==> r == Err::<QueryResponse, ContractError>(
                        ContractError::NotFound,
                    )
                },
                QueryMsg::ListAgents { start_after, limit } => (r matches Ok(
                    QueryResponse::Agents(a),
                ) && a@ == list_agents_spec(self@, start_after, limit)),
            },
    {
        match msg {
            QueryMsg::GetAgent { agent_id } => match self.query_agent(agent_id) {
                Ok(a) => Ok(QueryResponse::Agent(a)),
                Err(e) => Err(e),
            },
            QueryMsg::ListAgents { start_after, limit } => Ok(
                QueryResponse::Agents(self.list_agents(start_after, limit)),
            ),
        }
    }
}

/// Identifiers are issued strictly increasing and unique, with no gaps: in
/// a well-formed marketplace the listing at position `i` carries identifier
/// `i + 1`.
pub proof fn lemma_identifiers_strictly_increasing(m: MarketplaceView)
    requires
        m.wf(),
    ensures
        forall|i: int, j: int|
            0 <= i < j < m.agents.len() ==> (#[trigger] m.agents[i]).id < (
            #[trigger] m.agents[j]).id,
        forall|id: u64| 1 <= id <= m.agent_count ==> m.has_agent(id),
{
}

/// Every listing a browse returns is active and stored: removed (inactive)
/// listings never appear in browse results, though they stay fetchable by
/// identifier.
pub proof fn lemma_browse_excludes_inactive(
    m: MarketplaceView,
    start_after: Option<u64>,
    limit: Option<u32>,
)
    requires
        m.wf(),
    ensures
        forall|k: int|
            0 <= k < list_agents_spec(m, start_after, limit).len() ==> (#[trigger] list_agents_spec(
                m,
                start_after,
                limit,
            )[k]).is_active,
        forall|k: int|
            0 <= k < list_agents_spec(m, start_after, limit).len() ==> m.has_agent(
                #[trigger] list_agents_spec(m, start_after, limit)[k].id,
            ),
{
    let s = m.agents;
    let p = active_pred();
    let i = start_index(start_after);
    let l = effective_limit(limit);
    lemma_page_elements(s, i, l, p);
    assert forall|k: int| 0 <= k < list_agents_spec(m, start_after, limit).len() implies (
    #[trigger] list_agents_spec(m, start_after, limit)[k]).is_active && m.has_agent(
        list_agents_spec(m, start_after, limit)[k].id,
    ) by {
        assert(p(page_from(s, i, l, p)[k]));
        let j = choose|j: int| i <= j < s.len() && s[j] == page_from(s, i, l, p)[k];
        assert(s[j].id == j + 1);
    }
}

/// Browse pagination chains without gaps or repeats: a full page followed
/// by the page resuming after its last identifier is exactly the single
/// larger page, with inactive listings skipped consistently.
pub proof fn lemma_browse_pages_chain(
    m: MarketplaceView,
    start_after: Option<u64>,
    l1: u32,
    l2: u32,
)
    requires
        m.wf(),
        0 < l1,
        l1 + l2 <= u32::MAX,
        list_agents_spec(m, start_after, Some(l1)).len() == l1,
    ensures
        ({
            let p1 = list_agents_spec(m, start_after, Some(l1));
            p1 + list_agents_spec(m, Some(p1.last().id), Some(l2)) == list_agents_spec(
                m,
                start_after,
                Some((l1 + l2) as u32),
            )
        }),
{
    let s = m.agents;
    let p = active_pred();
    let i = start_index(start_after);
    let p1 = list_agents_spec(m, start_after, Some(l1));
    assert(i <= s.len()) by {
        if i > s.len() {
            assert(p1 == Seq::<AgentInfoView>::empty());
        }
    }
    lemma_page_last(s, i, l1 as int, p);
    let e = crate::pagination::page_end(s, i, l1 as int, p);
    assert(p1.last() == s[e - 1]);
    assert(s[e - 1].id == e);
    lemma_page_concat(s, i, l1 as int, l2 as int, p);
}

/// A browse page shorter than its limit is the final page: it holds every
/// remaining active listing, so chaining pages until a short page
/// reproduces the active-filtered sequence exactly once.
pub proof fn lemma_browse_final_page(m: MarketplaceView, start_after: Option<u64>, l: u32)
    requires
        m.wf(),
        list_agents_spec(m, start_after, Some(l)).len() < l,
    ensures
        list_agents_spec(m, start_after, Some(l)) == filtered_from(
            m.agents,
            start_index(start_after),
            active_pred(),
        ),
{
    let s = m.agents;
    let p = active_pred();
    let i = start_index(start_after);
    if i > s.len() {
        assert(list_agents_spec(m, start_after, Some(l)) == Seq::<AgentInfoView>::empty());
        assert(filtered_from(s, i, p) == Seq::<AgentInfoView>::empty());
    } else {
        lemma_page_exhausted(s, i, l as int, p);
    }
}

} // verus!
