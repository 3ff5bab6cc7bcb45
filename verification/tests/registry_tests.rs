use agent_market::registry::{
    instantiate, AgentsResponse, ContractError, ExecuteMsg, InstantiateMsg, QueryMsg,
    QueryResponse, Registry,
};

fn s(x: &str) -> String {
    x.to_string()
}

fn fresh_registry() -> Registry {
    let (reg, resp) = instantiate(s("deployer"), InstantiateMsg {});
    assert_eq!(resp.attributes.len(), 2);
    assert_eq!(resp.attributes[0].key, "method");
    assert_eq!(resp.attributes[0].value, "instantiate");
    assert_eq!(resp.attributes[1].value, "deployer");
    reg
}

fn register(reg: &mut Registry, owner: &str, name: &str, now: u64) -> u64 {
    let resp = reg
        .execute_register_agent(s(owner), now, s(name), s("desc"), s("{}"))
        .unwrap();
    resp.attributes[1].value.parse::<u64>().unwrap()
}

#[test]
fn register_assigns_sequential_ids() {
    let mut reg = fresh_registry();
    assert_eq!(register(&mut reg, "alice", "a1", 100), 1);
    assert_eq!(register(&mut reg, "bob", "b1", 101), 2);
    assert_eq!(register(&mut reg, "alice", "a2", 102), 3);
    assert_eq!(reg.agent_count, 3);
    let a = reg.query_agent(2).unwrap();
    assert_eq!(a.agent.id, 2);
    assert_eq!(a.agent.owner, "bob");
    assert!(a.agent.is_active);
    assert_eq!(a.agent.created_at, 101);
    assert_eq!(a.agent.updated_at, 101);
}

#[test]
fn register_emits_attributes() {
    let mut reg = fresh_registry();
    let resp = reg
        .execute_register_agent(s("alice"), 7, s("n"), s("d"), s("c"))
        .unwrap();
    assert!(resp.messages.is_empty());
    assert_eq!(resp.attributes.len(), 3);
    assert_eq!(resp.attributes[0].key, "method");
    assert_eq!(resp.attributes[0].value, "register_agent");
    assert_eq!(resp.attributes[1].key, "agent_id");
    assert_eq!(resp.attributes[1].value, "1");
    assert_eq!(resp.attributes[2].key, "owner");
    assert_eq!(resp.attributes[2].value, "alice");
}

#[test]
fn update_by_non_owner_is_unauthorized_and_leaves_record_unchanged() {
    let mut reg = fresh_registry();
    let id = register(&mut reg, "alice", "original", 100);
    let r = reg.execute_update_agent(
        s("bob"),
        200,
        id,
        Some(s("hijacked")),
        None,
        None,
    );
    assert_eq!(r.unwrap_err(), ContractError::Unauthorized);
    let a = reg.query_agent(id).unwrap().agent;
    assert_eq!(a.name, "original");
    assert_eq!(a.owner, "alice");
    assert_eq!(a.updated_at, 100);
}

#[test]
fn update_applies_only_provided_fields() {
    let mut reg = fresh_registry();
    let id = register(&mut reg, "alice", "old-name", 100);
    reg.execute_update_agent(s("alice"), 150, id, None, Some(s("new-desc")), None)
        .unwrap();
    let a = reg.query_agent(id).unwrap().agent;
    assert_eq!(a.name, "old-name");
    assert_eq!(a.description, "new-desc");
    assert_eq!(a.configuration, "{}");
    assert_eq!(a.created_at, 100);
    assert_eq!(a.updated_at, 150);
}

#[test]
fn update_with_no_fields_still_bumps_updated_at() {
    let mut reg = fresh_registry();
    let id = register(&mut reg, "alice", "n", 100);
    reg.execute_update_agent(s("alice"), 175, id, None, None, None)
        .unwrap();
    let a = reg.query_agent(id).unwrap().agent;
    assert_eq!(a.name, "n");
    assert_eq!(a.updated_at, 175);
}

#[test]
fn update_missing_record_is_not_found() {
    let mut reg = fresh_registry();
    let r = reg.execute_update_agent(s("alice"), 10, 42, Some(s("x")), None, None);
    assert_eq!(r.unwrap_err(), ContractError::NotFound);
}

#[test]
fn deactivate_and_activate_flip_the_flag_idempotently() {
    let mut reg = fresh_registry();
    let id = register(&mut reg, "alice", "n", 100);
    reg.execute_deactivate_agent(s("alice"), 110, id).unwrap();
    assert!(!reg.query_agent(id).unwrap().agent.is_active);
    reg.execute_deactivate_agent(s("alice"), 120, id).unwrap();
    assert!(!reg.query_agent(id).unwrap().agent.is_active);
    reg.execute_activate_agent(s("alice"), 130, id).unwrap();
    let a = reg.query_agent(id).unwrap().agent;
    assert!(a.is_active);
    assert_eq!(a.updated_at, 130);
    reg.execute_activate_agent(s("alice"), 140, id).unwrap();
    assert!(reg.query_agent(id).unwrap().agent.is_active);
}

#[test]
fn lifecycle_by_non_owner_is_unauthorized() {
    let mut reg = fresh_registry();
    let id = register(&mut reg, "alice", "n", 100);
    let r = reg.execute_deactivate_agent(s("mallory"), 110, id);
    assert_eq!(r.unwrap_err(), ContractError::Unauthorized);
    assert!(reg.query_agent(id).unwrap().agent.is_active);
    let r = reg.execute_activate_agent(s("mallory"), 110, id);
    assert_eq!(r.unwrap_err(), ContractError::Unauthorized);
}

#[test]
fn query_agent_not_found() {
    let reg = fresh_registry();
    assert_eq!(reg.query_agent(1).unwrap_err(), ContractError::NotFound);
    assert_eq!(
        reg.query_agent(1).unwrap_err().message(),
        "agent not found"
    );
}

#[test]
fn list_agents_default_limit_is_ten() {
    let mut reg = fresh_registry();
    for i in 0..12u64 {
        register(&mut reg, "alice", &format!("a{}", i), 100 + i);
    }
    let page = reg.list_agents(None, None);
    assert_eq!(page.agents.len(), 10);
    assert_eq!(page.agents[0].id, 1);
    assert_eq!(page.agents[9].id, 10);
}

#[test]
fn list_agents_pagination_chains_25_records_limit_10() {
    let mut reg = fresh_registry();
    for i in 0..25u64 {
        register(&mut reg, "alice", &format!("a{}", i), 100 + i);
    }
    let p1 = reg.list_agents(None, Some(10));
    assert_eq!(p1.agents.len(), 10);
    let p2 = reg.list_agents(Some(p1.agents.last().unwrap().id), Some(10));
    assert_eq!(p2.agents.len(), 10);
    let p3 = reg.list_agents(Some(p2.agents.last().unwrap().id), Some(10));
    assert_eq!(p3.agents.len(), 5);
    let mut all: Vec<u64> = Vec::new();
    for page in [&p1, &p2, &p3] {
        for a in &page.agents {
            all.push(a.id);
        }
    }
    assert_eq!(all.len(), 25);
    for (i, id) in all.iter().enumerate() {
        assert_eq!(*id, i as u64 + 1);
    }
    let p4 = reg.list_agents(Some(25), Some(10));
    assert!(p4.agents.is_empty());
}

#[test]
fn listing_an_empty_registry_is_empty() {
    let reg = fresh_registry();
    assert!(reg.list_agents(None, None).agents.is_empty());
    assert!(reg.list_owner_agents(s("alice"), None, None).agents.is_empty());
}

#[test]
fn list_agents_with_zero_limit_is_empty() {
    let mut reg = fresh_registry();
    register(&mut reg, "alice", "n", 100);
    assert!(reg.list_agents(None, Some(0)).agents.is_empty());
}

#[test]
fn list_agents_start_after_past_end_is_empty() {
    let mut reg = fresh_registry();
    register(&mut reg, "alice", "n", 100);
    assert!(reg.list_agents(Some(u64::MAX), Some(10)).agents.is_empty());
}

#[test]
fn list_owner_agents_filters_by_owner_in_creation_order() {
    let mut reg = fresh_registry();
    register(&mut reg, "alice", "a1", 100);
    register(&mut reg, "bob", "b1", 101);
    register(&mut reg, "alice", "a2", 102);
    register(&mut reg, "alice", "a3", 103);
    let page = reg.list_owner_agents(s("alice"), None, None);
    let ids: Vec<u64> = page.agents.iter().map(|a| a.id).collect();
    assert_eq!(ids, vec![1, 3, 4]);
    let page = reg.list_owner_agents(s("bob"), None, None);
    let ids: Vec<u64> = page.agents.iter().map(|a| a.id).collect();
    assert_eq!(ids, vec![2]);
    assert!(reg
        .list_owner_agents(s("carol"), None, None)
        .agents
        .is_empty());
}

#[test]
fn list_owner_agents_resumes_after_cursor() {
    let mut reg = fresh_registry();
    register(&mut reg, "alice", "a1", 100);
    register(&mut reg, "bob", "b1", 101);
    register(&mut reg, "alice", "a2", 102);
    register(&mut reg, "alice", "a3", 103);
    let page = reg.list_owner_agents(s("alice"), Some(3), Some(10));
    let ids: Vec<u64> = page.agents.iter().map(|a| a.id).collect();
    assert_eq!(ids, vec![4]);
    let page = reg.list_owner_agents(s("alice"), Some(1), Some(1));
    let ids: Vec<u64> = page.agents.iter().map(|a| a.id).collect();
    assert_eq!(ids, vec![3]);
}

#[test]
fn list_owner_agents_absent_cursor_restarts_from_beginning() {
    let mut reg = fresh_registry();
    register(&mut reg, "alice", "a1", 100);
    register(&mut reg, "alice", "a2", 101);
    let page = reg.list_owner_agents(s("alice"), Some(99), Some(10));
    let ids: Vec<u64> = page.agents.iter().map(|a| a.id).collect();
    assert_eq!(ids, vec![1, 2]);
}

#[test]
fn deactivated_records_stay_in_owner_list_and_store() {
    let mut reg = fresh_registry();
    let id = register(&mut reg, "alice", "n", 100);
    reg.execute_deactivate_agent(s("alice"), 110, id).unwrap();
    let page = reg.list_owner_agents(s("alice"), None, None);
    assert_eq!(page.agents.len(), 1);
    assert!(!page.agents[0].is_active);
    assert!(!reg.query_agent(id).unwrap().agent.is_active);
}

#[test]
fn execute_dispatches_by_message() {
    let mut reg = fresh_registry();
    let resp = reg
        .execute(
            s("alice"),
            100,
            ExecuteMsg::RegisterAgent {
                name: s("n"),
                description: s("d"),
                configuration: s("c"),
            },
        )
        .unwrap();
    assert_eq!(resp.attributes[0].value, "register_agent");
    let r = reg.execute(
        s("bob"),
        110,
        ExecuteMsg::UpdateAgent {
            agent_id: 1,
            name: Some(s("x")),
            description: None,
            configuration: None,
        },
    );
    assert_eq!(r.unwrap_err(), ContractError::Unauthorized);
    let resp = reg
        .execute(s("alice"), 120, ExecuteMsg::DeactivateAgent { agent_id: 1 })
        .unwrap();
    assert_eq!(resp.attributes[0].value, "deactivate_agent");
    let resp = reg
        .execute(s("alice"), 130, ExecuteMsg::ActivateAgent { agent_id: 1 })
        .unwrap();
    assert_eq!(resp.attributes[0].value, "activate_agent");
}

#[test]
fn query_dispatches_by_message() {
    let mut reg = fresh_registry();
    register(&mut reg, "alice", "n", 100);
    match reg.query(QueryMsg::GetAgent { agent_id: 1 }).unwrap() {
        QueryResponse::Agent(a) => assert_eq!(a.agent.id, 1),
        QueryResponse::Agents(_) => panic!("expected a single record"),
    }
    match reg
        .query(QueryMsg::ListAgents { start_after: None, limit: None })
        .unwrap()
    {
        QueryResponse::Agents(AgentsResponse { agents }) => assert_eq!(agents.len(), 1),
        QueryResponse::Agent(_) => panic!("expected a page"),
    }
    match reg
        .query(QueryMsg::ListOwnerAgents {
            owner: s("alice"),
            start_after: None,
            limit: None,
        })
        .unwrap()
    {
        QueryResponse::Agents(AgentsResponse { agents }) => assert_eq!(agents.len(), 1),
        QueryResponse::Agent(_) => panic!("expected a page"),
    }
    assert_eq!(
        reg.query(QueryMsg::GetAgent { agent_id: 9 }).unwrap_err(),
        ContractError::NotFound
    );
}
