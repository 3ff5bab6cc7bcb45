use agent_market::marketplace::{
    instantiate, ContractError, ExecuteMsg, InstantiateMsg, Marketplace, QueryMsg, QueryResponse,
};
use agent_market::response::Coin;

fn s(x: &str) -> String {
    x.to_string()
}

fn inj(amount: u128) -> Vec<Coin> {
    vec![Coin { denom: s("inj"), amount }]
}

fn fresh_market(fee_percentage: u128) -> Marketplace {
    let (m, resp) = instantiate(s("operator"), InstantiateMsg { fee_percentage });
    assert_eq!(resp.attributes[0].value, "instantiate");
    assert_eq!(resp.attributes[1].value, "operator");
    assert_eq!(resp.attributes[2].key, "fee_percentage");
    m
}

fn list(m: &mut Marketplace, owner: &str, name: &str, price: u128) -> u64 {
    let resp = m
        .execute_list_agent(s(owner), s(name), s("desc"), price, s("tools"))
        .unwrap();
    resp.attributes[1].value.parse::<u64>().unwrap()
}

#[test]
fn purchase_splits_price_exactly() {
    let mut m = fresh_market(5);
    let id = list(&mut m, "seller", "agent", 100);
    let resp = m
        .execute_purchase_agent(s("buyer"), inj(100), id)
        .unwrap();
    assert_eq!(resp.messages.len(), 2);
    assert_eq!(resp.messages[0].to_address, "seller");
    assert_eq!(resp.messages[0].denom, "inj");
    assert_eq!(resp.messages[0].amount, 95);
    assert_eq!(resp.messages[1].to_address, "operator");
    assert_eq!(resp.messages[1].denom, "inj");
    assert_eq!(resp.messages[1].amount, 5);
    assert_eq!(resp.messages[0].amount + resp.messages[1].amount, 100);
    assert_eq!(resp.attributes[0].value, "purchase_agent");
    assert_eq!(resp.attributes[2].value, "buyer");
    assert_eq!(resp.attributes[3].value, "seller");
    assert_eq!(resp.attributes[4].value, "100");
    assert_eq!(resp.attributes[5].value, "5");
}

#[test]
fn purchase_fee_rounds_down() {
    let mut m = fresh_market(5);
    let id = list(&mut m, "seller", "agent", 99);
    let resp = m.execute_purchase_agent(s("buyer"), inj(99), id).unwrap();
    assert_eq!(resp.messages[1].amount, 4);
    assert_eq!(resp.messages[0].amount, 95);
    assert_eq!(resp.messages[0].amount + resp.messages[1].amount, 99);
}

#[test]
fn purchase_with_zero_fee_pays_seller_everything() {
    let mut m = fresh_market(0);
    let id = list(&mut m, "seller", "agent", 77);
    let resp = m.execute_purchase_agent(s("buyer"), inj(77), id).unwrap();
    assert_eq!(resp.messages[0].amount, 77);
    assert_eq!(resp.messages[1].amount, 0);
}

#[test]
fn purchase_with_full_fee_pays_operator_everything() {
    let mut m = fresh_market(100);
    let id = list(&mut m, "seller", "agent", 77);
    let resp = m.execute_purchase_agent(s("buyer"), inj(77), id).unwrap();
    assert_eq!(resp.messages[0].amount, 0);
    assert_eq!(resp.messages[1].amount, 77);
}

#[test]
fn purchase_with_huge_price_does_not_overflow() {
    let mut m = fresh_market(3);
    let price = u128::MAX;
    let id = list(&mut m, "seller", "agent", price);
    let resp = m
        .execute_purchase_agent(s("buyer"), inj(price), id)
        .unwrap();
    let fee = price / 100 * 3 + price % 100 * 3 / 100;
    assert_eq!(resp.messages[1].amount, fee);
    assert_eq!(resp.messages[0].amount, price - fee);
}

#[test]
fn purchase_of_missing_listing_is_not_found() {
    let m = fresh_market(5);
    let r = m.execute_purchase_agent(s("buyer"), inj(100), 1);
    assert_eq!(r.unwrap_err(), ContractError::NotFound);
}

#[test]
fn purchase_of_inactive_listing_fails_with_no_transfers() {
    let mut m = fresh_market(5);
    let id = list(&mut m, "seller", "agent", 100);
    m.execute_remove_agent(s("seller"), id).unwrap();
    let e = m
        .execute_purchase_agent(s("buyer"), inj(100), id)
        .unwrap_err();
    assert_eq!(e, ContractError::ListingInactive);
    assert_eq!(e.message(), "Agent not active");
}

#[test]
fn purchase_without_accepted_denomination_is_no_funds() {
    let mut m = fresh_market(5);
    let id = list(&mut m, "seller", "agent", 100);
    let r = m.execute_purchase_agent(
        s("buyer"),
        vec![Coin { denom: s("atom"), amount: 1000 }],
        id,
    );
    assert_eq!(r.unwrap_err(), ContractError::NoFunds);
    let r = m.execute_purchase_agent(s("buyer"), Vec::new(), id);
    assert_eq!(r.unwrap_err(), ContractError::NoFunds);
}

#[test]
fn purchase_below_price_is_insufficient_funds() {
    let mut m = fresh_market(5);
    let id = list(&mut m, "seller", "agent", 100);
    let r = m.execute_purchase_agent(s("buyer"), inj(99), id);
    assert_eq!(r.unwrap_err(), ContractError::InsufficientFunds);
}

#[test]
fn purchase_uses_first_coin_of_accepted_denomination() {
    let mut m = fresh_market(5);
    let id = list(&mut m, "seller", "agent", 100);
    let funds = vec![
        Coin { denom: s("atom"), amount: 1000 },
        Coin { denom: s("inj"), amount: 40 },
        Coin { denom: s("inj"), amount: 1000 },
    ];
    let r = m.execute_purchase_agent(s("buyer"), funds, id);
    assert_eq!(r.unwrap_err(), ContractError::InsufficientFunds);
}

#[test]
fn overpayment_is_accepted_and_not_refunded() {
    let mut m = fresh_market(5);
    let id = list(&mut m, "seller", "agent", 100);
    let resp = m
        .execute_purchase_agent(s("buyer"), inj(150), id)
        .unwrap();
    assert_eq!(resp.messages[0].amount, 95);
    assert_eq!(resp.messages[1].amount, 5);
}

#[test]
fn purchase_leaves_listing_active_and_purchasable_again() {
    let mut m = fresh_market(5);
    let id = list(&mut m, "seller", "agent", 100);
    m.execute_purchase_agent(s("buyer"), inj(100), id).unwrap();
    assert!(m.query_agent(id).unwrap().agent.is_active);
    m.execute_purchase_agent(s("other-buyer"), inj(100), id)
        .unwrap();
}

#[test]
fn listing_ids_are_sequential() {
    let mut m = fresh_market(5);
    assert_eq!(list(&mut m, "a", "x", 1), 1);
    assert_eq!(list(&mut m, "b", "y", 2), 2);
    assert_eq!(list(&mut m, "a", "z", 3), 3);
    assert_eq!(m.agent_count, 3);
}

#[test]
fn update_listing_by_owner_overwrites_provided_fields() {
    let mut m = fresh_market(5);
    let id = list(&mut m, "seller", "agent", 100);
    m.execute_update_agent(s("seller"), id, None, None, Some(250), Some(s("vision")))
        .unwrap();
    let a = m.query_agent(id).unwrap().agent;
    assert_eq!(a.name, "agent");
    assert_eq!(a.price, 250);
    assert_eq!(a.category, "vision");
}

#[test]
fn update_listing_by_non_owner_is_unauthorized_and_unchanged() {
    let mut m = fresh_market(5);
    let id = list(&mut m, "seller", "agent", 100);
    let r = m.execute_update_agent(s("mallory"), id, Some(s("stolen")), None, Some(1), None);
    assert_eq!(r.unwrap_err(), ContractError::Unauthorized);
    let a = m.query_agent(id).unwrap().agent;
    assert_eq!(a.name, "agent");
    assert_eq!(a.price, 100);
}

#[test]
fn remove_by_non_owner_is_unauthorized() {
    let mut m = fresh_market(5);
    let id = list(&mut m, "seller", "agent", 100);
    let r = m.execute_remove_agent(s("mallory"), id);
    assert_eq!(r.unwrap_err(), ContractError::Unauthorized);
    assert!(m.query_agent(id).unwrap().agent.is_active);
}

#[test]
fn removed_listing_is_excluded_from_browse_but_fetchable() {
    let mut m = fresh_market(5);
    let id1 = list(&mut m, "seller", "one", 10);
    let id2 = list(&mut m, "seller", "two", 20);
    m.execute_remove_agent(s("seller"), id1).unwrap();
    let page = m.list_agents(None, None);
    let ids: Vec<u64> = page.agents.iter().map(|a| a.id).collect();
    assert_eq!(ids, vec![id2]);
    let a = m.query_agent(id1).unwrap().agent;
    assert!(!a.is_active);
    assert_eq!(a.name, "one");
}

#[test]
fn browse_limit_bounds_active_results_not_scanned_ids() {
    let mut m = fresh_market(5);
    for i in 0..6u64 {
        list(&mut m, "seller", &format!("a{}", i), 10 + i as u128);
    }
    m.execute_remove_agent(s("seller"), 2).unwrap();
    m.execute_remove_agent(s("seller"), 3).unwrap();
    let page = m.list_agents(None, Some(3));
    let ids: Vec<u64> = page.agents.iter().map(|a| a.id).collect();
    assert_eq!(ids, vec![1, 4, 5]);
}

#[test]
fn browse_pagination_chains_across_inactive_listings() {
    let mut m = fresh_market(5);
    for i in 0..9u64 {
        list(&mut m, "seller", &format!("a{}", i), 10 + i as u128);
    }
    m.execute_remove_agent(s("seller"), 4).unwrap();
    let p1 = m.list_agents(None, Some(3));
    let ids1: Vec<u64> = p1.agents.iter().map(|a| a.id).collect();
    assert_eq!(ids1, vec![1, 2, 3]);
    let p2 = m.list_agents(Some(*ids1.last().unwrap()), Some(3));
    let ids2: Vec<u64> = p2.agents.iter().map(|a| a.id).collect();
    assert_eq!(ids2, vec![5, 6, 7]);
    let p3 = m.list_agents(Some(*ids2.last().unwrap()), Some(3));
    let ids3: Vec<u64> = p3.agents.iter().map(|a| a.id).collect();
    assert_eq!(ids3, vec![8, 9]);
    assert!(ids3.len() < 3);
}

#[test]
fn market_execute_dispatches_by_message() {
    let mut m = fresh_market(5);
    let resp = m
        .execute(
            s("seller"),
            Vec::new(),
            ExecuteMsg::ListAgent {
                name: s("n"),
                description: s("d"),
                price: 100,
                category: s("c"),
            },
        )
        .unwrap();
    assert_eq!(resp.attributes[0].value, "list_agent");
    let resp = m
        .execute(
            s("buyer"),
            inj(100),
            ExecuteMsg::PurchaseAgent { agent_id: 1 },
        )
        .unwrap();
    assert_eq!(resp.messages.len(), 2);
    let resp = m
        .execute(
            s("seller"),
            Vec::new(),
            ExecuteMsg::RemoveAgent { agent_id: 1 },
        )
        .unwrap();
    assert_eq!(resp.attributes[0].value, "remove_agent");
    let r = m.execute(
        s("buyer"),
        inj(100),
        ExecuteMsg::PurchaseAgent { agent_id: 1 },
    );
    assert_eq!(r.unwrap_err(), ContractError::ListingInactive);
}

#[test]
fn market_query_dispatches_by_message() {
    let mut m = fresh_market(5);
    list(&mut m, "seller", "n", 100);
    match m.query(QueryMsg::GetAgent { agent_id: 1 }).unwrap() {
        QueryResponse::Agent(a) => assert_eq!(a.agent.id, 1),
        QueryResponse::Agents(_) => panic!("expected a single listing"),
    }
    match m
        .query(QueryMsg::ListAgents { start_after: None, limit: None })
        .unwrap()
    {
        QueryResponse::Agents(page) => assert_eq!(page.agents.len(), 1),
        QueryResponse::Agent(_) => panic!("expected a page"),
    }
}
