use cosm_wasm_zero2_hero::config::{Config, Poll};
use cosm_wasm_zero2_hero::contract::{
    execute, execute_create_poll, execute_delete_poll, execute_delete_vote, execute_vote,
    instantiate, query, requested_admin,
};
use cosm_wasm_zero2_hero::msg::{ExecuteMsg, InstantiateMsg, QueryMsg, QueryResponse};
use cosm_wasm_zero2_hero::store::Store;
use cosm_wasm_zero2_hero::ContractError;
use cosmwasm_std::testing::MockApi;
use cosmwasm_std::{attr, Api, StdError};

pub const ADDR1: &str = "addr1";
pub const ADDR2: &str = "addr2";

fn labels(names: &[&str]) -> Vec<String> {
    names.iter().map(|s| s.to_string()).collect()
}

fn instantiated(admin: &str) -> Store {
    let mut store = Store::new();
    instantiate(&mut store, Ok(admin.to_string())).unwrap();
    store
}

fn with_poll(admin: &str, creator: &str, id: &str, names: &[&str]) -> Store {
    let mut store = instantiated(admin);
    execute_create_poll(
        &mut store,
        creator,
        id.to_string(),
        "What now?".to_string(),
        labels(names),
    )
    .unwrap();
    store
}

fn counts(store: &Store, id: &str) -> Vec<(String, u64)> {
    store.load_poll(id).unwrap().options
}

fn pairs(names: &[(&str, u64)]) -> Vec<(String, u64)> {
    names.iter().map(|(s, n)| (s.to_string(), *n)).collect()
}

#[test]
fn test_instantiate() {
    // Define the host's address check, the store and the sender
    let api = MockApi::default();
    let mut store = Store::new();

    // Define message to instantiate contract and call instantiate
    let msg = InstantiateMsg { admin: None };
    let admin = requested_admin(ADDR1, &msg);
    let validated = api.addr_validate(&admin).map(|a| a.into_string());
    let res = instantiate(&mut store, validated).unwrap();

    // Check response for success
    assert_eq!(
        res.attributes,
        vec![attr("action", "instantiate"), attr("admin", ADDR1)]
    )
}

#[test]
fn test_instantiate_with_admin() {
    // Define the host's address check, the store and the sender
    let api = MockApi::default();
    let mut store = Store::new();

    // Define message to instantiate contract (with admin this time) and call instantiate
    let msg = InstantiateMsg {
        admin: Some(ADDR2.to_string()),
    };
    let admin = requested_admin(ADDR1, &msg);
    let validated = api.addr_validate(&admin).map(|a| a.into_string());
    let res = instantiate(&mut store, validated).unwrap();

    // Check response for success
    assert_eq!(
        res.attributes,
        vec![attr("action", "instantiate"), attr("admin", ADDR2)]
    )
}

#[test]
fn instantiate_writes_the_config() {
    let mut store = Store::new();
    instantiate(&mut store, Ok(ADDR1.to_string())).unwrap();
    assert_eq!(store.load_config(), Ok(Config { admin: ADDR1.to_string() }));
    assert!(store.is_consistent());
}

#[test]
fn instantiate_response_has_only_attributes() {
    let mut store = Store::new();
    let res = instantiate(&mut store, Ok(ADDR1.to_string())).unwrap();
    assert!(res.messages.is_empty());
    assert!(res.events.is_empty());
    assert!(res.data.is_none());
    assert_eq!(res.attributes.len(), 2);
}

#[test]
fn instantiate_hands_a_host_failure_on() {
    let api = MockApi::default();
    let mut store = Store::new();
    let msg = InstantiateMsg { admin: Some("".to_string()) };
    let admin = requested_admin(ADDR1, &msg);
    assert_eq!(admin, "");
    let validated = api.addr_validate(&admin).map(|a| a.into_string());
    assert!(validated.is_err());
    let res = instantiate(&mut store, validated);
    assert!(matches!(res, Err(ContractError::Std(StdError::GenericErr { .. }))));
    assert_eq!(store.load_config(), Err(ContractError::NotFound));
}

#[test]
fn instantiate_keeps_the_very_error() {
    let mut store = Store::new();
    let res = instantiate(&mut store, Err(StdError::generic_err("bad address")));
    assert_eq!(res, Err(ContractError::Std(StdError::generic_err("bad address"))));
}

#[test]
fn requested_admin_prefers_the_message() {
    let msg = InstantiateMsg { admin: Some(ADDR2.to_string()) };
    assert_eq!(requested_admin(ADDR1, &msg), ADDR2);
    let msg = InstantiateMsg { admin: None };
    assert_eq!(requested_admin(ADDR1, &msg), ADDR1);
}

#[test]
fn create_poll_response() {
    let mut store = instantiated(ADDR1);
    let res = execute(
        &mut store,
        ADDR2,
        ExecuteMsg::CreatePoll {
            poll_id: "p1".to_string(),
            question: "Tea or coffee?".to_string(),
            options: labels(&["tea", "coffee", "water"]),
        },
    )
    .unwrap();
    assert_eq!(
        res.attributes,
        vec![
            attr("action", "create_poll"),
            attr("creator", ADDR2),
            attr("question", "Tea or coffee?"),
            attr("options", "tea, coffee, water"),
        ]
    );
    assert!(res.messages.is_empty());
}

#[test]
fn create_poll_starts_every_count_at_zero() {
    let store = with_poll(ADDR1, ADDR2, "p1", &["a", "b", "c"]);
    assert_eq!(
        store.load_poll("p1"),
        Ok(Poll {
            creator: ADDR2.to_string(),
            question: "What now?".to_string(),
            options: pairs(&[("a", 0), ("b", 0), ("c", 0)]),
        })
    );
    assert!(store.is_consistent());
}

#[test]
fn create_poll_with_eleven_options_fails() {
    let mut store = instantiated(ADDR1);
    let names = ["1", "2", "3", "4", "5", "6", "7", "8", "9", "10", "11"];
    let res = execute_create_poll(
        &mut store,
        ADDR1,
        "p1".to_string(),
        "q".to_string(),
        labels(&names),
    );
    assert_eq!(res, Err(ContractError::TooManyOptions));
    assert_eq!(store.load_poll("p1"), Err(ContractError::PollNotFound));
}

#[test]
fn create_poll_with_ten_options_succeeds() {
    let mut store = instantiated(ADDR1);
    let names = ["1", "2", "3", "4", "5", "6", "7", "8", "9", "10"];
    let res = execute_create_poll(
        &mut store,
        ADDR1,
        "p1".to_string(),
        "q".to_string(),
        labels(&names),
    );
    assert!(res.is_ok());
    let options = counts(&store, "p1");
    assert_eq!(options.len(), 10);
    assert!(options.iter().all(|(_, n)| *n == 0));
}

#[test]
fn create_poll_with_one_option_succeeds() {
    let store = with_poll(ADDR1, ADDR1, "p1", &["only"]);
    assert_eq!(counts(&store, "p1"), pairs(&[("only", 0)]));
}

#[test]
fn create_poll_without_options_fails() {
    let mut store = instantiated(ADDR1);
    let res = execute_create_poll(&mut store, ADDR1, "p1".to_string(), "q".to_string(), vec![]);
    assert_eq!(res, Err(ContractError::NoOptions));
}

#[test]
fn create_poll_does_not_need_a_config() {
    let mut store = Store::new();
    let res =
        execute_create_poll(&mut store, ADDR1, "p1".to_string(), "q".to_string(), labels(&["a"]));
    assert!(res.is_ok());
}

#[test]
fn create_poll_twice_fails_and_keeps_the_first() {
    let mut store = with_poll(ADDR1, ADDR1, "p1", &["yes", "no"]);
    execute_vote(&mut store, ADDR2, "p1".to_string(), "yes".to_string()).unwrap();
    let before = store.load_poll("p1").unwrap();
    let res = execute_create_poll(
        &mut store,
        ADDR2,
        "p1".to_string(),
        "another".to_string(),
        labels(&["x"]),
    );
    assert_eq!(res, Err(ContractError::PollAlreadyExists));
    assert_eq!(store.load_poll("p1").unwrap(), before);
    assert_eq!(counts(&store, "p1"), pairs(&[("yes", 1), ("no", 0)]));
}

#[test]
fn option_count_is_checked_before_the_id() {
    let mut store = with_poll(ADDR1, ADDR1, "p1", &["yes", "no"]);
    let res = execute_create_poll(&mut store, ADDR1, "p1".to_string(), "q".to_string(), vec![]);
    assert_eq!(res, Err(ContractError::NoOptions));
}

#[test]
fn vote_counts_and_writes_a_ballot() {
    let mut store = with_poll(ADDR1, ADDR1, "p1", &["yes", "no"]);
    let res = execute(
        &mut store,
        ADDR2,
        ExecuteMsg::Vote { poll_id: "p1".to_string(), option: "no".to_string() },
    )
    .unwrap();
    assert_eq!(
        res.attributes,
        vec![attr("action", "vote"), attr("poll_id", "p1"), attr("option", "no")]
    );
    assert_eq!(counts(&store, "p1"), pairs(&[("yes", 0), ("no", 1)]));
    assert_eq!(store.load_ballot("p1", ADDR2).unwrap().option, "no");
    assert_eq!(store.list_ballots_for_poll("p1").len(), 1);
    assert_eq!(store.ballot_count(), 1);
    assert!(store.is_consistent());
}

#[test]
fn vote_again_moves_the_vote() {
    let mut store = with_poll(ADDR1, ADDR1, "p1", &["yes", "no", "maybe"]);
    execute_vote(&mut store, ADDR2, "p1".to_string(), "yes".to_string()).unwrap();
    execute_vote(&mut store, ADDR1, "p1".to_string(), "yes".to_string()).unwrap();
    assert_eq!(counts(&store, "p1"), pairs(&[("yes", 2), ("no", 0), ("maybe", 0)]));
    execute_vote(&mut store, ADDR2, "p1".to_string(), "maybe".to_string()).unwrap();
    assert_eq!(counts(&store, "p1"), pairs(&[("yes", 1), ("no", 0), ("maybe", 1)]));
    assert_eq!(store.load_ballot("p1", ADDR2).unwrap().option, "maybe");
    assert_eq!(store.ballot_count(), 2);
    assert!(store.is_consistent());
}

#[test]
fn vote_again_for_the_same_option_changes_nothing() {
    let mut store = with_poll(ADDR1, ADDR1, "p1", &["yes", "no"]);
    execute_vote(&mut store, ADDR2, "p1".to_string(), "yes".to_string()).unwrap();
    execute_vote(&mut store, ADDR2, "p1".to_string(), "yes".to_string()).unwrap();
    assert_eq!(counts(&store, "p1"), pairs(&[("yes", 1), ("no", 0)]));
    assert_eq!(store.ballot_count(), 1);
}

#[test]
fn vote_for_an_unknown_option_fails() {
    let mut store = with_poll(ADDR1, ADDR1, "p1", &["yes", "no"]);
    let res = execute_vote(&mut store, ADDR2, "p1".to_string(), "perhaps".to_string());
    assert_eq!(res, Err(ContractError::InvalidOption));
    assert_eq!(counts(&store, "p1"), pairs(&[("yes", 0), ("no", 0)]));
    assert!(store.load_ballot("p1", ADDR2).is_none());
}

#[test]
fn vote_on_an_unknown_poll_fails() {
    let mut store = with_poll(ADDR1, ADDR1, "p1", &["yes", "no"]);
    let res = execute_vote(&mut store, ADDR2, "p2".to_string(), "yes".to_string());
    assert_eq!(res, Err(ContractError::PollNotFound));
}

#[test]
fn votes_on_two_polls_do_not_mix() {
    let mut store = with_poll(ADDR1, ADDR1, "p1", &["yes", "no"]);
    execute_create_poll(&mut store, ADDR1, "p2".to_string(), "q".to_string(), labels(&["yes"]))
        .unwrap();
    execute_vote(&mut store, ADDR2, "p1".to_string(), "yes".to_string()).unwrap();
    execute_vote(&mut store, ADDR2, "p2".to_string(), "yes".to_string()).unwrap();
    execute_vote(&mut store, ADDR2, "p1".to_string(), "no".to_string()).unwrap();
    assert_eq!(counts(&store, "p1"), pairs(&[("yes", 0), ("no", 1)]));
    assert_eq!(counts(&store, "p2"), pairs(&[("yes", 1)]));
    assert!(store.is_consistent());
}

#[test]
fn a_repeated_label_is_counted_at_its_first_place() {
    let mut store = with_poll(ADDR1, ADDR1, "p1", &["yes", "no", "yes"]);
    execute_vote(&mut store, ADDR1, "p1".to_string(), "yes".to_string()).unwrap();
    execute_vote(&mut store, ADDR2, "p1".to_string(), "yes".to_string()).unwrap();
    assert_eq!(counts(&store, "p1"), pairs(&[("yes", 2), ("no", 0), ("yes", 0)]));
    execute_delete_vote(&mut store, ADDR1, "p1".to_string()).unwrap();
    assert_eq!(counts(&store, "p1"), pairs(&[("yes", 1), ("no", 0), ("yes", 0)]));
    assert!(store.is_consistent());
}

#[test]
fn delete_vote_without_a_vote_fails() {
    let mut store = with_poll(ADDR1, ADDR1, "p1", &["yes", "no"]);
    execute_vote(&mut store, ADDR1, "p1".to_string(), "yes".to_string()).unwrap();
    let res = execute(&mut store, ADDR2, ExecuteMsg::DeleteVote { poll_id: "p1".to_string() });
    assert_eq!(res, Err(ContractError::NotVoted));
    assert_eq!(counts(&store, "p1"), pairs(&[("yes", 1), ("no", 0)]));
}

#[test]
fn delete_vote_on_an_unknown_poll_fails() {
    let mut store = instantiated(ADDR1);
    let res = execute_delete_vote(&mut store, ADDR2, "p1".to_string());
    assert_eq!(res, Err(ContractError::PollNotFound));
}

#[test]
fn delete_vote_undoes_a_vote() {
    let mut store = with_poll(ADDR1, ADDR1, "p1", &["yes", "no"]);
    execute_vote(&mut store, ADDR1, "p1".to_string(), "no".to_string()).unwrap();
    let before = store.load_poll("p1").unwrap();
    execute_vote(&mut store, ADDR2, "p1".to_string(), "no".to_string()).unwrap();
    let res = execute(&mut store, ADDR2, ExecuteMsg::DeleteVote { poll_id: "p1".to_string() })
        .unwrap();
    assert_eq!(res.attributes, vec![attr("action", "delete_vote"), attr("poll_id", "p1")]);
    assert!(store.load_ballot("p1", ADDR2).is_none());
    assert_eq!(store.load_poll("p1").unwrap(), before);
    assert_eq!(counts(&store, "p1"), pairs(&[("yes", 0), ("no", 1)]));
    assert!(store.is_consistent());
}

#[test]
fn delete_poll_by_a_stranger_fails() {
    let mut store = with_poll(ADDR1, ADDR2, "p1", &["yes", "no"]);
    execute_vote(&mut store, ADDR2, "p1".to_string(), "yes".to_string()).unwrap();
    let res = execute(&mut store, "addr3", ExecuteMsg::DeletePoll { poll_id: "p1".to_string() });
    assert_eq!(res, Err(ContractError::Unauthorized));
    assert!(store.has_poll("p1"));
    assert_eq!(store.list_ballots_for_poll("p1").len(), 1);
}

#[test]
fn delete_poll_by_the_creator() {
    let mut store = with_poll(ADDR1, ADDR2, "p1", &["yes", "no"]);
    execute_create_poll(&mut store, ADDR2, "p2".to_string(), "q".to_string(), labels(&["yes"]))
        .unwrap();
    execute_vote(&mut store, ADDR1, "p1".to_string(), "yes".to_string()).unwrap();
    execute_vote(&mut store, ADDR2, "p1".to_string(), "no".to_string()).unwrap();
    execute_vote(&mut store, ADDR2, "p2".to_string(), "yes".to_string()).unwrap();
    let res = execute(&mut store, ADDR2, ExecuteMsg::DeletePoll { poll_id: "p1".to_string() })
        .unwrap();
    assert_eq!(res.attributes, vec![attr("action", "delete_poll"), attr("poll_id", "p1")]);
    assert!(!store.has_poll("p1"));
    assert!(store.list_ballots_for_poll("p1").is_empty());
    assert!(store.load_ballot("p1", ADDR1).is_none());
    assert_eq!(store.list_ballots_for_poll("p2").len(), 1);
    assert_eq!(counts(&store, "p2"), pairs(&[("yes", 1)]));
    assert!(store.is_consistent());
}

#[test]
fn delete_poll_by_the_admin() {
    let mut store = with_poll(ADDR1, ADDR2, "p1", &["yes", "no"]);
    execute_vote(&mut store, ADDR2, "p1".to_string(), "yes".to_string()).unwrap();
    let res = execute_delete_poll(&mut store, ADDR1, "p1".to_string());
    assert!(res.is_ok());
    assert!(!store.has_poll("p1"));
    assert!(store.list_ballots_for_poll("p1").is_empty());
    assert_eq!(store.ballot_count(), 0);
}

#[test]
fn delete_poll_of_an_unknown_poll_fails() {
    let mut store = instantiated(ADDR1);
    let res = execute_delete_poll(&mut store, ADDR1, "p1".to_string());
    assert_eq!(res, Err(ContractError::PollNotFound));
}

#[test]
fn delete_poll_before_instantiation_fails() {
    let mut store = Store::new();
    execute_create_poll(&mut store, ADDR1, "p1".to_string(), "q".to_string(), labels(&["a"]))
        .unwrap();
    let res = execute_delete_poll(&mut store, ADDR1, "p1".to_string());
    assert_eq!(res, Err(ContractError::NotFound));
    assert!(store.has_poll("p1"));
}

#[test]
fn scenario_vote_revote_and_delete() {
    let mut store = instantiated("admin");
    execute(
        &mut store,
        "admin",
        ExecuteMsg::CreatePoll {
            poll_id: "p1".to_string(),
            question: "Go?".to_string(),
            options: labels(&["yes", "no"]),
        },
    )
    .unwrap();
    execute(
        &mut store,
        ADDR1,
        ExecuteMsg::Vote { poll_id: "p1".to_string(), option: "yes".to_string() },
    )
    .unwrap();
    execute(
        &mut store,
        ADDR2,
        ExecuteMsg::Vote { poll_id: "p1".to_string(), option: "no".to_string() },
    )
    .unwrap();
    execute(
        &mut store,
        ADDR2,
        ExecuteMsg::Vote { poll_id: "p1".to_string(), option: "yes".to_string() },
    )
    .unwrap();
    assert_eq!(counts(&store, "p1"), pairs(&[("yes", 2), ("no", 0)]));
    execute(&mut store, ADDR1, ExecuteMsg::DeleteVote { poll_id: "p1".to_string() }).unwrap();
    assert_eq!(counts(&store, "p1"), pairs(&[("yes", 1), ("no", 0)]));
    assert!(store.is_consistent());
}

#[test]
fn query_config() {
    let store = instantiated(ADDR1);
    assert_eq!(
        query(&store, QueryMsg::GetConfig {}),
        Ok(QueryResponse::Config(Config { admin: ADDR1.to_string() }))
    );
    assert_eq!(query(&Store::new(), QueryMsg::GetConfig {}), Err(ContractError::NotFound));
}

#[test]
fn query_poll() {
    let mut store = with_poll(ADDR1, ADDR2, "p1", &["yes", "no"]);
    execute_vote(&mut store, ADDR1, "p1".to_string(), "no".to_string()).unwrap();
    assert_eq!(
        query(&store, QueryMsg::GetPoll { poll_id: "p1".to_string() }),
        Ok(QueryResponse::Poll(Poll {
            creator: ADDR2.to_string(),
            question: "What now?".to_string(),
            options: pairs(&[("yes", 0), ("no", 1)]),
        }))
    );
    assert_eq!(
        query(&store, QueryMsg::GetPoll { poll_id: "p2".to_string() }),
        Err(ContractError::PollNotFound)
    );
}

fn listed(store: &Store, start_after: Option<&str>, limit: Option<u32>) -> Vec<String> {
    let msg = QueryMsg::ListPolls { start_after: start_after.map(|s| s.to_string()), limit };
    match query(store, msg) {
        Ok(QueryResponse::Polls(page)) => page.into_iter().map(|(id, _)| id).collect(),
        other => panic!("unexpected answer: {:?}", other),
    }
}

#[test]
fn query_list_polls() {
    let mut store = instantiated(ADDR1);
    assert_eq!(listed(&store, None, None), Vec::<String>::new());
    for id in ["delta", "alpha", "charlie", "bravo"] {
        execute_create_poll(&mut store, ADDR1, id.to_string(), "q".to_string(), labels(&["a"]))
            .unwrap();
    }
    assert_eq!(listed(&store, None, None), vec!["alpha", "bravo", "charlie", "delta"]);
    assert_eq!(listed(&store, None, Some(2)), vec!["alpha", "bravo"]);
    assert_eq!(listed(&store, Some("bravo"), None), vec!["charlie", "delta"]);
    assert_eq!(listed(&store, Some("bravo"), Some(1)), vec!["charlie"]);
    assert_eq!(listed(&store, Some("b"), Some(10)), vec!["bravo", "charlie", "delta"]);
    assert_eq!(listed(&store, Some("delta"), None), Vec::<String>::new());
    assert_eq!(listed(&store, None, Some(0)), Vec::<String>::new());
}

#[test]
fn query_does_not_change_the_store() {
    let mut store = with_poll(ADDR1, ADDR2, "p1", &["yes", "no"]);
    execute_vote(&mut store, ADDR1, "p1".to_string(), "no".to_string()).unwrap();
    let before = counts(&store, "p1");
    query(&store, QueryMsg::GetPoll { poll_id: "p1".to_string() }).unwrap();
    query(&store, QueryMsg::ListPolls { start_after: None, limit: None }).unwrap();
    assert_eq!(counts(&store, "p1"), before);
    assert_eq!(store.ballot_count(), 1);
}
