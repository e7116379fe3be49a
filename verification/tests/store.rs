use cosm_wasm_zero2_hero::config::{Ballot, Config, Poll};
use cosm_wasm_zero2_hero::helpers::join;
use cosm_wasm_zero2_hero::keys::{key_is_less, key_is_same};
use cosm_wasm_zero2_hero::store::Store;
use cosm_wasm_zero2_hero::validation::{
    authorize_admin, authorize_creator_or_admin, validate_option_count, validate_option_exists,
    validate_unique_poll_id,
};
use cosm_wasm_zero2_hero::ContractError;

fn poll(creator: &str, options: &[(&str, u64)]) -> Poll {
    Poll {
        creator: creator.to_string(),
        question: "q".to_string(),
        options: options.iter().map(|(s, n)| (s.to_string(), *n)).collect(),
    }
}

fn ballot(option: &str) -> Ballot {
    Ballot { option: option.to_string() }
}

#[test]
fn empty_store() {
    let store = Store::new();
    assert_eq!(store.load_config(), Err(ContractError::NotFound));
    assert_eq!(store.load_poll("p1"), Err(ContractError::PollNotFound));
    assert!(store.load_ballot("p1", "addr1").is_none());
    assert!(store.list_ballots_for_poll("p1").is_empty());
    assert!(store.list_polls(&None, None).is_empty());
    assert_eq!(store.ballot_count(), 0);
    assert!(store.is_consistent());
}

#[test]
fn save_config_overwrites() {
    let mut store = Store::new();
    store.save_config(Config { admin: "addr1".to_string() });
    store.save_config(Config { admin: "addr2".to_string() });
    assert_eq!(store.load_config(), Ok(Config { admin: "addr2".to_string() }));
}

#[test]
fn save_poll_creates_and_overwrites() {
    let mut store = Store::new();
    store.save_poll("p1".to_string(), poll("addr1", &[("a", 0)]));
    store.save_poll("p0".to_string(), poll("addr2", &[("b", 0)]));
    assert!(store.has_poll("p1"));
    assert!(store.has_poll("p0"));
    assert!(!store.has_poll("p"));
    store.save_poll("p1".to_string(), poll("addr3", &[("c", 0)]));
    assert_eq!(store.load_poll("p1"), Ok(poll("addr3", &[("c", 0)])));
    assert_eq!(store.load_poll("p0"), Ok(poll("addr2", &[("b", 0)])));
    assert_eq!(store.list_polls(&None, None).len(), 2);
}

#[test]
fn remove_poll_leaves_the_ballots() {
    let mut store = Store::new();
    store.save_poll("p1".to_string(), poll("addr1", &[("a", 1)]));
    store.save_ballot("p1".to_string(), "addr1".to_string(), ballot("a"));
    assert!(store.is_consistent());
    store.remove_poll("p1");
    assert!(!store.has_poll("p1"));
    assert_eq!(store.load_ballot("p1", "addr1"), Some(ballot("a")));
    assert!(!store.is_consistent());
    store.remove_poll("p1");
    assert!(!store.has_poll("p1"));
}

#[test]
fn ballots_are_kept_by_poll_and_voter() {
    let mut store = Store::new();
    store.save_ballot("p1".to_string(), "addr1".to_string(), ballot("a"));
    store.save_ballot("p1".to_string(), "addr2".to_string(), ballot("b"));
    store.save_ballot("p2".to_string(), "addr1".to_string(), ballot("c"));
    store.save_ballot("p1".to_string(), "addr1".to_string(), ballot("d"));
    assert_eq!(store.ballot_count(), 3);
    assert_eq!(store.load_ballot("p1", "addr1"), Some(ballot("d")));
    assert_eq!(store.load_ballot("p2", "addr1"), Some(ballot("c")));
    assert_eq!(store.load_ballot("p2", "addr2"), None);
    let mut page = store.list_ballots_for_poll("p1");
    page.sort_by(|a, b| a.0.cmp(&b.0));
    assert_eq!(
        page,
        vec![("addr1".to_string(), ballot("d")), ("addr2".to_string(), ballot("b"))]
    );
    store.remove_ballot("p1", "addr1");
    assert_eq!(store.load_ballot("p1", "addr1"), None);
    assert_eq!(store.ballot_count(), 2);
    store.remove_ballot("p1", "addr1");
    assert_eq!(store.ballot_count(), 2);
}

#[test]
fn list_polls_is_in_key_order() {
    let mut store = Store::new();
    for id in ["b", "ab", "", "a", "B", "\u{e9}", "z"] {
        store.save_poll(id.to_string(), poll("addr1", &[("a", 0)]));
    }
    let ids: Vec<String> = store.list_polls(&None, None).into_iter().map(|(id, _)| id).collect();
    assert_eq!(ids, vec!["", "B", "a", "ab", "b", "z", "\u{e9}"]);
    let ids: Vec<String> = store
        .list_polls(&Some("a".to_string()), Some(3))
        .into_iter()
        .map(|(id, _)| id)
        .collect();
    assert_eq!(ids, vec!["ab", "b", "z"]);
}

#[test]
fn consistency_is_checked() {
    let mut store = Store::new();
    store.save_poll("p1".to_string(), poll("addr1", &[("a", 1), ("b", 0)]));
    assert!(!store.is_consistent());
    store.save_ballot("p1".to_string(), "addr1".to_string(), ballot("a"));
    assert!(store.is_consistent());
    store.save_ballot("p1".to_string(), "addr2".to_string(), ballot("c"));
    assert!(!store.is_consistent());
    store.save_ballot("p1".to_string(), "addr2".to_string(), ballot("b"));
    assert!(!store.is_consistent());
    store.save_poll("p1".to_string(), poll("addr1", &[("a", 1), ("b", 1)]));
    assert!(store.is_consistent());
    store.save_poll("p2".to_string(), poll("addr1", &[]));
    assert!(!store.is_consistent());
    store.remove_poll("p2");
    store.save_poll("p3".to_string(), poll("addr1", &[("a", 0), ("a", 0)]));
    assert!(store.is_consistent());
    store.save_poll("p3".to_string(), poll("addr1", &[("a", 0), ("a", 1)]));
    assert!(!store.is_consistent());
}

#[test]
fn poll_new_and_find_option() {
    let p = Poll::new(
        "addr1".to_string(),
        "q".to_string(),
        vec!["yes".to_string(), "no".to_string(), "yes".to_string()],
    );
    assert_eq!(p, poll("addr1", &[("yes", 0), ("no", 0), ("yes", 0)]));
    assert_eq!(p.find_option("yes"), Some(0));
    assert_eq!(p.find_option("no"), Some(1));
    assert_eq!(p.find_option("maybe"), None);
    assert_eq!(p.clone(), p);
}

#[test]
fn validation_of_option_count() {
    let options = |n: usize| -> Vec<String> { (0..n).map(|i| i.to_string()).collect() };
    assert_eq!(validate_option_count(&options(0)), Err(ContractError::NoOptions));
    assert_eq!(validate_option_count(&options(1)), Ok(()));
    assert_eq!(validate_option_count(&options(10)), Ok(()));
    assert_eq!(validate_option_count(&options(11)), Err(ContractError::TooManyOptions));
}

#[test]
fn validation_of_ids_and_labels() {
    let mut store = Store::new();
    store.save_poll("p1".to_string(), poll("addr1", &[("a", 0)]));
    assert_eq!(validate_unique_poll_id(&store, "p1"), Err(ContractError::PollAlreadyExists));
    assert_eq!(validate_unique_poll_id(&store, "p2"), Ok(()));
    let p = poll("addr1", &[("a", 0), ("b", 0)]);
    assert_eq!(validate_option_exists(&p, "b"), Ok(()));
    assert_eq!(validate_option_exists(&p, "c"), Err(ContractError::InvalidOption));
}

#[test]
fn authorization() {
    let config = Config { admin: "addr1".to_string() };
    let p = poll("addr2", &[("a", 0)]);
    assert_eq!(authorize_admin(&config, "addr1"), Ok(()));
    assert_eq!(authorize_admin(&config, "addr2"), Err(ContractError::Unauthorized));
    assert_eq!(authorize_creator_or_admin(&p, &config, "addr1"), Ok(()));
    assert_eq!(authorize_creator_or_admin(&p, &config, "addr2"), Ok(()));
    assert_eq!(
        authorize_creator_or_admin(&p, &config, "addr3"),
        Err(ContractError::Unauthorized)
    );
}

#[test]
fn join_puts_the_separator_between() {
    let parts = |names: &[&str]| -> Vec<String> { names.iter().map(|s| s.to_string()).collect() };
    assert_eq!(join(&parts(&[]), ", "), "");
    assert_eq!(join(&parts(&["yes"]), ", "), "yes");
    assert_eq!(join(&parts(&["yes", "no"]), ", "), "yes, no");
    assert_eq!(join(&parts(&["a", "", "b"]), "-"), "a--b");
}

#[test]
fn key_order_is_that_of_the_bytes() {
    assert!(key_is_less("", "a"));
    assert!(key_is_less("a", "ab"));
    assert!(key_is_less("ab", "b"));
    assert!(key_is_less("B", "a"));
    assert!(key_is_less("z", "\u{e9}"));
    assert!(!key_is_less("a", "a"));
    assert!(!key_is_less("b", "ab"));
    assert!(!key_is_less("", ""));
    assert!(key_is_same("abc", "abc"));
    assert!(!key_is_same("abc", "abd"));
    assert!(!key_is_same("abc", "ab"));
}
