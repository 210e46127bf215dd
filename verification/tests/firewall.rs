use owl_core::address::Address;
use owl_core::config::{Config, Interface, Peer};
use owl_core::errors::FirewallError;
use owl_core::firewall::{
    add_allow, add_allowed, apply, block_all, ensure_net_admin, flush_all, install_base_policy,
    reload_allowed_ips, require_net_admin, Outcome, Request, Transaction, PROGRAM,
};
use owl_core::policy::AllowedAddresses;

const TEN: Address = Address::V4(10, 0, 0, 1);
const DOC: Address = Address::V6(0x2001, 0xdb8, 0, 0, 0, 0, 0, 1);

fn set(addresses: &[Address]) -> AllowedAddresses {
    let mut set = AllowedAddresses::new();
    for address in addresses {
        set.insert(*address);
    }
    set
}

fn words(args: &[&str]) -> Vec<String> {
    args.iter().map(|word| word.to_string()).collect()
}

/// Performs the transaction against a packet filter that answers the n-th
/// request with the n-th outcome, and with success once they run out.
fn perform(transaction: &mut Transaction, outcomes: Vec<Outcome>) -> Vec<Request> {
    let mut outcomes = outcomes.into_iter();
    let mut requests = Vec::new();
    while let Some(request) = transaction.pending() {
        requests.push(request);
        transaction.settle(outcomes.next().unwrap_or(Outcome::Success));
    }
    requests
}

#[test]
fn superuser_is_privileged() {
    assert_eq!(require_net_admin(0), Ok(()));
}

#[test]
fn other_users_are_refused() {
    assert_eq!(require_net_admin(1), Err(FirewallError::NetAdminRequired));
    assert_eq!(require_net_admin(1000), Err(FirewallError::NetAdminRequired));
    assert_eq!(require_net_admin(u32::MAX), Err(FirewallError::NetAdminRequired));
}

#[test]
fn privilege_check_of_this_process_goes_by_its_effective_user() {
    let euid = nix::unistd::Uid::effective().as_raw();
    assert_eq!(ensure_net_admin(), require_net_admin(euid));
    assert_eq!(ensure_net_admin().is_ok(), euid == 0);
}

#[test]
fn program_is_nft() {
    assert_eq!(PROGRAM, "nft");
}

#[test]
fn arguments_of_the_flush() {
    assert_eq!(Request::Flush.to_arguments(), words(&["flush", "ruleset"]));
}

#[test]
fn arguments_of_the_base_policy() {
    assert_eq!(Request::CreateTable.to_arguments(), words(&["add", "table", "inet", "owl"]));
    assert_eq!(
        Request::CreateChain.to_arguments(),
        words(&[
            "add", "chain", "inet", "owl", "input", "{", "type", "filter", "hook", "input",
            "priority", "0;", "policy", "drop;", "}",
        ])
    );
}

#[test]
fn arguments_of_an_accept_rule_name_the_family() {
    assert_eq!(
        Request::Allow(TEN).to_arguments(),
        words(&["add", "rule", "inet", "owl", "input", "ip", "saddr", "10.0.0.1", "accept"])
    );
    assert_eq!(
        Request::Allow(DOC).to_arguments(),
        words(&["add", "rule", "inet", "owl", "input", "ip6", "saddr", "2001:db8::1", "accept"])
    );
}

#[test]
fn labels_name_the_operation() {
    assert_eq!(Request::Flush.to_label(), "flush");
    assert_eq!(Request::CreateTable.to_label(), "install_base_policy");
    assert_eq!(Request::CreateChain.to_label(), "install_base_policy");
    assert_eq!(Request::Allow(TEN).to_label(), "add_allow: 10.0.0.1");
    assert_eq!(Request::Allow(DOC).to_label(), "add_allow: 2001:db8::1");
}

#[test]
fn judge_tells_the_outcomes_apart() {
    assert_eq!(Request::Flush.judge(Outcome::Success), Ok(()));
    assert_eq!(
        Request::Flush.judge(Outcome::Refused),
        Err(FirewallError::NftFailed("flush".to_string()))
    );
    assert_eq!(Request::Flush.judge(Outcome::NotFound), Err(FirewallError::NftNotFound));
    assert_eq!(
        Request::Flush.judge(Outcome::Io("permission denied".to_string())),
        Err(FirewallError::Io("permission denied".to_string()))
    );
    assert_eq!(
        Request::Allow(TEN).judge(Outcome::Refused),
        Err(FirewallError::NftFailed("add_allow: 10.0.0.1".to_string()))
    );
}

#[test]
fn flush_all_is_one_request() {
    let mut transaction = flush_all();
    assert_eq!(perform(&mut transaction, vec![]), vec![Request::Flush]);
    assert_eq!(transaction.result(), Some(Ok(())));

    let mut refused = flush_all();
    perform(&mut refused, vec![Outcome::Refused]);
    assert_eq!(refused.result(), Some(Err(FirewallError::NftFailed("flush".to_string()))));

    let mut missing = flush_all();
    perform(&mut missing, vec![Outcome::NotFound]);
    assert_eq!(missing.result(), Some(Err(FirewallError::NftNotFound)));
}

#[test]
fn install_base_policy_creates_the_table_and_then_the_chain() {
    let mut transaction = install_base_policy();
    assert_eq!(
        perform(&mut transaction, vec![]),
        vec![Request::CreateTable, Request::CreateChain]
    );
    assert_eq!(transaction.result(), Some(Ok(())));

    let mut refused = install_base_policy();
    assert_eq!(perform(&mut refused, vec![Outcome::Refused]), vec![Request::CreateTable]);
    assert_eq!(
        refused.result(),
        Some(Err(FirewallError::NftFailed("install_base_policy".to_string())))
    );
}

#[test]
fn add_allow_is_one_rule_for_one_address() {
    let mut transaction = add_allow(DOC);
    assert_eq!(perform(&mut transaction, vec![]), vec![Request::Allow(DOC)]);
    assert_eq!(transaction.result(), Some(Ok(())));

    let mut refused = add_allow(TEN);
    perform(&mut refused, vec![Outcome::Refused]);
    assert_eq!(
        refused.result(),
        Some(Err(FirewallError::NftFailed("add_allow: 10.0.0.1".to_string())))
    );
}

#[test]
fn block_all_flushes_then_installs_the_drop_chain() {
    let mut transaction = block_all();
    assert_eq!(
        transaction.script(),
        vec![Request::Flush, Request::CreateTable, Request::CreateChain]
    );
    assert_eq!(transaction.result(), None);
    let requests = perform(&mut transaction, vec![]);
    assert_eq!(requests, vec![Request::Flush, Request::CreateTable, Request::CreateChain]);
    assert_eq!(transaction.result(), Some(Ok(())));
}

#[test]
fn add_allowed_adds_one_rule_for_each_address() {
    let mut transaction = add_allowed(&set(&[DOC, TEN, DOC]));
    let requests = perform(&mut transaction, vec![]);
    assert_eq!(requests, vec![Request::Allow(DOC), Request::Allow(TEN)]);
    assert_eq!(transaction.result(), Some(Ok(())));
}

#[test]
fn add_allowed_of_nothing_is_done_at_once() {
    let transaction = add_allowed(&AllowedAddresses::new());
    assert_eq!(transaction.pending(), None);
    assert_eq!(transaction.result(), Some(Ok(())));
}

#[test]
fn apply_on_two_families() {
    let mut transaction = apply(&set(&[TEN, DOC]));
    let requests = perform(&mut transaction, vec![]);
    assert_eq!(
        requests,
        vec![Request::Flush, Request::CreateTable, Request::CreateChain, Request::Allow(TEN), Request::Allow(DOC)]
    );
    assert_eq!(transaction.result(), Some(Ok(())));
    assert_eq!(requests[3].to_arguments()[5], "ip");
    assert_eq!(requests[4].to_arguments()[5], "ip6");
}

#[test]
fn apply_on_the_empty_set_installs_the_drop_chain_only() {
    let mut transaction = apply(&AllowedAddresses::new());
    let requests = perform(&mut transaction, vec![]);
    assert_eq!(requests, vec![Request::Flush, Request::CreateTable, Request::CreateChain]);
    assert_eq!(transaction.result(), Some(Ok(())));
}

#[test]
fn apply_without_the_program_stops_at_the_flush() {
    let mut transaction = apply(&set(&[TEN, DOC]));
    let requests = perform(&mut transaction, vec![Outcome::NotFound]);
    assert_eq!(requests, vec![Request::Flush]);
    assert_eq!(transaction.result(), Some(Err(FirewallError::NftNotFound)));
    assert_ne!(
        transaction.result(),
        Some(Err(FirewallError::NftFailed("flush".to_string())))
    );
}

#[test]
fn apply_refused_at_the_flush_adds_nothing() {
    let mut transaction = apply(&set(&[TEN]));
    let requests = perform(&mut transaction, vec![Outcome::Refused]);
    assert_eq!(requests, vec![Request::Flush]);
    assert_eq!(transaction.result(), Some(Err(FirewallError::NftFailed("flush".to_string()))));
}

#[test]
fn apply_refused_at_the_base_policy_adds_no_rule() {
    for failing in 1..3 {
        let mut outcomes = vec![Outcome::Success; failing];
        outcomes.push(Outcome::Refused);
        let mut transaction = apply(&set(&[TEN, DOC]));
        let requests = perform(&mut transaction, outcomes);
        assert_eq!(requests.len(), failing + 1);
        assert!(requests.iter().all(|request| !matches!(request, Request::Allow(_))));
        assert_eq!(
            transaction.result(),
            Some(Err(FirewallError::NftFailed("install_base_policy".to_string())))
        );
    }
}

#[test]
fn apply_refused_at_a_rule_adds_none_after_it() {
    let mut transaction = apply(&set(&[TEN, DOC, Address::V4(192, 0, 2, 1)]));
    let requests = perform(
        &mut transaction,
        vec![Outcome::Success, Outcome::Success, Outcome::Success, Outcome::Success, Outcome::Refused],
    );
    assert_eq!(
        requests,
        vec![Request::Flush, Request::CreateTable, Request::CreateChain, Request::Allow(TEN), Request::Allow(DOC)]
    );
    assert_eq!(
        transaction.result(),
        Some(Err(FirewallError::NftFailed("add_allow: 2001:db8::1".to_string())))
    );
}

#[test]
fn apply_that_cannot_start_the_program_reports_the_diagnostic() {
    let mut transaction = apply(&set(&[TEN]));
    let requests = perform(
        &mut transaction,
        vec![Outcome::Success, Outcome::Io("permission denied".to_string())],
    );
    assert_eq!(requests, vec![Request::Flush, Request::CreateTable]);
    assert_eq!(
        transaction.result(),
        Some(Err(FirewallError::Io("permission denied".to_string())))
    );
}

#[test]
fn outcomes_after_the_end_change_nothing() {
    let mut failed = block_all();
    failed.settle(Outcome::Refused);
    failed.settle(Outcome::Success);
    failed.settle(Outcome::NotFound);
    assert_eq!(failed.pending(), None);
    assert_eq!(failed.result(), Some(Err(FirewallError::NftFailed("flush".to_string()))));

    let mut done = block_all();
    perform(&mut done, vec![]);
    done.settle(Outcome::Refused);
    assert_eq!(done.pending(), None);
    assert_eq!(done.result(), Some(Ok(())));
}

#[test]
fn empty_transaction_has_succeeded() {
    let transaction = Transaction::new(Vec::new());
    assert_eq!(transaction.pending(), None);
    assert_eq!(transaction.result(), Some(Ok(())));
}

#[test]
fn reload_allowed_ips_replaces_the_rules_by_those_of_the_configuration() {
    let cfg = Config {
        interface: Interface { listen_port: 51820, private_key: "key".to_string() },
        peers: vec![
            Peer { public_key: "a".to_string(), allowed_ips: vec![TEN] },
            Peer { public_key: "b".to_string(), allowed_ips: vec![TEN, DOC] },
        ],
    };
    let mut transaction = reload_allowed_ips(&cfg);
    let requests = perform(&mut transaction, vec![]);
    assert_eq!(
        requests,
        vec![Request::Flush, Request::CreateTable, Request::CreateChain, Request::Allow(TEN), Request::Allow(DOC)]
    );
    assert_eq!(transaction.result(), Some(Ok(())));
}

#[test]
fn reload_allowed_ips_without_peers_leaves_the_drop_chain() {
    let cfg = Config {
        interface: Interface { listen_port: 51820, private_key: "key".to_string() },
        peers: vec![],
    };
    let mut transaction = reload_allowed_ips(&cfg);
    let requests = perform(&mut transaction, vec![]);
    assert_eq!(requests, vec![Request::Flush, Request::CreateTable, Request::CreateChain]);
}
