//! The packet filter: the privilege it takes, the requests it is sent, and
//! the transaction that replaces its rules.
//!
//! Nothing here runs a program. A [`Transaction`] hands out one
//! [`Request`] at a time and is told how each went; its caller runs the
//! packet filter's program with the arguments of the request.

use crate::address::Address;
use crate::config::Config;
use crate::errors::{FirewallError, FirewallErrorView};
use crate::policy::{collect_ips, distinct, AllowedAddresses};
use nix::unistd::Uid;
use vstd::prelude::*;
use vstd::string::*;

verus! {

/// The name of the packet filter's program.
pub const PROGRAM: &'static str = "nft";

/// The effective user id of this process, as `nix::unistd::Uid::effective`
/// reports it. Nothing is claimed of the number.
#[verifier::external_body]
fn effective_uid() -> (euid: u32) {
    Uid::effective().as_raw()
}

/// Whether a process with this effective user id may change the rules of the
/// packet filter: only the superuser may.
pub open spec fn privileged(euid: u32) -> bool {
    euid == 0
}

/// Succeeds for a privileged effective user id and fails with
/// [`FirewallError::NetAdminRequired`] for any other.
pub fn require_net_admin(euid: u32) -> (checked: Result<(), FirewallError>)
    ensures
        privileged(euid) ==> checked is Ok,
        !privileged(euid) ==> checked == Err::<(), FirewallError>(FirewallError::NetAdminRequired),
{
    if euid == 0 {
        Ok(())
    } else {
        Err(FirewallError::NetAdminRequired)
    }
}

/// Checks that this process may change the rules of the packet filter. It
/// only looks; it never tries to gain the privilege.
pub fn ensure_net_admin() -> (checked: Result<(), FirewallError>)
    ensures
        checked is Err ==> checked == Err::<(), FirewallError>(FirewallError::NetAdminRequired),
{
    require_net_admin(effective_uid())
}

/// One administrative request to the packet filter.
#[derive(Clone, Copy, Debug, PartialEq, Eq, Structural)]
pub enum Request {
    /// Discard every rule and table.
    Flush,
    /// Create the managed table.
    CreateTable,
    /// Create the input chain of the managed table, with a neutral priority
    /// and the policy to drop.
    CreateChain,
    /// Accept traffic from one source address.
    Allow(Address),
}

/// How the packet filter's program answered one request.
#[derive(Debug, Clone, PartialEq, Eq)]
pub enum Outcome {
    /// The program ran and reported success.
    Success,
    /// The program ran and reported failure.
    Refused,
    /// The program was not found.
    NotFound,
    /// The program could not be started for another reason; the text is the
    /// system's diagnostic.
    Io(String),
}

impl Request {
    /// The name of the operation that the request belongs to, by which a
    /// refusal is reported.
    pub open spec fn label(self) -> Seq<char> {
        match self {
            Request::Flush => "flush"@,
            Request::CreateTable => "install_base_policy"@,
            Request::CreateChain => "install_base_policy"@,
            Request::Allow(address) => "add_allow: "@ + address.text(),
        }
    }

    /// The word by which a rule names the family of `address`.
    pub open spec fn family(address: Address) -> Seq<char> {
        if address is V6 {
            "ip6"@
        } else {
            "ip"@
        }
    }

    /// The arguments with which the packet filter's program performs the
    /// request.
    pub open spec fn arguments(self) -> Seq<Seq<char>> {
        match self {
            Request::Flush => seq!["flush"@, "ruleset"@],
            Request::CreateTable => seq!["add"@, "table"@, "inet"@, "owl"@],
            Request::CreateChain => seq![
                "add"@,
                "chain"@,
                "inet"@,
                "owl"@,
                "input"@,
                "{"@,
                "type"@,
                "filter"@,
                "hook"@,
                "input"@,
                "priority"@,
                "0;"@,
                "policy"@,
                "drop;"@,
                "}"@,
            ],
            Request::Allow(address) => seq![
                "add"@,
                "rule"@,
                "inet"@,
                "owl"@,
                "input"@,
                Request::family(address),
                "saddr"@,
                address.text(),
                "accept"@,
            ],
        }
    }

    /// The error with which the request fails on `outcome`, if it does.
    pub open spec fn failure(self, outcome: Outcome) -> Option<FirewallErrorView> {
        match outcome {
            Outcome::Success => None,
            Outcome::Refused => Some(FirewallErrorView::NftFailed(self.label())),
            Outcome::NotFound => Some(FirewallErrorView::NftNotFound),
            Outcome::Io(detail) => Some(FirewallErrorView::Io(detail@)),
        }
    }

    /// The name of the operation that the request belongs to.
    pub fn to_label(&self) -> (tag: String)
        ensures
            tag@ == self.label(),
    {
        match self {
            Request::Flush => String::from_str("flush"),
            Request::CreateTable => String::from_str("install_base_policy"),
            Request::CreateChain => String::from_str("install_base_policy"),
            Request::Allow(address) => {
                let text = address.to_text();
                String::from_str("add_allow: ").concat(text.as_str())
            },
        }
    }

    /// The arguments with which the packet filter's program performs the
    /// request.
    pub fn to_arguments(&self) -> (args: Vec<String>)
        ensures
            args.deep_view() == self.arguments(),
    {
        let args = match self {
            Request::Flush => vec![String::from_str("flush"), String::from_str("ruleset")],
            Request::CreateTable => vec![
                String::from_str("add"),
                String::from_str("table"),
                String::from_str("inet"),
                String::from_str("owl"),
            ],
            Request::CreateChain => vec![
                String::from_str("add"),
                String::from_str("chain"),
                String::from_str("inet"),
                String::from_str("owl"),
                String::from_str("input"),
                String::from_str("{"),
                String::from_str("type"),
                String::from_str("filter"),
                String::from_str("hook"),
                String::from_str("input"),
                String::from_str("priority"),
                String::from_str("0;"),
                String::from_str("policy"),
                String::from_str("drop;"),
                String::from_str("}"),
            ],
            Request::Allow(address) => {
                let family = if address.is_ipv6() {
                    "ip6"
                } else {
                    "ip"
                };
                vec![
                    String::from_str("add"),
                    String::from_str("rule"),
                    String::from_str("inet"),
                    String::from_str("owl"),
                    String::from_str("input"),
                    String::from_str(family),
                    String::from_str("saddr"),
                    address.to_text(),
                    String::from_str("accept"),
                ]
            },
        };
        assert(args.deep_view() =~= self.arguments());
        args
    }

    /// What the answer `outcome` to this request means: success, or the
    /// error that ends the transaction.
    pub fn judge(&self, outcome: Outcome) -> (verdict: Result<(), FirewallError>)
        ensures
            self.failure(outcome) is None ==> verdict is Ok,
            self.failure(outcome) is Some ==> verdict is Err && verdict->Err_0@ == self.failure(
                outcome,
            )->Some_0,
    {
        match outcome {
            Outcome::Success => Ok(()),
            Outcome::Refused => Err(FirewallError::NftFailed(self.to_label())),
            Outcome::NotFound => Err(FirewallError::NftNotFound),
            Outcome::Io(detail) => Err(FirewallError::Io(detail)),
        }
    }
}

/// The rules of the packet filter as this controller sees them: whether the
/// managed table exists, whether its input chain with the policy to drop
/// exists, and the source addresses for which an accept rule exists.
pub ghost struct Ruleset {
    pub table: bool,
    pub drop_chain: bool,
    pub accepted: Set<Address>,
}

impl Ruleset {
    /// The rules after `request` has succeeded.
    pub open spec fn after(self, request: Request) -> Ruleset {
        match request {
            Request::Flush => Ruleset { table: false, drop_chain: false, accepted: Set::empty() },
            Request::CreateTable => Ruleset { table: true, ..self },
            Request::CreateChain => Ruleset { drop_chain: true, ..self },
            Request::Allow(address) => Ruleset { accepted: self.accepted.insert(address), ..self },
        }
    }

    /// The rules after each of `requests` has succeeded, in order.
    pub open spec fn after_all(self, requests: Seq<Request>) -> Ruleset
        decreases requests.len(),
    {
        if requests.len() == 0 {
            self
        } else {
            self.after_all(requests.drop_last()).after(requests.last())
        }
    }

    /// The drop chain, and an accept rule for each of `addresses` and for no
    /// other.
    pub open spec fn exactly(addresses: Set<Address>) -> Ruleset {
        Ruleset { table: true, drop_chain: true, accepted: addresses }
    }

    /// No accept rule stands without the drop chain.
    pub open spec fn guarded(self) -> bool {
        self.accepted == Set::<Address>::empty() || (self.table && self.drop_chain)
    }
}

/// The request that discards whatever rules there are.
pub open spec fn flush() -> Seq<Request> {
    seq![Request::Flush]
}

/// The requests that create the managed table and its drop chain.
pub open spec fn base_policy() -> Seq<Request> {
    seq![Request::CreateTable, Request::CreateChain]
}

/// The requests that leave nothing but the drop chain.
pub open spec fn blockade() -> Seq<Request> {
    flush() + base_policy()
}

/// One request to allow each of `addresses`, in their order.
pub open spec fn allow_rules(addresses: Seq<Address>) -> Seq<Request> {
    Seq::new(addresses.len(), |i: int| Request::Allow(addresses[i]))
}

/// The requests that replace whatever rules there are by the drop chain and
/// an accept rule for each of `addresses`.
pub open spec fn replacement(addresses: Seq<Address>) -> Seq<Request> {
    blockade() + allow_rules(addresses)
}

/// The state of a [`Transaction`]: its requests, how many of them have
/// succeeded, and the error of the one that failed.
pub ghost struct TransactionView {
    pub script: Seq<Request>,
    pub done: nat,
    pub failure: Option<FirewallErrorView>,
}

impl TransactionView {
    /// What holds of the state of every transaction: no more requests have
    /// succeeded than there are, and one that failed is among them.
    pub open spec fn well_formed(self) -> bool {
        &&& self.done <= self.script.len()
        &&& self.failure is Some ==> self.done < self.script.len()
    }

    /// A transaction of which nothing has been requested yet.
    pub open spec fn start(script: Seq<Request>) -> TransactionView {
        TransactionView { script, done: 0, failure: None }
    }

    /// The request to perform next; none once a request has failed or all
    /// have succeeded.
    pub open spec fn pending(self) -> Option<Request> {
        if self.failure is None && self.done < self.script.len() {
            Some(self.script[self.done as int])
        } else {
            None
        }
    }

    /// The state after the pending request was answered by `outcome`. A
    /// success moves on to the next request; anything else ends the
    /// transaction with the error of that request. Without a pending request
    /// nothing changes.
    pub open spec fn settle(self, outcome: Outcome) -> TransactionView {
        match self.pending() {
            None => self,
            Some(request) => match request.failure(outcome) {
                None => TransactionView { done: self.done + 1, ..self },
                Some(error) => TransactionView { failure: Some(error), ..self },
            },
        }
    }

    /// How the transaction ended, if it has.
    pub open spec fn result(self) -> Option<Result<(), FirewallErrorView>> {
        match self.failure {
            Some(error) => Some(Err(error)),
            None => if self.done >= self.script.len() {
                Some(Ok(()))
            } else {
                None
            },
        }
    }

    /// The rules that the transaction has reached from `before`: those after
    /// the requests that succeeded.
    pub open spec fn reached(self, before: Ruleset) -> Ruleset {
        before.after_all(self.script.take(self.done as int))
    }
}

/// A sequence of requests to the packet filter, performed one by one until
/// one fails.
///
/// The caller asks for the pending request, performs it, and reports the
/// outcome; it does so until nothing is pending.
#[derive(Debug)]
pub struct Transaction {
    script: Vec<Request>,
    done: usize,
    failure: Option<FirewallError>,
}

impl View for Transaction {
    type V = TransactionView;

    closed spec fn view(&self) -> TransactionView {
        TransactionView {
            script: self.script@,
            done: self.done as nat,
            failure: match self.failure {
                Some(error) => Some(error@),
                None => None,
            },
        }
    }
}

impl Transaction {
    #[verifier::type_invariant]
    spec fn within_script(&self) -> bool {
        &&& self.done <= self.script@.len()
        &&& self.failure is Some ==> self.done < self.script@.len()
    }

    /// A transaction that will perform `script`.
    pub fn new(script: Vec<Request>) -> (transaction: Transaction)
        ensures
            transaction@ == TransactionView::start(script@),
            transaction@.well_formed(),
    {
        Transaction { script, done: 0, failure: None }
    }

    /// The request to perform next.
    pub fn pending(&self) -> (request: Option<Request>)
        ensures
            request == self@.pending(),
            self@.well_formed(),
    {
        proof {
            use_type_invariant(self);
        }
        if self.failure.is_none() && self.done < self.script.len() {
            Some(self.script[self.done])
        } else {
            None
        }
    }

    /// Reports how the pending request went.
    pub fn settle(&mut self, outcome: Outcome)
        ensures
            final(self)@ == old(self)@.settle(outcome),
            final(self)@.well_formed(),
    {
        proof {
            use_type_invariant(&*self);
        }
        if self.failure.is_none() && self.done < self.script.len() {
            let request = self.script[self.done];
            match request.judge(outcome) {
                Ok(()) => {
                    self.done = self.done + 1;
                },
                Err(error) => {
                    self.failure = Some(error);
                },
            }
        }
    }

    /// How the transaction ended, if it has.
    pub fn result(&self) -> (result: Option<Result<(), FirewallError>>)
        ensures
            match self@.result() {
                None => result is None,
                Some(Ok(())) => result == Some(Ok::<(), FirewallError>(())),
                Some(Err(error)) => result is Some && result->Some_0 is Err
                    && result->Some_0->Err_0@ == error,
            },
    {
        proof {
            use_type_invariant(self);
        }
        match &self.failure {
            Some(error) => Some(Err(error.clone())),
            None => if self.done >= self.script.len() {
                Some(Ok(()))
            } else {
                None
            },
        }
    }

    /// The requests of the transaction, performed or not.
    pub fn script(&self) -> (script: Vec<Request>)
        ensures
            script@ == self@.script,
    {
        let script = self.script.clone();
        assert(script@ =~= self.script@);
        script
    }
}

/// The transaction that discards every existing rule and table.
pub fn flush_all() -> (transaction: Transaction)
    ensures
        transaction@ == TransactionView::start(flush()),
{
    let script = vec![Request::Flush];
    assert(script@ =~= flush());
    Transaction::new(script)
}

/// The transaction that creates the managed table and its input chain with
/// the policy to drop. It is for a packet filter that has just been flushed.
pub fn install_base_policy() -> (transaction: Transaction)
    ensures
        transaction@ == TransactionView::start(base_policy()),
{
    let script = vec![Request::CreateTable, Request::CreateChain];
    assert(script@ =~= base_policy());
    Transaction::new(script)
}

/// The transaction that adds the accept rule for one source address.
pub fn add_allow(address: Address) -> (transaction: Transaction)
    ensures
        transaction@ == TransactionView::start(seq![Request::Allow(address)]),
{
    let script = vec![Request::Allow(address)];
    assert(script@ =~= seq![Request::Allow(address)]);
    Transaction::new(script)
}

/// The transaction that discards every rule and installs the drop chain.
pub fn block_all() -> (transaction: Transaction)
    ensures
        transaction@ == TransactionView::start(blockade()),
{
    let mut script = flush_all().script();
    let mut base = install_base_policy().script();
    script.append(&mut base);
    Transaction::new(script)
}

/// The transaction that adds an accept rule for each address of `ips`.
pub fn add_allowed(ips: &AllowedAddresses) -> (transaction: Transaction)
    ensures
        transaction@ == TransactionView::start(allow_rules(ips.order())),
        ips.order().no_duplicates(),
{
    let addresses = ips.to_vec();
    let mut script: Vec<Request> = Vec::new();
    let mut i: usize = 0;
    while i < addresses.len()
        invariant
            i <= addresses@.len(),
            script@ == allow_rules(addresses@.take(i as int)),
        decreases addresses@.len() - i,
    {
        script.push(Request::Allow(addresses[i]));
        i = i + 1;
        assert(script@ =~= allow_rules(addresses@.take(i as int)));
    }
    assert(addresses@.take(i as int) =~= addresses@);
    Transaction::new(script)
}

/// The transaction that replaces whatever rules there are by the drop chain
/// and an accept rule for each address of `ips`: first the flush, then the
/// drop chain, then the accept rules.
pub fn apply(ips: &AllowedAddresses) -> (transaction: Transaction)
    ensures
        transaction@ == TransactionView::start(replacement(ips.order())),
        ips.order().no_duplicates(),
{
    let mut script = block_all().script();
    let mut rules = add_allowed(ips).script();
    script.append(&mut rules);
    Transaction::new(script)
}

/// The transaction that replaces whatever rules there are by the drop chain
/// and an accept rule for each address that `cfg` allows.
pub fn reload_allowed_ips(cfg: &Config) -> (transaction: Transaction)
    ensures
        transaction@ == TransactionView::start(replacement(distinct(cfg.addresses()))),
{
    apply(&collect_ips(cfg))
}

/// The state of a transaction over `script` after the outcomes of its first
/// requests have come in, one outcome for each request performed.
pub open spec fn replay(script: Seq<Request>, outcomes: Seq<Outcome>) -> TransactionView
    decreases outcomes.len(),
{
    if outcomes.len() == 0 {
        TransactionView::start(script)
    } else {
        replay(script, outcomes.drop_last()).settle(outcomes.last())
    }
}

/// The requests that were performed while `outcomes` came in: each outcome
/// answers the request that was pending when it came.
pub open spec fn requested(script: Seq<Request>, outcomes: Seq<Outcome>) -> Seq<Request>
    decreases outcomes.len(),
{
    if outcomes.len() == 0 {
        Seq::empty()
    } else {
        let earlier = requested(script, outcomes.drop_last());
        match replay(script, outcomes.drop_last()).pending() {
            Some(request) => earlier.push(request),
            None => earlier,
        }
    }
}

/// How many outcomes at the front of `outcomes` are successes.
pub open spec fn leading_successes(outcomes: Seq<Outcome>) -> nat
    decreases outcomes.len(),
{
    if outcomes.len() == 0 {
        0
    } else {
        let earlier = leading_successes(outcomes.drop_last());
        if earlier == outcomes.len() - 1 && outcomes.last() is Success {
            earlier + 1
        } else {
            earlier
        }
    }
}

/// How many requests of a script of `length` requests are performed while
/// `outcomes` come in: one for each leading success and one for the outcome
/// that follows them, but no more than the script has.
pub open spec fn attempts(length: nat, outcomes: Seq<Outcome>) -> nat {
    let n = leading_successes(outcomes);
    if n < outcomes.len() && n < length {
        n + 1
    } else if n < length {
        n
    } else {
        length
    }
}

/// `leading_successes` counts the successes before the first outcome that
/// is none.
pub proof fn lemma_leading_successes(outcomes: Seq<Outcome>)
    ensures
        leading_successes(outcomes) <= outcomes.len(),
        forall|i: int| 0 <= i < leading_successes(outcomes) ==> outcomes[i] is Success,
        leading_successes(outcomes) < outcomes.len() ==> !(outcomes[leading_successes(
            outcomes,
        ) as int] is Success),
    decreases outcomes.len(),
{
    if outcomes.len() > 0 {
        let front = outcomes.drop_last();
        lemma_leading_successes(front);
        assert forall|i: int| 0 <= i < leading_successes(outcomes) implies outcomes[i] is Success by {
            if i < front.len() {
                assert(front[i] == outcomes[i]);
            }
        }
    }
}

/// What a transaction has come to after any outcomes: as many requests have
/// succeeded as successes came first, up to the end of the script; the
/// first other outcome, if it came before the end, is its failure; and the
/// requests performed are the script up to the one that failed, in order.
pub proof fn lemma_replay(script: Seq<Request>, outcomes: Seq<Outcome>)
    ensures
        ({
            let n = leading_successes(outcomes);
            let state = replay(script, outcomes);
            &&& state.script == script
            &&& state.done == if n < script.len() {
                n
            } else {
                script.len()
            }
            &&& state.failure == if n < outcomes.len() && n < script.len() {
                script[n as int].failure(outcomes[n as int])
            } else {
                None
            }
            &&& requested(script, outcomes) == script.take(attempts(script.len(), outcomes) as int)
        }),
    decreases outcomes.len(),
{
    lemma_leading_successes(outcomes);
    if outcomes.len() == 0 {
        assert(requested(script, outcomes) =~= script.take(0));
    } else {
        let front = outcomes.drop_last();
        lemma_replay(script, front);
        lemma_leading_successes(front);
        assert(requested(script, outcomes) =~= script.take(
            attempts(script.len(), outcomes) as int,
        ));
    }
}

/// Ordering of a transaction that succeeds: it has succeeded exactly when
/// as many successes came first as the script has requests, and then every
/// request of the script was performed, once and in the script's order.
pub proof fn law_success_performs_script(script: Seq<Request>, outcomes: Seq<Outcome>)
    ensures
        replay(script, outcomes).result() == Some(Ok::<(), FirewallErrorView>(()))
            <==> leading_successes(outcomes) >= script.len(),
        replay(script, outcomes).result() == Some(Ok::<(), FirewallErrorView>(()))
            ==> requested(script, outcomes) == script,
{
    lemma_replay(script, outcomes);
    lemma_leading_successes(outcomes);
    if leading_successes(outcomes) >= script.len() {
        assert(script.take(script.len() as int) =~= script);
    }
}

/// Ordering of a transaction that fails: it has failed exactly when an
/// outcome other than success came for a request of the script. That
/// request is the last one performed, whatever outcomes follow, and its
/// error is the result.
pub proof fn law_failure_ends_script(script: Seq<Request>, outcomes: Seq<Outcome>)
    ensures
        ({
            let k = leading_successes(outcomes);
            let failed = k < outcomes.len() && k < script.len();
            &&& replay(script, outcomes).result() is Some && replay(
                script,
                outcomes,
            ).result()->Some_0 is Err <==> failed
            &&& failed ==> {
                &&& !(outcomes[k as int] is Success)
                &&& forall|i: int| 0 <= i < k ==> outcomes[i] is Success
                &&& requested(script, outcomes) == script.take(k as int + 1)
                &&& replay(script, outcomes).result() == Some(
                    Err::<(), FirewallErrorView>(
                        script[k as int].failure(outcomes[k as int])->Some_0,
                    ),
                )
            }
        }),
{
    lemma_replay(script, outcomes);
    lemma_leading_successes(outcomes);
}

/// The rules after the first `k` requests are those after the first
/// `k - 1`, changed by the last of them.
proof fn lemma_after_one_more(before: Ruleset, requests: Seq<Request>, k: int)
    requires
        0 < k <= requests.len(),
    ensures
        before.after_all(requests.take(k)) == before.after_all(requests.take(k - 1)).after(
            requests[k - 1],
        ),
{
    assert(requests.take(k).drop_last() =~= requests.take(k - 1));
}

/// The rules after the first `k` requests of a replacement, for `k` of at
/// least three: the drop chain and an accept rule for each of the first
/// `k - 3` addresses.
proof fn lemma_replacement_prefix(before: Ruleset, addresses: Seq<Address>, k: int)
    requires
        3 <= k <= replacement(addresses).len(),
    ensures
        before.after_all(replacement(addresses).take(k)) == Ruleset::exactly(
            addresses.take(k - 3).to_set(),
        ),
    decreases k,
{
    let script = replacement(addresses);
    lemma_after_one_more(before, script, k);
    if k == 3 {
        lemma_after_one_more(before, script, 2);
        lemma_after_one_more(before, script, 1);
        assert(addresses.take(0).to_set() =~= Set::<Address>::empty());
    } else {
        lemma_replacement_prefix(before, addresses, k - 1);
        let earlier = addresses.take(k - 4);
        let now = addresses.take(k - 3);
        assert(script[k - 1] == Request::Allow(addresses[k - 4]));
        assert(now =~= earlier.push(addresses[k - 4]));
        assert forall|a: Address| now.to_set().contains(a) <==> earlier.to_set().insert(
            addresses[k - 4],
        ).contains(a) by {
            if earlier.contains(a) {
                let i = choose|i: int| 0 <= i < earlier.len() && earlier[i] == a;
                assert(now[i] == a);
            }
            if a == addresses[k - 4] {
                assert(now[now.len() - 1] == a);
            }
        }
        assert(now.to_set() =~= earlier.to_set().insert(addresses[k - 4]));
    }
}

/// A replacement that succeeds leaves, whatever rules there were before, the
/// drop chain and accept rules for exactly the given addresses.
pub proof fn law_replacement_installs_exactly(before: Ruleset, addresses: Seq<Address>)
    ensures
        before.after_all(replacement(addresses)) == Ruleset::exactly(addresses.to_set()),
{
    let script = replacement(addresses);
    lemma_replacement_prefix(before, addresses, script.len() as int);
    assert(script.take(script.len() as int) =~= script);
    assert(addresses.take(addresses.len() as int) =~= addresses);
}

/// A replacement fails closed: once its flush has succeeded, however far it
/// gets, no accept rule stands without the drop chain, and none for an
/// address that was not given.
pub proof fn law_replacement_fails_closed(before: Ruleset, addresses: Seq<Address>, k: int)
    requires
        1 <= k <= replacement(addresses).len(),
    ensures
        before.after_all(replacement(addresses).take(k)).guarded(),
        before.after_all(replacement(addresses).take(k)).accepted.subset_of(addresses.to_set()),
{
    let script = replacement(addresses);
    if k >= 3 {
        lemma_replacement_prefix(before, addresses, k);
        let shown = addresses.take(k - 3);
        assert forall|a: Address| shown.to_set().contains(a) implies addresses.to_set().contains(
            a,
        ) by {
            let i = choose|i: int| 0 <= i < shown.len() && shown[i] == a;
            assert(addresses[i] == a);
        }
    } else {
        lemma_after_one_more(before, script, 1);
        if k == 2 {
            lemma_after_one_more(before, script, 2);
        }
    }
}

/// The replacement for no addresses still installs the drop chain, and adds
/// no accept rule: it leaves the drop chain alone.
pub proof fn law_replacement_for_nothing(before: Ruleset)
    ensures
        replacement(Seq::<Address>::empty()) == blockade(),
        before.after_all(replacement(Seq::<Address>::empty())) == Ruleset::exactly(
            Set::<Address>::empty(),
        ),
{
    assert(replacement(Seq::<Address>::empty()) =~= blockade());
    law_replacement_installs_exactly(before, Seq::<Address>::empty());
    assert(Seq::<Address>::empty().to_set() =~= Set::<Address>::empty());
}

/// In a replacement no accept rule is asked for before the flush and the drop
/// chain: its first three requests are these, whatever the addresses, and
/// every request after them allows one of the addresses, each address once.
pub proof fn law_replacement_order(addresses: Seq<Address>, i: int)
    requires
        0 <= i < replacement(addresses).len(),
    ensures
        replacement(addresses).len() == 3 + addresses.len(),
        i == 0 ==> replacement(addresses)[i] == Request::Flush,
        i == 1 ==> replacement(addresses)[i] == Request::CreateTable,
        i == 2 ==> replacement(addresses)[i] == Request::CreateChain,
        i >= 3 ==> replacement(addresses)[i] == Request::Allow(addresses[i - 3]),
{
}

/// A replacement for addresses of which none is given twice asks for
/// nothing twice: one accept rule for each address.
pub proof fn law_replacement_allows_each_once(addresses: Seq<Address>)
    requires
        addresses.no_duplicates(),
    ensures
        replacement(addresses).no_duplicates(),
{
    let script = replacement(addresses);
    assert forall|i: int, j: int| 0 <= i < script.len() && 0 <= j < script.len() && i != j implies script[i]
        != script[j] by {
        law_replacement_order(addresses, i);
        law_replacement_order(addresses, j);
    }
}

/// A replacement is performed in its order and fails closed: whatever the
/// packet filter answers, the requests performed are the first requests of
/// the replacement, without a gap; an accept rule is asked for only after
/// the flush and the drop chain have succeeded; and a replacement that
/// succeeds has performed the flush, the drop chain and one accept rule for
/// each address, and nothing else.
pub proof fn law_replacement_performed_in_order(
    addresses: Seq<Address>,
    outcomes: Seq<Outcome>,
    i: int,
)
    requires
        0 <= i < requested(replacement(addresses), outcomes).len(),
    ensures
        ({
            let script = replacement(addresses);
            let asked = requested(script, outcomes);
            &&& asked.len() <= script.len()
            &&& asked == script.take(asked.len() as int)
            &&& asked[i] is Allow ==> {
                &&& i >= 3
                &&& outcomes[0] is Success
                &&& outcomes[1] is Success
                &&& outcomes[2] is Success
                &&& asked[i] == Request::Allow(addresses[i - 3])
            }
            &&& replay(script, outcomes).result() == Some(Ok::<(), FirewallErrorView>(()))
                ==> asked == flush() + base_policy() + allow_rules(addresses)
        }),
{
    let script = replacement(addresses);
    lemma_replay(script, outcomes);
    lemma_leading_successes(outcomes);
    law_success_performs_script(script, outcomes);
    law_replacement_order(addresses, i);
}

} // verus!
