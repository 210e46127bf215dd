//! The life of one invocation of the controller, as a sequence of actions
//! and of the events that answer them.
//!
//! A [`Controller`] decides; it performs nothing. Its caller performs the
//! action that the controller asks for and hands back what happened as an
//! [`Event`], until the action is [`Action::Exit`].

use crate::config::Config;
use crate::errors::{FirewallError, FirewallErrorView, OwlError, OwlErrorView, TunError};
use crate::firewall::{
    ensure_net_admin, law_replacement_fails_closed, law_replacement_installs_exactly,
    reload_allowed_ips, replacement, Outcome, Request, Ruleset, Transaction, TransactionView,
};
use crate::policy::{distinct, lemma_distinct};
use vstd::prelude::*;
use vstd::string::*;

verus! {

/// What the controller was invoked for.
#[derive(Clone, Copy, Debug, PartialEq, Eq, Structural)]
pub enum Mode {
    /// Validate the configuration and touch nothing.
    Check,
    /// Replace the rules of the packet filter, bring up the tunnel, and run
    /// until asked to stop.
    Start,
    /// Replace the rules of the packet filter and tell the running tunnel.
    Reload,
}

/// Where an invocation stands.
#[derive(Clone, Copy, Debug, PartialEq, Eq, Structural)]
pub enum Phase {
    /// Waiting for the configuration.
    Loading,
    /// Replacing the rules of the packet filter.
    Applying,
    /// Waiting for the tunnel to come up.
    Spawning,
    /// Waiting for the running tunnel to take the notice.
    Signalling,
    /// The tunnel is up; waiting to be asked to stop.
    Running,
    /// Over, with a result.
    Terminated,
}

/// What the caller is to do next.
#[derive(Clone, Copy, Debug, PartialEq, Eq, Structural)]
pub enum Action {
    /// Load the configuration; answered by [`Event::Config`].
    LoadConfig,
    /// Perform one request to the packet filter; answered by
    /// [`Event::Filter`].
    RunFilter(Request),
    /// Bring up the tunnel with the controller's configuration; answered by
    /// [`Event::Spawned`].
    SpawnTunnel,
    /// Tell the running tunnel that the configuration changed; answered by
    /// [`Event::Signalled`].
    SignalReload,
    /// Wait, without polling, until asked to stop; answered by
    /// [`Event::Stopped`].
    AwaitTermination,
    /// Leave with the controller's result.
    Exit,
}

/// What happened when the caller performed an action.
#[derive(Debug)]
pub enum Event {
    /// The configuration, or why there is none.
    Config(Result<Config, OwlError>),
    /// The answer of the packet filter to the request.
    Filter(Outcome),
    /// Whether the tunnel came up.
    Spawned(Result<(), TunError>),
    /// Whether the running tunnel took the notice.
    Signalled(Result<(), TunError>),
    /// The request to stop came, or waiting for it failed with the given
    /// diagnostic.
    Stopped(Result<(), String>),
}

/// The diagnostic for a configuration with a peer that has no identity.
pub open spec fn malformed_peer() -> Seq<char> {
    "a peer has an empty public_key"@
}

/// The diagnostic for an event that does not answer the action asked for.
pub open spec fn unexpected_event() -> Seq<char> {
    "the event does not answer the action"@
}

/// The state of a [`Controller`].
pub ghost struct ControllerView {
    pub mode: Mode,
    pub phase: Phase,
    /// The replacement of the rules; empty until the configuration is
    /// loaded.
    pub rules: TransactionView,
    /// The configuration, once loaded.
    pub config: Option<Config>,
    /// The result, once terminated.
    pub result: Result<(), OwlErrorView>,
}

impl ControllerView {
    /// The state in which an invocation begins, given how the privilege
    /// check went: without the privilege it is over at once.
    pub open spec fn init(mode: Mode, privilege: Result<(), FirewallError>) -> ControllerView {
        ControllerView {
            mode,
            phase: match privilege {
                Ok(_) => Phase::Loading,
                Err(_) => Phase::Terminated,
            },
            rules: TransactionView::start(Seq::empty()),
            config: None,
            result: match privilege {
                Ok(_) => Ok(()),
                Err(error) => Err(OwlErrorView::Firewall(error@)),
            },
        }
    }

    /// This state, terminated with `result`.
    pub open spec fn end(self, result: Result<(), OwlErrorView>) -> ControllerView {
        ControllerView { phase: Phase::Terminated, result, ..self }
    }

    /// The action that the caller is to perform in this state.
    pub open spec fn action(self) -> Action {
        match self.phase {
            Phase::Loading => Action::LoadConfig,
            Phase::Applying => match self.rules.pending() {
                Some(request) => Action::RunFilter(request),
                None => Action::Exit,
            },
            Phase::Spawning => Action::SpawnTunnel,
            Phase::Signalling => Action::SignalReload,
            Phase::Running => Action::AwaitTermination,
            Phase::Terminated => Action::Exit,
        }
    }

    /// The state after a configuration was loaded. A malformed one ends the
    /// invocation; a check ends with success; otherwise the replacement of
    /// the rules begins.
    pub open spec fn loaded(self, cfg: Config) -> ControllerView {
        if !cfg.well_formed() {
            self.end(Err(OwlErrorView::ConfigParseFailed(malformed_peer())))
        } else if self.mode is Check {
            ControllerView { config: Some(cfg), ..self }.end(Ok(()))
        } else {
            ControllerView {
                phase: Phase::Applying,
                rules: TransactionView::start(replacement(distinct(cfg.addresses()))),
                config: Some(cfg),
                ..self
            }
        }
    }

    /// The state after the packet filter answered the pending request. A
    /// failure ends the invocation; after the last success the tunnel is
    /// brought up, or told, as the mode says.
    pub open spec fn answered(self, outcome: Outcome) -> ControllerView {
        let rules = self.rules.settle(outcome);
        let next = ControllerView { rules, ..self };
        match rules.result() {
            None => next,
            Some(Err(error)) => next.end(Err(OwlErrorView::Firewall(error))),
            Some(Ok(_)) => ControllerView {
                phase: if self.mode is Start {
                    Phase::Spawning
                } else {
                    Phase::Signalling
                },
                ..next
            },
        }
    }

    /// The state after `event`. Every failure ends the invocation with its
    /// error, and so does an event that does not answer the action of this
    /// state; once terminated, nothing changes.
    pub open spec fn step(self, event: Event) -> ControllerView {
        let unexpected = self.end(Err(OwlErrorView::Other(unexpected_event())));
        match self.phase {
            Phase::Terminated => self,
            Phase::Loading => match event {
                Event::Config(Ok(cfg)) => self.loaded(cfg),
                Event::Config(Err(error)) => self.end(Err(error@)),
                _ => unexpected,
            },
            Phase::Applying => match event {
                Event::Filter(outcome) => self.answered(outcome),
                _ => unexpected,
            },
            Phase::Spawning => match event {
                Event::Spawned(Ok(_)) => ControllerView { phase: Phase::Running, ..self },
                Event::Spawned(Err(error)) => self.end(Err(OwlErrorView::Tun(error@))),
                _ => unexpected,
            },
            Phase::Signalling => match event {
                Event::Signalled(Ok(_)) => self.end(Ok(())),
                Event::Signalled(Err(error)) => self.end(Err(OwlErrorView::Tun(error@))),
                _ => unexpected,
            },
            Phase::Running => match event {
                Event::Stopped(Ok(_)) => self.end(Ok(())),
                Event::Stopped(Err(detail)) => self.end(Err(OwlErrorView::Other(detail@))),
                _ => unexpected,
            },
        }
    }

    /// The result of the invocation, once it is over.
    pub open spec fn outcome(self) -> Option<Result<(), OwlErrorView>> {
        if self.phase is Terminated {
            Some(self.result)
        } else {
            None
        }
    }
}

/// One invocation of the controller.
#[derive(Debug)]
pub struct Controller {
    mode: Mode,
    phase: Phase,
    rules: Transaction,
    config: Option<Config>,
    result: Result<(), OwlError>,
}

impl View for Controller {
    type V = ControllerView;

    closed spec fn view(&self) -> ControllerView {
        ControllerView {
            mode: self.mode,
            phase: self.phase,
            rules: self.rules@,
            config: self.config,
            result: match self.result {
                Ok(_) => Ok(()),
                Err(error) => Err(error@),
            },
        }
    }
}

impl Controller {
    /// An invocation in `mode`, given how the privilege check went.
    pub fn new(mode: Mode, privilege: Result<(), FirewallError>) -> (controller: Controller)
        ensures
            controller@ == ControllerView::init(mode, privilege),
            controller@.sound(),
    {
        let rules = Transaction::new(Vec::new());
        match privilege {
            Ok(_) => Controller { mode, phase: Phase::Loading, rules, config: None, result: Ok(()) },
            Err(error) => Controller {
                mode,
                phase: Phase::Terminated,
                rules,
                config: None,
                result: Err(OwlError::Firewall(error)),
            },
        }
    }

    /// An invocation in `mode`, after the privilege check of this process.
    pub fn begin(mode: Mode) -> (controller: Controller)
        ensures
            controller@ == ControllerView::init(mode, Ok(())) || controller@
                == ControllerView::init(
                mode,
                Err(FirewallError::NetAdminRequired),
            ),
            controller@.sound(),
    {
        Controller::new(mode, ensure_net_admin())
    }

    /// The action that the caller is to perform now.
    pub fn action(&self) -> (action: Action)
        ensures
            action == self@.action(),
    {
        match self.phase {
            Phase::Loading => Action::LoadConfig,
            Phase::Applying => match self.rules.pending() {
                Some(request) => Action::RunFilter(request),
                None => Action::Exit,
            },
            Phase::Spawning => Action::SpawnTunnel,
            Phase::Signalling => Action::SignalReload,
            Phase::Running => Action::AwaitTermination,
            Phase::Terminated => Action::Exit,
        }
    }

    /// Ends the invocation with `error`.
    fn fail(&mut self, error: OwlError)
        ensures
            final(self)@ == old(self)@.end(Err(error@)),
    {
        self.phase = Phase::Terminated;
        self.result = Err(error);
    }

    /// Ends the invocation with success.
    fn finish(&mut self)
        ensures
            final(self)@ == old(self)@.end(Ok(())),
    {
        self.phase = Phase::Terminated;
        self.result = Ok(());
    }

    /// Ends the invocation because the event was not the one awaited.
    fn reject(&mut self)
        ensures
            final(self)@ == old(self)@.end(Err(OwlErrorView::Other(unexpected_event()))),
    {
        self.fail(OwlError::Other(String::from_str("the event does not answer the action")));
    }

    /// Takes what happened when the caller performed the action, and says
    /// what to do next.
    pub fn handle(&mut self, event: Event) -> (next: Action)
        ensures
            final(self)@ == old(self)@.step(event),
            next == final(self)@.action(),
            old(self)@.sound() ==> final(self)@.sound(),
    {
        proof {
            if old(self)@.sound() {
                lemma_step_sound(old(self)@, event);
            }
        }
        match self.phase {
            Phase::Terminated => {},
            Phase::Loading => match event {
                Event::Config(Ok(cfg)) => {
                    if !cfg.is_well_formed() {
                        self.fail(
                            OwlError::ConfigParseFailed(
                                String::from_str("a peer has an empty public_key"),
                            ),
                        );
                    } else {
                        match self.mode {
                            Mode::Check => {
                                self.config = Some(cfg);
                                self.finish();
                            },
                            _ => {
                                self.rules = reload_allowed_ips(&cfg);
                                self.config = Some(cfg);
                                self.phase = Phase::Applying;
                            },
                        }
                    }
                },
                Event::Config(Err(error)) => {
                    self.fail(error);
                },
                _ => {
                    self.reject();
                },
            },
            Phase::Applying => match event {
                Event::Filter(outcome) => {
                    self.rules.settle(outcome);
                    match self.rules.result() {
                        None => {},
                        Some(Err(error)) => {
                            self.fail(OwlError::Firewall(error));
                        },
                        Some(Ok(_)) => {
                            self.phase = match self.mode {
                                Mode::Start => Phase::Spawning,
                                _ => Phase::Signalling,
                            };
                        },
                    }
                },
                _ => {
                    self.reject();
                },
            },
            Phase::Spawning => match event {
                Event::Spawned(Ok(_)) => {
                    self.phase = Phase::Running;
                },
                Event::Spawned(Err(error)) => {
                    self.fail(OwlError::Tun(error));
                },
                _ => {
                    self.reject();
                },
            },
            Phase::Signalling => match event {
                Event::Signalled(Ok(_)) => {
                    self.finish();
                },
                Event::Signalled(Err(error)) => {
                    self.fail(OwlError::Tun(error));
                },
                _ => {
                    self.reject();
                },
            },
            Phase::Running => match event {
                Event::Stopped(Ok(_)) => {
                    self.finish();
                },
                Event::Stopped(Err(detail)) => {
                    self.fail(OwlError::Other(detail));
                },
                _ => {
                    self.reject();
                },
            },
        }
        self.action()
    }

    /// The result of the invocation, once it is over.
    pub fn result(&self) -> (result: Option<Result<(), OwlError>>)
        ensures
            match self@.outcome() {
                None => result is None,
                Some(Ok(_)) => result == Some(Ok::<(), OwlError>(())),
                Some(Err(error)) => result is Some && result->Some_0 is Err
                    && result->Some_0->Err_0@ == error,
            },
    {
        match self.phase {
            Phase::Terminated => match &self.result {
                Ok(_) => Some(Ok(())),
                Err(error) => Some(Err(error.clone())),
            },
            _ => None,
        }
    }

    /// The configuration, once loaded.
    pub fn config(&self) -> (config: Option<&Config>)
        ensures
            match self@.config {
                None => config is None,
                Some(cfg) => config == Some(&cfg),
            },
    {
        self.config.as_ref()
    }

    /// What the controller was invoked for.
    pub fn mode(&self) -> (mode: Mode)
        ensures
            mode == self@.mode,
    {
        self.mode
    }
}

impl Action {
    /// Whether the action reaches the tunnel.
    pub open spec fn touches_tunnel(self) -> bool {
        self is SpawnTunnel || self is SignalReload
    }

    /// Whether the action reaches the packet filter.
    pub open spec fn touches_filter(self) -> bool {
        self is RunFilter
    }
}

/// The script that an invocation in `mode` has for the packet filter once
/// its configuration is `config`: the replacement for the addresses that
/// the configuration allows, or nothing for a check and before a
/// configuration is loaded.
pub open spec fn script_for(mode: Mode, config: Option<Config>) -> Seq<Request> {
    match config {
        Some(cfg) => if mode is Check {
            Seq::empty()
        } else {
            replacement(distinct(cfg.addresses()))
        },
        None => Seq::empty(),
    }
}

impl ControllerView {
    /// What holds of every state that an invocation can come to. The
    /// requests for the packet filter are those for the loaded
    /// configuration; the rules are being replaced only while a request is
    /// pending; the tunnel is reached only in the mode that asks for it and
    /// only after the replacement has succeeded; and an invocation that has
    /// ended with success has replaced the rules, while one whose
    /// replacement failed has that failure for its result.
    pub open spec fn sound(self) -> bool {
        &&& self.rules.done <= self.rules.script.len()
        &&& self.rules.script == script_for(self.mode, self.config)
        &&& match self.phase {
            Phase::Loading => self.config is None && self.rules.failure is None,
            Phase::Applying => self.rules.pending() is Some,
            Phase::Spawning => self.mode is Start && self.config is Some && self.rules.result()
                == Some(Ok::<(), FirewallErrorView>(())),
            Phase::Running => self.mode is Start && self.config is Some && self.rules.result()
                == Some(Ok::<(), FirewallErrorView>(())),
            Phase::Signalling => self.mode is Reload && self.config is Some && self.rules.result()
                == Some(Ok::<(), FirewallErrorView>(())),
            Phase::Terminated => {
                &&& self.result is Ok ==> self.config is Some && self.rules.result() == Some(
                    Ok::<(), FirewallErrorView>(()),
                )
                &&& self.rules.failure is Some ==> self.result == Err::<(), OwlErrorView>(
                    OwlErrorView::Firewall(self.rules.failure->Some_0),
                )
            },
        }
    }

    /// Whether the replacement of the rules is behind this state: nothing
    /// will be asked of the packet filter any more.
    pub open spec fn past_rules(self) -> bool {
        self.phase is Spawning || self.phase is Running || self.phase is Signalling
            || self.phase is Terminated
    }

    /// Whether the tunnel is behind this state: nothing will be asked of it
    /// any more.
    pub open spec fn past_tunnel(self) -> bool {
        self.phase is Running || self.phase is Terminated
    }
}

/// The state after the events, each answering the action of the state before
/// it.
pub open spec fn run(start: ControllerView, events: Seq<Event>) -> ControllerView
    decreases events.len(),
{
    if events.len() == 0 {
        start
    } else {
        run(start, events.drop_last()).step(events.last())
    }
}

/// The actions that were performed while the events came in: the action of
/// the state before each event.
pub open spec fn performed(start: ControllerView, events: Seq<Event>) -> Seq<Action> {
    Seq::new(events.len(), |i: int| run(start, events.take(i)).action())
}

/// The requests to the packet filter among `actions`, in their order.
pub open spec fn filter_requests(actions: Seq<Action>) -> Seq<Request>
    decreases actions.len(),
{
    if actions.len() == 0 {
        Seq::empty()
    } else {
        let earlier = filter_requests(actions.drop_last());
        match actions.last() {
            Action::RunFilter(request) => earlier.push(request),
            _ => earlier,
        }
    }
}

/// Every step keeps a sound state sound.
pub proof fn lemma_step_sound(state: ControllerView, event: Event)
    requires
        state.sound(),
    ensures
        state.step(event).sound(),
        state.step(event).mode == state.mode,
{
    if let Event::Config(Ok(cfg)) = event {
        assert(replacement(distinct(cfg.addresses())).len() >= 3);
    }
}

/// Every state that an invocation comes to is sound.
pub proof fn lemma_run_sound(mode: Mode, privilege: Result<(), FirewallError>, events: Seq<Event>)
    ensures
        run(ControllerView::init(mode, privilege), events).sound(),
        run(ControllerView::init(mode, privilege), events).mode == mode,
    decreases events.len(),
{
    if events.len() > 0 {
        lemma_run_sound(mode, privilege, events.drop_last());
        lemma_step_sound(
            run(ControllerView::init(mode, privilege), events.drop_last()),
            events.last(),
        );
    }
}

/// Running through events is running through the first `i` of them and then
/// through the rest.
pub proof fn lemma_run_split(start: ControllerView, events: Seq<Event>, i: int)
    requires
        0 <= i <= events.len(),
    ensures
        run(start, events) == run(run(start, events.take(i)), events.skip(i)),
    decreases events.len(),
{
    if i == events.len() {
        assert(events.take(i) =~= events);
    } else {
        let front = events.drop_last();
        lemma_run_split(start, front, i);
        assert(front.take(i) =~= events.take(i));
        assert(events.skip(i).drop_last() =~= front.skip(i));
    }
}

/// Once the replacement of the rules is behind, it stays behind, and the
/// rules are as they were.
pub proof fn lemma_rules_settled(start: ControllerView, events: Seq<Event>)
    requires
        start.past_rules(),
    ensures
        run(start, events).past_rules(),
        run(start, events).rules == start.rules,
    decreases events.len(),
{
    if events.len() > 0 {
        lemma_rules_settled(start, events.drop_last());
    }
}

/// Once the tunnel is behind, it stays behind.
pub proof fn lemma_tunnel_settled(start: ControllerView, events: Seq<Event>)
    requires
        start.past_tunnel(),
    ensures
        run(start, events).past_tunnel(),
    decreases events.len(),
{
    if events.len() > 0 {
        lemma_tunnel_settled(start, events.drop_last());
    }
}

/// The privilege comes first: without it the invocation is over before
/// anything is performed, with the error of the check as its result, and
/// whatever events come, neither the packet filter nor the tunnel nor the
/// configuration is ever asked for.
pub proof fn law_no_privilege_no_action(mode: Mode, error: FirewallError, events: Seq<Event>)
    ensures
        ControllerView::init(mode, Err(error)).action() == Action::Exit,
        ControllerView::init(mode, Err(error)).outcome() == Some(
            Err::<(), OwlErrorView>(OwlErrorView::Firewall(error@)),
        ),
        run(ControllerView::init(mode, Err(error)), events) == ControllerView::init(
            mode,
            Err(error),
        ),
        forall|i: int|
            0 <= i < events.len() ==> #[trigger] performed(
                ControllerView::init(mode, Err(error)),
                events,
            )[i] == Action::Exit,
    decreases events.len(),
{
    let start = ControllerView::init(mode, Err(error));
    if events.len() > 0 {
        law_no_privilege_no_action(mode, error, events.drop_last());
    }
    assert forall|i: int| 0 <= i < events.len() implies #[trigger] performed(start, events)[i]
        == Action::Exit by {
        law_no_privilege_no_action(mode, error, events.take(i));
    }
}

/// The rules come before the tunnel: where the replacement of the rules has
/// failed, the tunnel was never brought up nor told, at no point of the
/// invocation, whatever events came before or after the failure; and the
/// failure is the result of the invocation.
pub proof fn law_failed_rules_spare_tunnel(
    mode: Mode,
    privilege: Result<(), FirewallError>,
    events: Seq<Event>,
    i: int,
)
    requires
        0 <= i < events.len(),
        run(ControllerView::init(mode, privilege), events).rules.failure is Some,
    ensures
        !performed(ControllerView::init(mode, privilege), events)[i].touches_tunnel(),
        run(ControllerView::init(mode, privilege), events).outcome() == Some(
            Err::<(), OwlErrorView>(
                OwlErrorView::Firewall(
                    run(ControllerView::init(mode, privilege), events).rules.failure->Some_0,
                ),
            ),
        ),
{
    let start = ControllerView::init(mode, privilege);
    let then = run(start, events.take(i));
    lemma_run_sound(mode, privilege, events.take(i));
    lemma_run_sound(mode, privilege, events);
    if then.action().touches_tunnel() {
        lemma_run_split(start, events, i);
        lemma_rules_settled(then, events.skip(i));
    }
}

/// In a reload the tunnel is told only once every request of the replacement
/// has succeeded.
pub proof fn law_reload_signals_after_rules(
    privilege: Result<(), FirewallError>,
    events: Seq<Event>,
    i: int,
)
    requires
        0 <= i < events.len(),
        performed(ControllerView::init(Mode::Reload, privilege), events)[i] == Action::SignalReload,
    ensures
        run(ControllerView::init(Mode::Reload, privilege), events.take(i)).rules.result() == Some(
            Ok::<(), FirewallErrorView>(()),
        ),
        run(ControllerView::init(Mode::Reload, privilege), events).rules.result() == Some(
            Ok::<(), FirewallErrorView>(()),
        ),
{
    let start = ControllerView::init(Mode::Reload, privilege);
    let then = run(start, events.take(i));
    lemma_run_sound(Mode::Reload, privilege, events.take(i));
    lemma_run_split(start, events, i);
    lemma_rules_settled(then, events.skip(i));
}

/// A check touches nothing: whatever events come, it asks for the
/// configuration and for nothing else before it leaves.
pub proof fn law_check_touches_nothing(
    privilege: Result<(), FirewallError>,
    events: Seq<Event>,
    i: int,
)
    requires
        0 <= i < events.len(),
    ensures
        ({
            let action = performed(ControllerView::init(Mode::Check, privilege), events)[i];
            action == Action::LoadConfig || action == Action::Exit
        }),
{
    lemma_run_sound(Mode::Check, privilege, events.take(i));
}

/// The tunnel is brought up only by a start and told only by a reload.
pub proof fn law_tunnel_fits_mode(
    mode: Mode,
    privilege: Result<(), FirewallError>,
    events: Seq<Event>,
    i: int,
)
    requires
        0 <= i < events.len(),
    ensures
        performed(ControllerView::init(mode, privilege), events)[i] == Action::SpawnTunnel
            ==> mode is Start,
        performed(ControllerView::init(mode, privilege), events)[i] == Action::SignalReload
            ==> mode is Reload,
{
    lemma_run_sound(mode, privilege, events.take(i));
}

/// The tunnel is reached at most once in an invocation.
pub proof fn law_tunnel_reached_once(
    mode: Mode,
    privilege: Result<(), FirewallError>,
    events: Seq<Event>,
    i: int,
    j: int,
)
    requires
        0 <= i < j < events.len(),
        performed(ControllerView::init(mode, privilege), events)[i].touches_tunnel(),
    ensures
        !performed(ControllerView::init(mode, privilege), events)[j].touches_tunnel(),
{
    let start = ControllerView::init(mode, privilege);
    let first = events.take(j).take(i);
    let next = events.take(j).take(i + 1);
    assert(first =~= events.take(i));
    assert(next.drop_last() =~= first);
    let after = run(start, next);
    assert(after.past_tunnel());
    lemma_run_split(start, events.take(j), i + 1);
    lemma_tunnel_settled(after, events.take(j).skip(i + 1));
}

/// The actions performed up to the last event are those performed before it
/// and the action that it answers.
proof fn lemma_performed_last(start: ControllerView, events: Seq<Event>)
    requires
        events.len() > 0,
    ensures
        performed(start, events) == performed(start, events.drop_last()).push(
            run(start, events.drop_last()).action(),
        ),
{
    let front = events.drop_last();
    assert(events.take(events.len() - 1) =~= front);
    assert forall|i: int| 0 <= i < front.len() implies front.take(i) == events.take(i) by {
        assert(front.take(i) =~= events.take(i));
    }
    assert(performed(start, events) =~= performed(start, front).push(run(start, front).action()));
}

/// How the requests performed relate to the state that an invocation has
/// come to.
spec fn follows_script(state: ControllerView, requests: Seq<Request>) -> bool {
    match state.phase {
        Phase::Loading => requests == Seq::<Request>::empty(),
        Phase::Applying => requests == state.rules.script.take(state.rules.done as int),
        Phase::Terminated => requests.is_prefix_of(state.rules.script) && (state.result is Ok
            ==> requests == state.rules.script),
        _ => requests == state.rules.script,
    }
}

/// The requests performed once the action of `state` is performed too.
spec fn with_action(state: ControllerView, earlier: Seq<Request>) -> Seq<Request> {
    match state.action() {
        Action::RunFilter(request) => earlier.push(request),
        _ => earlier,
    }
}

proof fn lemma_follows_step(before: ControllerView, event: Event, earlier: Seq<Request>)
    requires
        before.sound(),
        follows_script(before, earlier),
    ensures
        follows_script(before.step(event), with_action(before, earlier)),
{
    lemma_step_sound(before, event);
    let after = before.step(event);
    let now = with_action(before, earlier);
    let script = before.rules.script;
    let done = before.rules.done as int;
    match before.phase {
        Phase::Applying => {
            assert(after.rules.script == script);
            assert(now == earlier.push(script[done]));
            assert(now =~= script.take(done + 1));
            if done + 1 == script.len() {
                assert(script.take(done + 1) =~= script);
            }
            assert(now.is_prefix_of(script));
        },
        Phase::Loading => {
            assert(now == earlier);
            assert(after.rules.script.take(0) =~= Seq::<Request>::empty());
            assert(Seq::<Request>::empty().is_prefix_of(after.rules.script));
            if after.phase is Terminated && after.result is Ok {
                assert(after.rules.script =~= Seq::<Request>::empty());
            }
        },
        _ => {
            assert(now == earlier);
            assert(after.rules == before.rules);
            assert(earlier.is_prefix_of(script));
        },
    }
}

proof fn lemma_follows_script(mode: Mode, privilege: Result<(), FirewallError>, events: Seq<Event>)
    ensures
        follows_script(
            run(ControllerView::init(mode, privilege), events),
            filter_requests(performed(ControllerView::init(mode, privilege), events)),
        ),
    decreases events.len(),
{
    let start = ControllerView::init(mode, privilege);
    if events.len() == 0 {
        assert(performed(start, events) =~= Seq::<Action>::empty());
        assert(Seq::<Request>::empty().is_prefix_of(start.rules.script));
    } else {
        let front = events.drop_last();
        let before = run(start, front);
        let earlier = filter_requests(performed(start, front));
        lemma_follows_script(mode, privilege, front);
        lemma_run_sound(mode, privilege, front);
        lemma_performed_last(start, events);
        let actions = performed(start, events);
        assert(actions.drop_last() =~= performed(start, front));
        assert(actions.last() == before.action());
        assert(filter_requests(actions) == with_action(before, earlier));
        lemma_follows_step(before, events.last(), earlier);
    }
}

/// The packet filter is asked in the order of the script: whatever events
/// come, the requests performed are the first requests of the replacement
/// for the loaded configuration, in its order and without a gap; and an
/// invocation that ends with success has performed every one of them.
pub proof fn law_filter_follows_script(
    mode: Mode,
    privilege: Result<(), FirewallError>,
    events: Seq<Event>,
)
    ensures
        ({
            let start = ControllerView::init(mode, privilege);
            let state = run(start, events);
            let requests = filter_requests(performed(start, events));
            &&& requests.is_prefix_of(script_for(mode, state.config))
            &&& state.outcome() == Some(Ok::<(), OwlErrorView>(())) ==> requests == script_for(
                mode,
                state.config,
            )
        }),
{
    lemma_follows_script(mode, privilege, events);
    lemma_run_sound(mode, privilege, events);
    let state = run(ControllerView::init(mode, privilege), events);
    let requests = filter_requests(performed(ControllerView::init(mode, privilege), events));
    if state.phase is Applying {
        assert(requests.is_prefix_of(state.rules.script));
    }
}

/// A start or a reload that ends with success leaves, whatever rules there
/// were before, the drop chain and accept rules for exactly the addresses
/// that its configuration allows.
pub proof fn law_success_installs_policy(
    mode: Mode,
    privilege: Result<(), FirewallError>,
    events: Seq<Event>,
    before: Ruleset,
)
    requires
        !(mode is Check),
        run(ControllerView::init(mode, privilege), events).outcome() == Some(
            Ok::<(), OwlErrorView>(()),
        ),
    ensures
        ({
            let state = run(ControllerView::init(mode, privilege), events);
            &&& state.config is Some
            &&& state.rules.reached(before) == Ruleset::exactly(
                state.config->Some_0.addresses().to_set(),
            )
        }),
{
    let state = run(ControllerView::init(mode, privilege), events);
    lemma_run_sound(mode, privilege, events);
    let addresses = state.config->Some_0.addresses();
    let script = state.rules.script;
    assert(script.take(state.rules.done as int) =~= script);
    law_replacement_installs_exactly(before, distinct(addresses));
    lemma_distinct(addresses);
}

/// An invocation fails closed: wherever it stands or has stopped, once its
/// flush has succeeded no accept rule stands without the drop chain, and
/// none for an address that its configuration does not allow.
pub proof fn law_rules_stay_guarded(
    mode: Mode,
    privilege: Result<(), FirewallError>,
    events: Seq<Event>,
    before: Ruleset,
)
    requires
        run(ControllerView::init(mode, privilege), events).rules.done >= 1,
    ensures
        ({
            let state = run(ControllerView::init(mode, privilege), events);
            &&& state.config is Some
            &&& state.rules.reached(before).guarded()
            &&& state.rules.reached(before).accepted.subset_of(
                state.config->Some_0.addresses().to_set(),
            )
        }),
{
    let state = run(ControllerView::init(mode, privilege), events);
    lemma_run_sound(mode, privilege, events);
    let addresses = state.config->Some_0.addresses();
    law_replacement_fails_closed(before, distinct(addresses), state.rules.done as int);
    lemma_distinct(addresses);
}

} // verus!
