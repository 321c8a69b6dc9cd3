//! Keeping a firewall group in step with the decisions of CrowdSec.
pub mod properties;

use crate::blacklist::IpRangeMixed;
use crate::config::Config;
use crate::crowdsec_lapi::{
    default_decision_origins, part_nets, DecisionsIpRange, DecisionsNets, DecisionsOptions,
    DecisionsResponse, Origin,
};
use crate::net::{
    addrs, all_valid, lemma_networks_of, lemma_simplified_unique, lemma_take_simplified, networks_of,
    position, simplified, Addr, IpNet,
};
use crate::utils::{retry_op, spec_backoff, RetryOp, RetryStep, RETRY_CAP_MS};
use crate::vyos_api::http::{after_reply, open_query, GroupQuery, GroupReply, GroupStage, GroupState};
use crate::vyos_api::types::{VyosConfigCommand, VyosRetrieveCommand};
use crate::vyos_api::{
    decision_commands, firewall_steps, update_firewall_nets, FirewallRequest, FirewallStep, FirewallUpdate,
};
use vstd::prelude::*;

verus! {

/// The number of entries that a firewall group may hold: VyOS takes no more in a static group.
pub const FIREWALL_GROUP_MAX_ITEMS: usize = 15_000;

/// How much of a group is reconciled.
#[derive(Clone, Copy, Debug, PartialEq, Eq, Structural)]
pub enum ReconcileMode {
    /// What changed since the last time.
    Incremental,
    /// The whole group.
    FullSync,
}

impl ReconcileMode {
    /// Whether all active decisions are asked for in this mode.
    pub fn startup(self) -> (startup: bool)
        ensures
            startup == (self is FullSync),
    {
        matches!(self, ReconcileMode::FullSync)
    }

    /// Whether the whole group is reconciled.
    pub fn is_full_sync(self) -> (full: bool)
        ensures
            full == (self is FullSync),
    {
        matches!(self, ReconcileMode::FullSync)
    }
}

/// A change of the firewall group, and the blacklist that holds once it is made.
pub struct CappedUpdate {
    /// The entries to add and to delete.
    pub decisions: DecisionsNets,
    /// The addresses that are banned after the change.
    pub final_blacklist: IpRangeMixed,
    /// How many entries were left out because the group would have grown too large.
    pub skipped: usize,
    /// Whether the group is full before anything is added.
    pub at_capacity: bool,
}

/// The smaller of two numbers.
pub open spec fn min_nat(a: nat, b: nat) -> nat {
    if a <= b {
        a
    } else {
        b
    }
}

/// How many of the candidates fit into a group that keeps `retained` entries.
pub open spec fn admitted(retained: nat, candidates: nat) -> nat {
    let room = if retained < FIREWALL_GROUP_MAX_ITEMS {
        (FIREWALL_GROUP_MAX_ITEMS - retained) as nat
    } else {
        0
    };
    min_nat(candidates, room)
}

/// The first `n` networks of the list.
fn take_nets(nets: &Vec<IpNet>, n: usize) -> (head: Vec<IpNet>)
    requires
        n <= nets@.len(),
    ensures
        head@ == nets@.take(n as int),
{
    let mut head: Vec<IpNet> = Vec::new();
    let mut i: usize = 0;
    while i < n
        invariant
            i <= n <= nets@.len(),
            head@ == nets@.take(i as int),
        decreases n - i,
    {
        head.push(nets[i]);
        i = i + 1;
        assert(head@ =~= nets@.take(i as int));
    }
    head
}

/// Adds candidates to what is retained, as many as the group has room for, in their order.
pub fn build_capped_update(
    retained_blacklist: &IpRangeMixed,
    candidate_adds: IpRangeMixed,
    deleted: IpRangeMixed,
) -> (update: CappedUpdate)
    ensures
        ({
            let n = admitted(retained_blacklist@.len(), candidate_adds@.len());
            let added = candidate_adds@.take(n as int);
            &&& update.decisions.new@ == added
            &&& update.decisions.deleted@ == deleted@
            &&& simplified(update.final_blacklist@)
            &&& addrs(update.final_blacklist@) == addrs(retained_blacklist@).union(addrs(added))
            &&& update.skipped == candidate_adds@.len() - n
        }),
        update.at_capacity == (retained_blacklist@.len() >= FIREWALL_GROUP_MAX_ITEMS),
        update.final_blacklist@.len() <= retained_blacklist@.len() + update.decisions.new@.len(),
{
    let retained_count = retained_blacklist.net_count();
    let allowed_adds: usize = if retained_count < FIREWALL_GROUP_MAX_ITEMS {
        FIREWALL_GROUP_MAX_ITEMS - retained_count
    } else {
        0
    };
    let all_new_nets = candidate_adds.into_nets();
    let applied_new_count: usize = if all_new_nets.len() <= allowed_adds {
        all_new_nets.len()
    } else {
        allowed_adds
    };
    let applied_new = IpRangeMixed::from(take_nets(&all_new_nets, applied_new_count));
    proof {
        lemma_take_simplified(all_new_nets@, applied_new_count as int);
        lemma_simplified_unique(applied_new@, all_new_nets@.take(applied_new_count as int));
    }
    let final_blacklist = retained_blacklist.merge(&applied_new);
    CappedUpdate {
        decisions: DecisionsNets { new: applied_new.into_nets(), deleted: deleted.into_nets() },
        final_blacklist,
        skipped: all_new_nets.len() - applied_new_count,
        at_capacity: retained_count >= FIREWALL_GROUP_MAX_ITEMS,
    }
}

/// The networks that a list does not hold.
pub open spec fn absent_from(list: Seq<IpNet>) -> spec_fn(IpNet) -> bool {
    |net: IpNet| !list.contains(net)
}

/// The entries of a full group: the first networks of the list, as many as a group may hold.
pub open spec fn capped(nets: Seq<IpNet>) -> Seq<IpNet> {
    nets.take(min_nat(nets.len(), FIREWALL_GROUP_MAX_ITEMS as nat) as int)
}

/// Turns the entries that the group has into those it should have: every entry that differs is
/// deleted as it stands, and every missing one is added.
pub fn build_exact_full_sync_update(
    actual_nets: Vec<IpNet>,
    desired_blacklist: IpRangeMixed,
) -> (update: CappedUpdate)
    ensures
        update.decisions.deleted@ == actual_nets@.filter(absent_from(capped(desired_blacklist@))),
        update.decisions.new@ == capped(desired_blacklist@).filter(absent_from(actual_nets@)),
        update.final_blacklist@ == capped(desired_blacklist@),
        update.skipped == desired_blacklist@.len() - capped(desired_blacklist@).len(),
        !update.at_capacity,
{
    let all_desired_nets = desired_blacklist.into_nets();
    let applied_desired_count: usize = if all_desired_nets.len() <= FIREWALL_GROUP_MAX_ITEMS {
        all_desired_nets.len()
    } else {
        FIREWALL_GROUP_MAX_ITEMS
    };
    let desired_nets = take_nets(&all_desired_nets, applied_desired_count);
    proof {
        lemma_take_simplified(all_desired_nets@, applied_desired_count as int);
    }
    let mut present: Vec<bool> = Vec::new();
    let mut k: usize = 0;
    while k < desired_nets.len()
        invariant
            k <= desired_nets@.len(),
            present@.len() == k,
            forall|j: int| 0 <= j < k ==> !#[trigger] present@[j],
        decreases desired_nets.len() - k,
    {
        present.push(false);
        k = k + 1;
    }
    let ghost desired = desired_nets@;
    let ghost actual = actual_nets@;
    let mut deleted: Vec<IpNet> = Vec::new();
    let mut i: usize = 0;
    proof {
        reveal(Seq::filter);
    }
    while i < actual_nets.len()
        invariant
            i <= actual_nets@.len(),
            actual == actual_nets@,
            desired == desired_nets@,
            simplified(desired),
            present@.len() == desired.len(),
            deleted@ == actual.take(i as int).filter(absent_from(desired)),
            forall|j: int|
                0 <= j < desired.len() ==> (#[trigger] present@[j] <==> actual.take(
                    i as int,
                ).contains(desired[j])),
        decreases actual_nets.len() - i,
    {
        let net = actual_nets[i];
        let ghost head = actual.take(i as int);
        let ghost head1 = actual.take(i + 1);
        let ghost before = present@;
        proof {
            reveal(Seq::filter);
            assert(head1.drop_last() =~= head);
            assert(head1 =~= head.push(net));
        }
        match position(&desired_nets, &net) {
            Some(at) => {
                present.set(at, true);
                assert(desired.contains(net));
            },
            None => {
                deleted.push(net);
            },
        }
        proof {
            assert forall|j: int| 0 <= j < desired.len() implies (#[trigger] present@[j]
                <==> head1.contains(desired[j])) by {
                assert(before[j] <==> head.contains(desired[j]));
                assert(head1[i as int] == net);
                if head.contains(desired[j]) {
                    let m = choose|m: int| 0 <= m < head.len() && head[m] == desired[j];
                    assert(head1[m] == desired[j]);
                }
                if head1.contains(desired[j]) && !head.contains(desired[j]) {
                    let m = choose|m: int| 0 <= m < head1.len() && head1[m] == desired[j];
                    if m < head.len() {
                        assert(head[m] == desired[j]);
                    }
                    assert(desired[j] == net);
                }
                lemma_distinct(desired, j);
            }
        }
        i = i + 1;
    }
    assert(actual.take(i as int) =~= actual);
    let mut new: Vec<IpNet> = Vec::new();
    let mut k: usize = 0;
    while k < desired_nets.len()
        invariant
            k <= desired_nets@.len(),
            desired == desired_nets@,
            present@.len() == desired.len(),
            new@ == desired.take(k as int).filter(absent_from(actual)),
            forall|j: int|
                0 <= j < desired.len() ==> (#[trigger] present@[j] <==> actual.contains(desired[j])),
        decreases desired_nets.len() - k,
    {
        proof {
            reveal(Seq::filter);
            assert(desired.take(k + 1).drop_last() =~= desired.take(k as int));
            assert(present@[k as int] <==> actual.contains(desired[k as int]));
        }
        if !present[k] {
            new.push(desired_nets[k]);
        }
        k = k + 1;
    }
    assert(desired.take(k as int) =~= desired);
    let final_blacklist = IpRangeMixed::from(desired_nets);
    proof {
        lemma_simplified_unique(final_blacklist@, desired);
    }
    CappedUpdate {
        decisions: DecisionsNets { new, deleted },
        final_blacklist,
        skipped: all_desired_nets.len() - applied_desired_count,
        at_capacity: false,
    }
}

proof fn lemma_distinct(list: Seq<IpNet>, j: int)
    requires
        simplified(list),
        0 <= j < list.len(),
    ensures
        forall|k: int| 0 <= k < list.len() && k != j ==> #[trigger] list[k] != list[j],
{
    assert forall|k: int| 0 <= k < list.len() && k != j implies #[trigger] list[k] != list[j] by {
        if k < j {
            assert(list[k].precedes(list[j]));
        } else {
            assert(list[j].precedes(list[k]));
        }
    }
}

/// A change of the firewall group as values: what is added, what is deleted, what is banned
/// afterwards, how many entries were left out, and whether the group was full.
pub struct UpdateView {
    pub new: Seq<IpNet>,
    pub deleted: Seq<IpNet>,
    pub banned: Seq<IpNet>,
    pub skipped: nat,
    pub at_capacity: bool,
}

impl View for CappedUpdate {
    type V = UpdateView;

    open spec fn view(&self) -> UpdateView {
        UpdateView {
            new: self.decisions.new@,
            deleted: self.decisions.deleted@,
            banned: self.final_blacklist@,
            skipped: self.skipped as nat,
            at_capacity: self.at_capacity,
        }
    }
}

/// The change that follows from what changed among the decisions. Trusted addresses and those that
/// are banned already are not banned; only what is banned is released; and no more entries are added
/// than the group has room for.
pub open spec fn incremental_update(
    banned: Set<Addr>,
    trusted: Set<Addr>,
    new: Set<Addr>,
    deleted: Set<Addr>,
) -> UpdateView {
    let released = deleted.intersect(banned);
    let kept = banned.difference(released);
    let candidates = networks_of(new.difference(trusted).difference(banned));
    let room = admitted(networks_of(kept).len(), candidates.len());
    let added = candidates.take(room as int);
    UpdateView {
        new: added,
        deleted: networks_of(released),
        banned: networks_of(kept.union(addrs(added))),
        skipped: (candidates.len() - room) as nat,
        at_capacity: networks_of(kept).len() >= FIREWALL_GROUP_MAX_ITEMS,
    }
}

/// The change that makes the entries of the group those of the active decisions, without the
/// trusted addresses.
pub open spec fn full_sync_update(
    actual: Seq<IpNet>,
    trusted: Set<Addr>,
    active: Set<Addr>,
) -> UpdateView {
    let all = networks_of(active.difference(trusted));
    let desired = capped(all);
    UpdateView {
        new: desired.filter(absent_from(actual)),
        deleted: actual.filter(absent_from(desired)),
        banned: desired,
        skipped: (all.len() - desired.len()) as nat,
        at_capacity: false,
    }
}

/// Works out the change that follows from what changed among the decisions.
pub fn plan_incremental(
    blacklist: &IpRangeMixed,
    trusted_ips: &IpRangeMixed,
    new_decisions: DecisionsResponse,
) -> (update: CappedUpdate)
    ensures
        update@ == incremental_update(
            addrs(blacklist@),
            addrs(trusted_ips@),
            addrs(part_nets(new_decisions.new)),
            addrs(part_nets(new_decisions.deleted)),
        ),
        all_valid(part_nets(new_decisions.new)),
{
    let decision_ips = DecisionsIpRange::from(new_decisions).filter_new(trusted_ips).filter_new(
        blacklist,
    ).filter_deleted(blacklist);
    let retained_blacklist = blacklist.exclude(&decision_ips.deleted);
    proof {
        lemma_networks_of(decision_ips.new@);
        lemma_networks_of(decision_ips.deleted@);
        lemma_networks_of(retained_blacklist@);
    }
    let update = build_capped_update(&retained_blacklist, decision_ips.new, decision_ips.deleted);
    proof {
        lemma_networks_of(update.final_blacklist@);
    }
    update
}

/// Works out the change that makes the entries of the group those of the active decisions.
pub fn plan_full_sync(
    actual_nets: Vec<IpNet>,
    trusted_ips: &IpRangeMixed,
    desired_decisions: DecisionsResponse,
) -> (update: CappedUpdate)
    ensures
        update@ == full_sync_update(
            actual_nets@,
            addrs(trusted_ips@),
            addrs(part_nets(desired_decisions.new)),
        ),
        all_valid(part_nets(desired_decisions.new)),
{
    let desired_blacklist = DecisionsIpRange::from(desired_decisions).new.exclude(trusted_ips);
    proof {
        lemma_networks_of(desired_blacklist@);
    }
    build_exact_full_sync_update(actual_nets, desired_blacklist)
}

/// What the bouncer knows of the firewall group: the addresses that it bans, and whether a change
/// of the configuration may not have been saved.
pub struct BouncerState {
    pub blacklist: IpRangeMixed,
    pub pending_save: bool,
}

/// What the bouncer knows, as values.
pub struct StateView {
    pub banned: Seq<IpNet>,
    pub pending_save: bool,
}

impl View for BouncerState {
    type V = StateView;

    open spec fn view(&self) -> StateView {
        StateView { banned: self.blacklist@, pending_save: self.pending_save }
    }
}

impl Default for BouncerState {
    /// Nothing is banned, and nothing is unsaved.
    fn default() -> (state: Self)
        ensures
            state@ == (StateView { banned: Seq::empty(), pending_save: false }),
    {
        BouncerState { blacklist: IpRangeMixed::default(), pending_save: false }
    }
}

/// Takes the entries of the group as what is banned.
pub fn store_existing_blacklist(state: &mut BouncerState, existing_networks: Vec<IpNet>)
    ensures
        final(state)@ == (StateView {
            banned: networks_of(addrs(existing_networks@)),
            pending_save: old(state)@.pending_save,
        }),
{
    let blacklist = IpRangeMixed::from(existing_networks);
    proof {
        lemma_networks_of(blacklist@);
    }
    state.blacklist = blacklist;
}

/// The requests that a change takes, each of which may take as long as changes of the configuration
/// do. If there is nothing to change, the configuration is saved after a full reconciliation and left
/// alone otherwise.
pub open spec fn update_steps(
    update: UpdateView,
    full_sync: bool,
    group: Seq<char>,
    save: bool,
) -> Seq<FirewallStep> {
    if update.new.len() == 0 && update.deleted.len() == 0 {
        if full_sync && save {
            seq![FirewallStep::Save(Some(UPDATE_TIMEOUT_SECS))]
        } else {
            Seq::empty()
        }
    } else {
        firewall_steps(
            decision_commands(update.new, update.deleted, group),
            Some(UPDATE_TIMEOUT_SECS),
            save,
        )
    }
}

/// A change that is being made: the requests still to be made, what is banned once they have all
/// succeeded, and whether changes are saved.
pub struct ApplyView {
    pub steps: Seq<FirewallStep>,
    pub banned: Seq<IpNet>,
    pub save: bool,
}

/// A change that is being made.
pub struct UpdateRun {
    firewall: FirewallUpdate,
    final_blacklist: IpRangeMixed,
    save: bool,
}

impl View for UpdateRun {
    type V = ApplyView;

    closed spec fn view(&self) -> ApplyView {
        ApplyView { steps: self.firewall@, banned: self.final_blacklist@, save: self.save }
    }
}

/// Starts to make a change.
pub fn apply_update(
    update: CappedUpdate,
    mode: ReconcileMode,
    firewall_group: &str,
    vyos_save_config: bool,
) -> (run: UpdateRun)
    ensures
        run@ == (ApplyView {
            steps: update_steps(update@, mode is FullSync, firewall_group@, vyos_save_config),
            banned: update@.banned,
            save: vyos_save_config,
        }),
{
    let timeout = Some(UPDATE_TIMEOUT_SECS);
    let firewall = if update.decisions.is_empty() {
        FirewallUpdate::without_commands(mode.is_full_sync() && vyos_save_config, timeout)
    } else {
        update_firewall_nets(&update.decisions, firewall_group, timeout, vyos_save_config)
    };
    UpdateRun { firewall, final_blacklist: update.final_blacklist, save: vyos_save_config }
}

/// Where a reconciliation stands.
pub enum Phase {
    /// The entries of the group are being read.
    Reading(GroupState),
    /// The decisions are awaited; the entries of the group, if they were read.
    Streaming(Seq<IpNet>),
    /// The change is being made.
    Applying(ApplyView),
    /// It is over; whether it succeeded.
    Finished(bool),
}

/// What a reconciliation needs to know of the settings.
pub struct Terms {
    pub full_sync: bool,
    pub trusted: Set<Addr>,
    pub group: Seq<char>,
    pub save: bool,
}

/// The terms of a reconciliation under the given settings.
pub open spec fn terms(config: Config, full_sync: bool) -> Terms {
    Terms {
        full_sync,
        trusted: addrs(config.trusted_ips@),
        group: config.firewall_group@,
        save: config.vyos_save_config,
    }
}

/// The answer to a request of a reconciliation.
pub enum Reply {
    /// What a query about the group found.
    Group(GroupReply),
    /// The decisions.
    Decisions(DecisionsResponse),
    /// The commands were taken, or the configuration was saved.
    Done,
}

/// The change that follows from the decisions.
pub open spec fn planned_update(
    terms: Terms,
    banned: Seq<IpNet>,
    actual: Seq<IpNet>,
    decisions: DecisionsResponse,
) -> UpdateView {
    if terms.full_sync {
        full_sync_update(actual, terms.trusted, addrs(part_nets(decisions.new)))
    } else {
        incremental_update(
            addrs(banned),
            terms.trusted,
            addrs(part_nets(decisions.new)),
            addrs(part_nets(decisions.deleted)),
        )
    }
}

/// Where a reconciliation stands when a change has made some of its requests, and what the bouncer
/// knows then: the new blacklist holds once no request is left.
pub open spec fn proceed(run: ApplyView, requested: bool, state: StateView) -> (Phase, StateView) {
    if run.steps.len() > 0 {
        (Phase::Applying(run), state)
    } else {
        (
            Phase::Finished(true),
            StateView {
                banned: run.banned,
                pending_save: state.pending_save && !(requested && run.save),
            },
        )
    }
}

/// Where a reconciliation stands after an answer, or after a failure if there is none, and what the
/// bouncer knows then.
///
/// A failure ends the reconciliation and leaves the blacklist as it was; if it struck while the
/// change was being made, the configuration may be unsaved. An answer that does not fit the request
/// changes nothing.
pub open spec fn transition(
    terms: Terms,
    phase: Phase,
    state: StateView,
    reply: Option<Reply>,
) -> (Phase, StateView) {
    match (phase, reply) {
        (Phase::Reading(group), Some(Reply::Group(answer))) => {
            let next = after_reply(group, answer);
            (
                if next.0 is Done {
                    Phase::Streaming(next.1)
                } else {
                    Phase::Reading(next)
                },
                state,
            )
        },
        (Phase::Streaming(actual), Some(Reply::Decisions(decisions))) => {
            let update = planned_update(terms, state.banned, actual, decisions);
            let run = ApplyView {
                steps: update_steps(update, terms.full_sync, terms.group, terms.save),
                banned: update.banned,
                save: terms.save,
            };
            proceed(run, false, state)
        },
        (Phase::Applying(run), Some(Reply::Done)) => proceed(
            ApplyView { steps: run.steps.drop_first(), ..run },
            true,
            state,
        ),
        (Phase::Applying(run), None) => (
            Phase::Finished(false),
            StateView { pending_save: state.pending_save || run.save, ..state },
        ),
        (Phase::Reading(_), None) => (Phase::Finished(false), state),
        (Phase::Streaming(_), None) => (Phase::Finished(false), state),
        _ => (phase, state),
    }
}

enum Stage {
    Reading(GroupQuery),
    Streaming(Vec<IpNet>),
    Applying(UpdateRun),
}

/// A reconciliation that is under way.
pub struct Reconciliation {
    options: DecisionsOptions,
    stage: Stage,
}

/// What a reconciliation asks for next. Changes come with the seconds that they may take, if these
/// are not left to the client.
pub enum Request<'a> {
    /// A query about the group.
    Retrieve(VyosRetrieveCommand),
    /// The decisions.
    Stream(&'a DecisionsOptions),
    /// Commands that change the group.
    Configure(&'a [VyosConfigCommand], Option<u64>),
    /// That the configuration be saved.
    Save(Option<u64>),
}

/// What becomes of a reconciliation after an answer.
pub enum Progress<E> {
    /// It goes on.
    Continue(Reconciliation),
    /// It is over; the failure that ended it, if one did.
    Finished(Result<(), E>),
}

/// What a change amounts to, and how it fared against the number of entries that a group may hold.
#[derive(Clone, Copy, Debug, PartialEq, Eq, Structural)]
pub struct UpdateReport {
    /// How many entries are added.
    pub added: usize,
    /// How many entries are deleted.
    pub deleted: usize,
    /// How many entries were left out because the group would have grown too large.
    pub skipped: usize,
    /// Whether the group was full before anything was added.
    pub at_capacity: bool,
}

impl<'a> Request<'a> {
    /// How long the request may take, in seconds, if that is not left to the client. It is left to
    /// the client for whatever does not change the configuration.
    pub fn timeout_secs(&self) -> (secs: Option<u64>)
        ensures
            secs == match *self {
                Request::Configure(_, timeout) => timeout,
                Request::Save(timeout) => timeout,
                _ => None,
            },
    {
        match self {
            Request::Configure(_, timeout) => *timeout,
            Request::Save(timeout) => *timeout,
            _ => None,
        }
    }
}

impl Reconciliation {
    #[verifier::type_invariant]
    closed spec fn inv(self) -> bool {
        match self.stage {
            Stage::Reading(query) => !(query@.0 is Done),
            Stage::Streaming(_) => true,
            Stage::Applying(run) => run@.steps.len() > 0,
        }
    }

    /// The decisions that it asks for.
    pub closed spec fn spec_options(self) -> DecisionsOptions {
        self.options
    }

    /// Where it stands.
    pub closed spec fn phase(self) -> Phase {
        match self.stage {
            Stage::Reading(query) => Phase::Reading(query@),
            Stage::Streaming(actual) => Phase::Streaming(actual@),
            Stage::Applying(run) => Phase::Applying(run@),
        }
    }

    /// The name of the group whose entries it reads.
    pub closed spec fn spec_group(self) -> Seq<char> {
        match self.stage {
            Stage::Reading(query) => query.spec_group(),
            _ => Seq::empty(),
        }
    }

    /// What it asks for next.
    pub fn request(&self) -> (request: Request<'_>)
        ensures
            match self.phase() {
                Phase::Reading(group) => request matches Request::Retrieve(query) && Some(
                    query.deep_view(),
                ) == open_query(group.0, self.spec_group()),
                Phase::Streaming(_) => request == Request::Stream(&self.spec_options()),
                Phase::Applying(run) => run.steps.len() > 0 && match run.steps[0] {
                    FirewallStep::Configure(commands, timeout) => request matches Request::Configure(
                        c,
                        t,
                    ) && c.deep_view() == commands && t == timeout,
                    FirewallStep::Save(timeout) => request == Request::Save(timeout),
                },
                Phase::Finished(_) => false,
            },
    {
        proof {
            use_type_invariant(self);
        }
        match &self.stage {
            Stage::Reading(query) => match query.request() {
                Some(command) => Request::Retrieve(command),
                None => Request::Save(None),
            },
            Stage::Streaming(_) => Request::Stream(&self.options),
            Stage::Applying(run) => match run.firewall.request() {
                Some(FirewallRequest::Configure(commands, timeout)) => Request::Configure(
                    commands,
                    timeout,
                ),
                Some(FirewallRequest::Save(timeout)) => Request::Save(timeout),
                None => Request::Save(None),
            },
        }
    }

    /// Takes the answer to the request, or the failure. If a change was worked out, its report comes
    /// with the outcome, and the networks of the decisions fit their families.
    pub fn step<E>(
        self,
        config: &Config,
        state: &mut BouncerState,
        reply: Result<Reply, E>,
    ) -> (outcome: (Progress<E>, Option<UpdateReport>))
        ensures
            match (self.phase(), reply) {
                (Phase::Streaming(actual), Ok(Reply::Decisions(decisions))) => {
                    let update = planned_update(
                        terms(*config, self.spec_options().startup),
                        old(state)@.banned,
                        actual,
                        decisions,
                    );
                    outcome.1 matches Some(report) && report.added == update.new.len()
                        && report.deleted == update.deleted.len() && report.skipped == update.skipped
                        && report.at_capacity == update.at_capacity && all_valid(
                        part_nets(decisions.new),
                    )
                },
                _ => outcome.1 is None,
            },
            ({
                let (phase, after) = transition(
                    terms(*config, self.spec_options().startup),
                    self.phase(),
                    old(state)@,
                    match reply {
                        Ok(answer) => Some(answer),
                        Err(_) => None,
                    },
                );
                &&& final(state)@ == after
                &&& match outcome.0 {
                    Progress::Continue(next) => !(phase is Finished) && next.phase() == phase
                        && next.spec_options() == self.spec_options() && (phase is Reading ==> next.spec_group()
                        == self.spec_group()),
                    Progress::Finished(Ok(())) => phase == Phase::Finished(true),
                    Progress::Finished(Err(e)) => phase == Phase::Finished(false) && reply
                        == Err::<Reply, E>(e),
                }
            }),
    {
        proof {
            use_type_invariant(&self);
        }
        let Reconciliation { options, stage } = self;
        match (stage, reply) {
            (Stage::Applying(run), Err(e)) => {
                if run.save {
                    state.pending_save = true;
                }
                (Progress::Finished(Err(e)), None)
            },
            (_, Err(e)) => (Progress::Finished(Err(e)), None),
            (Stage::Reading(query), Ok(Reply::Group(answer))) => {
                let query = query.reply(answer);
                let stage = if let GroupStage::Done = query.stage() {
                    Stage::Streaming(query.into_response().data)
                } else {
                    Stage::Reading(query)
                };
                (Progress::Continue(Reconciliation { options, stage }), None)
            },
            (Stage::Streaming(actual), Ok(Reply::Decisions(decisions))) => {
                let mode = if options.get_startup() {
                    ReconcileMode::FullSync
                } else {
                    ReconcileMode::Incremental
                };
                let update = if mode.is_full_sync() {
                    plan_full_sync(actual, &config.trusted_ips, decisions)
                } else {
                    plan_incremental(&state.blacklist, &config.trusted_ips, decisions)
                };
                let report = UpdateReport {
                    added: update.decisions.new.len(),
                    deleted: update.decisions.deleted.len(),
                    skipped: update.skipped,
                    at_capacity: update.at_capacity,
                };
                let run = apply_update(
                    update,
                    mode,
                    config.firewall_group.as_str(),
                    config.vyos_save_config,
                );
                (Self::proceed_with(options, run, false, state), Some(report))
            },
            (Stage::Applying(run), Ok(Reply::Done)) => {
                let UpdateRun { firewall, final_blacklist, save } = run;
                let run = UpdateRun { firewall: firewall.acknowledge(), final_blacklist, save };
                (Self::proceed_with(options, run, true, state), None)
            },
            (stage, Ok(_)) => (Progress::Continue(Reconciliation { options, stage }), None),
        }
    }

    fn proceed_with<E>(
        options: DecisionsOptions,
        run: UpdateRun,
        requested: bool,
        state: &mut BouncerState,
    ) -> (progress: Progress<E>)
        ensures
            ({
                let (phase, after) = proceed(run@, requested, old(state)@);
                &&& final(state)@ == after
                &&& match progress {
                    Progress::Continue(next) => next.phase() == phase && next.spec_options()
                        == options,
                    Progress::Finished(outcome) => outcome is Ok && phase == Phase::Finished(true),
                }
            }),
    {
        if run.firewall.request().is_some() {
            Progress::Continue(Reconciliation { options, stage: Stage::Applying(run) })
        } else {
            if requested && run.save {
                state.pending_save = false;
            }
            state.blacklist = run.final_blacklist;
            Progress::Finished(Ok(()))
        }
    }
}

/// Where a reconciliation starts: a full one reads the group first.
pub open spec fn first_phase(full_sync: bool) -> Phase {
    if full_sync {
        Phase::Reading((GroupStage::ExistsV4, Seq::empty()))
    } else {
        Phase::Streaming(Seq::empty())
    }
}

/// Starts a reconciliation. If all active decisions are asked for, the entries of the group are read
/// first and the whole group is reconciled; otherwise the changes are asked for at once.
pub fn reconcile_decisions(config: &Config, decision_options: DecisionsOptions) -> (run: Reconciliation)
    ensures
        run.spec_options() == decision_options,
        run.phase() == first_phase(decision_options.startup),
        decision_options.startup ==> run.spec_group() == config.firewall_group@,
{
    let stage = if decision_options.get_startup() {
        Stage::Reading(GroupQuery::new(config.firewall_group.as_str()))
    } else {
        Stage::Streaming(Vec::new())
    };
    Reconciliation { options: decision_options, stage }
}

/// Starts a reconciliation in the given mode, with the bans of the default origins.
pub fn reconcile_once(config: &Config, mode: ReconcileMode) -> (run: Reconciliation)
    ensures
        run.spec_options().startup == (mode is FullSync),
        run.spec_options().origins matches Some(origins) && origins@ == seq![
            Origin::Crowdsec,
            Origin::Lists,
            Origin::Cscli,
        ],
        run.phase() == first_phase(mode is FullSync),
        mode is FullSync ==> run.spec_group() == config.firewall_group@,
{
    let decision_options = DecisionsOptions::new(default_decision_origins(), mode.startup());
    reconcile_decisions(config, decision_options)
}

/// How many times a failed reconciliation is tried again.
pub const RECONCILE_RETRIES: u64 = 10;

/// How long a request that changes the configuration may take, in seconds.
pub const UPDATE_TIMEOUT_SECS: u64 = 300;

/// Whether a full reconciliation is due: at once if it is forced; otherwise, if there is an interval,
/// when none has been made yet or the last one is at least that long ago.
pub open spec fn full_sync_due(
    force_full_sync: bool,
    last_full_sync: Option<u128>,
    full_sync_interval: Option<u128>,
    now: u128,
) -> bool {
    force_full_sync || match (full_sync_interval, last_full_sync) {
        (None, _) => false,
        (Some(_), None) => true,
        (Some(interval), Some(last)) => interval == 0 || now - last >= interval,
    }
}

/// Selects the mode of the next round. Times are in nanoseconds.
pub fn select_reconcile_mode(
    force_full_sync: bool,
    last_full_sync: Option<u128>,
    full_sync_interval: Option<u128>,
    now: u128,
) -> (mode: ReconcileMode)
    ensures
        mode == (if full_sync_due(force_full_sync, last_full_sync, full_sync_interval, now) {
            ReconcileMode::FullSync
        } else {
            ReconcileMode::Incremental
        }),
{
    if force_full_sync {
        return ReconcileMode::FullSync;
    }
    if let Some(interval) = full_sync_interval {
        let due = match last_full_sync {
            Some(last) => now.saturating_sub(last) >= interval,
            None => true,
        };
        if due {
            return ReconcileMode::FullSync;
        }
    }
    ReconcileMode::Incremental
}

/// A round: a reconciliation that is tried again if it fails.
#[derive(Clone, Copy, Debug, PartialEq, Eq, Structural)]
pub struct Round {
    pub mode: ReconcileMode,
    pub attempts: RetryOp,
}

impl Round {
    /// What follows a failed attempt: a full reconciliation, if a retry is left.
    pub open spec fn spec_failed(self) -> Option<Round> {
        match self.attempts.spec_failed() {
            Some(attempts) => Some(Round { mode: ReconcileMode::FullSync, attempts }),
            None => None,
        }
    }
}

/// What follows an attempt of a round.
pub enum RoundStep<E> {
    /// The round is over; the mode that succeeded, or the last failure.
    Done(Result<ReconcileMode, E>),
    /// After a pause, in milliseconds, another attempt.
    Sleep(u64, Round),
}

/// The first attempt of a round.
pub fn start_round(initial_mode: ReconcileMode) -> (round: Round)
    ensures
        round == (Round {
            mode: initial_mode,
            attempts: RetryOp { retries: RECONCILE_RETRIES, current_retries: 0 },
        }),
{
    Round { mode: initial_mode, attempts: RetryOp::new(RECONCILE_RETRIES) }
}

/// Takes the result of an attempt of a round. After a failure the whole group is reconciled.
pub fn reconcile_with_retries<E>(round: Round, result: Result<(), E>, jitter: u64) -> (step: RoundStep<
    E,
>)
    ensures
        match (result, round.spec_failed()) {
            (Ok(()), _) => step == RoundStep::<E>::Done(Ok(round.mode)),
            (Err(_), Some(next)) => step == RoundStep::<E>::Sleep(
                spec_backoff(next.attempts.current_retries, RETRY_CAP_MS, jitter) as u64,
                next,
            ),
            (Err(err), None) => step == RoundStep::Done(Err(err)),
        },
{
    match retry_op(round.attempts, result, jitter) {
        RetryStep::Done(Ok(())) => RoundStep::Done(Ok(round.mode)),
        RetryStep::Done(Err(err)) => RoundStep::Done(Err(err)),
        RetryStep::Sleep(pause, attempts) => RoundStep::Sleep(
            pause,
            Round { mode: ReconcileMode::FullSync, attempts },
        ),
    }
}

/// What the main loop remembers: whether the next round must reconcile the whole group, and when
/// that was last done.
#[derive(Clone, Copy, Debug, PartialEq, Eq, Structural)]
pub struct Schedule {
    pub force_full_sync: bool,
    pub last_full_sync: Option<u128>,
}

impl Default for Schedule {
    /// The first round reconciles the whole group.
    fn default() -> (schedule: Self)
        ensures
            schedule == (Schedule { force_full_sync: true, last_full_sync: None }),
    {
        Schedule { force_full_sync: true, last_full_sync: None }
    }
}

/// What happens in the main loop. Times are in nanoseconds.
pub enum LoopEvent<E> {
    /// It is time for a round.
    Awake(u128),
    /// A round ended; its outcome.
    Ended(Result<ReconcileMode, E>, u128),
}

/// What the main loop does next.
#[derive(Clone, Copy, Debug, PartialEq, Eq, Structural)]
pub enum LoopAction {
    /// Start a round.
    Start(Round),
    /// Wait for so many seconds.
    Sleep(u64),
}

/// What the main loop remembers after an event.
pub open spec fn schedule_after<E>(schedule: Schedule, event: LoopEvent<E>) -> Schedule {
    match event {
        LoopEvent::Awake(_) => schedule,
        LoopEvent::Ended(Ok(mode), now) => Schedule {
            force_full_sync: false,
            last_full_sync: if mode is FullSync {
                Some(now)
            } else {
                schedule.last_full_sync
            },
        },
        LoopEvent::Ended(Err(_), _) => Schedule { force_full_sync: true, ..schedule },
    }
}

/// The main loop: each round is followed by a pause, and each pause by a round.
pub fn reconcile<E>(schedule: &mut Schedule, config: &Config, event: LoopEvent<E>) -> (action:
    LoopAction)
    ensures
        *final(schedule) == schedule_after(*old(schedule), event),
        match event {
            LoopEvent::Awake(now) => action == LoopAction::Start(
                Round {
                    mode: if full_sync_due(
                        old(schedule).force_full_sync,
                        old(schedule).last_full_sync,
                        config.full_sync_interval,
                        now,
                    ) {
                        ReconcileMode::FullSync
                    } else {
                        ReconcileMode::Incremental
                    },
                    attempts: RetryOp { retries: RECONCILE_RETRIES, current_retries: 0 },
                },
            ),
            LoopEvent::Ended(_, _) => action == LoopAction::Sleep(config.update_period_secs),
        },
{
    match event {
        LoopEvent::Awake(now) => {
            let mode = select_reconcile_mode(
                schedule.force_full_sync,
                schedule.last_full_sync,
                config.full_sync_interval,
                now,
            );
            LoopAction::Start(start_round(mode))
        },
        LoopEvent::Ended(Ok(completed_mode), now) => {
            schedule.force_full_sync = false;
            if completed_mode.is_full_sync() {
                schedule.last_full_sync = Some(now);
            }
            LoopAction::Sleep(config.update_period_secs)
        },
        LoopEvent::Ended(Err(_), _) => {
            schedule.force_full_sync = true;
            LoopAction::Sleep(config.update_period_secs)
        },
    }
}

} // verus!
