//! What holds of the reconciliation of a firewall group as a whole.
use crate::canonical::{addressable, lemma_addrs_addressable, lemma_networks_exist};
use crate::config::Config;
use crate::control_loop::{
    absent_from, admitted, capped, first_phase, full_sync_due, full_sync_update, incremental_update,
    planned_update, proceed, schedule_after, terms, transition, update_steps, ApplyView, BouncerState,
    CappedUpdate, LoopEvent, Phase, ReconcileMode, Reply, Round, Schedule, StateView, Terms, UpdateView,
    FIREWALL_GROUP_MAX_ITEMS, RECONCILE_RETRIES, UPDATE_TIMEOUT_SECS,
};
use crate::crowdsec_lapi::{lemma_part_covers, names, part_nets, DecisionsResponse};
use crate::net::{
    addrs, all_valid, covered, lemma_addrs_concat, lemma_covers_own_address, lemma_simplified_shortest,
    lemma_take_simplified, networks_of, simplified, Addr, IpNet,
};
use crate::utils::RetryOp;
use crate::vyos_api::http::{GroupReply, GroupStage};
use crate::vyos_api::types::{entry_path, VyosConfigOperation};
use crate::vyos_api::{
    decision_commands, lemma_decision_commands, lemma_steps_send_all, sent_commands, CommandView,
    FirewallStep,
};
use vstd::prelude::*;

verus! {

/// The entries of a group after a change: those that are not deleted, and those that are added.
pub open spec fn group_after(entries: Seq<IpNet>, update: UpdateView) -> Seq<IpNet> {
    entries.filter(absent_from(update.deleted)) + update.new
}

proof fn lemma_filter(list: Seq<IpNet>, pred: spec_fn(IpNet) -> bool, net: IpNet)
    ensures
        list.filter(pred).contains(net) <==> list.contains(net) && pred(net),
    decreases list.len(),
{
    reveal(Seq::filter);
    if list.len() > 0 {
        let rest = list.drop_last();
        lemma_filter(rest, pred, net);
        let kept = rest.filter(pred);
        assert(list =~= rest.push(list.last()));
        lemma_push_contains(rest, list.last(), net);
        lemma_push_contains(kept, list.last(), net);
    }
}

proof fn lemma_push_contains(list: Seq<IpNet>, last: IpNet, net: IpNet)
    ensures
        list.push(last).contains(net) <==> list.contains(net) || net == last,
{
    let longer = list.push(last);
    assert(longer[list.len() as int] == last);
    if list.contains(net) {
        let i = choose|i: int| 0 <= i < list.len() && list[i] == net;
        assert(longer[i] == net);
    }
    if longer.contains(net) {
        let i = choose|i: int| 0 <= i < longer.len() && longer[i] == net;
        if i < list.len() {
            assert(list[i] == net);
        }
    }
}

proof fn lemma_concat_contains(a: Seq<IpNet>, b: Seq<IpNet>, net: IpNet)
    ensures
        (a + b).contains(net) <==> a.contains(net) || b.contains(net),
{
    if a.contains(net) {
        let i = choose|i: int| 0 <= i < a.len() && a[i] == net;
        assert((a + b)[i] == net);
    }
    if b.contains(net) {
        let i = choose|i: int| 0 <= i < b.len() && b[i] == net;
        assert((a + b)[a.len() + i] == net);
    }
    if (a + b).contains(net) {
        let i = choose|i: int| 0 <= i < (a + b).len() && (a + b)[i] == net;
        if i < a.len() {
            assert(a[i] == net);
        } else {
            assert(b[i - a.len()] == net);
        }
    }
}

/// After a full reconciliation the group has the entries that it should have and no others: stale
/// entries are gone, whatever they are.
pub proof fn lemma_full_sync_converges(
    actual: Seq<IpNet>,
    trusted: Set<Addr>,
    active: Set<Addr>,
    net: IpNet,
)
    ensures
        ({
            let update = full_sync_update(actual, trusted, active);
            group_after(actual, update).contains(net) <==> update.banned.contains(net)
        }),
{
    let update = full_sync_update(actual, trusted, active);
    let desired = update.banned;
    lemma_filter(actual, absent_from(desired), net);
    lemma_filter(actual, absent_from(update.deleted), net);
    lemma_filter(desired, absent_from(actual), net);
    lemma_concat_contains(actual.filter(absent_from(update.deleted)), update.new, net);
}

/// What is banned after a full reconciliation: the addresses of the active decisions without the
/// trusted ones, as long as a group may hold their networks; otherwise those of the first networks,
/// as many as a group may hold.
pub proof fn lemma_full_sync_bans(actual: Seq<IpNet>, trusted: Set<Addr>, active: Set<Addr>)
    requires
        addressable(active),
    ensures
        ({
            let update = full_sync_update(actual, trusted, active);
            let desired = networks_of(active.difference(trusted));
            &&& simplified(update.banned)
            &&& update.banned.len() <= FIREWALL_GROUP_MAX_ITEMS
            &&& addrs(update.banned).subset_of(active.difference(trusted))
            &&& desired.len() <= FIREWALL_GROUP_MAX_ITEMS ==> addrs(update.banned)
                == active.difference(trusted)
        }),
{
    let wanted = active.difference(trusted);
    lemma_networks_exist(wanted);
    let desired = networks_of(wanted);
    let n = capped(desired).len();
    lemma_take_simplified(desired, n as int);
    if desired.len() <= FIREWALL_GROUP_MAX_ITEMS {
        assert(desired.take(desired.len() as int) =~= desired);
    }
}

/// Once the group has the entries that it should have, a full reconciliation changes nothing; it
/// still saves the configuration if changes are saved.
pub proof fn lemma_full_sync_settles(
    actual: Seq<IpNet>,
    trusted: Set<Addr>,
    active: Set<Addr>,
    group: Seq<char>,
    save: bool,
)
    requires
        forall|net: IpNet|
            actual.contains(net) <==> #[trigger] capped(
                networks_of(active.difference(trusted)),
            ).contains(net),
    ensures
        ({
            let update = full_sync_update(actual, trusted, active);
            &&& update.new.len() == 0
            &&& update.deleted.len() == 0
            &&& update_steps(update, true, group, save) == (if save {
                seq![FirewallStep::Save(Some(UPDATE_TIMEOUT_SECS))]
            } else {
                Seq::<FirewallStep>::empty()
            })
        }),
{
    let update = full_sync_update(actual, trusted, active);
    let desired = update.banned;
    if update.new.len() > 0 {
        let net = update.new[0];
        assert(update.new.contains(net));
        lemma_filter(desired, absent_from(actual), net);
    }
    if update.deleted.len() > 0 {
        let net = update.deleted[0];
        assert(update.deleted.contains(net));
        lemma_filter(actual, absent_from(desired), net);
    }
}

/// A full reconciliation deletes only entries of the group, each as it stands there.
pub proof fn lemma_full_sync_deletes_entries(
    actual: Seq<IpNet>,
    trusted: Set<Addr>,
    active: Set<Addr>,
    net: IpNet,
)
    ensures
        ({
            let update = full_sync_update(actual, trusted, active);
            &&& update.deleted.contains(net) <==> actual.contains(net) && !update.banned.contains(net)
            &&& update.new.contains(net) <==> update.banned.contains(net) && !actual.contains(net)
        }),
{
    let update = full_sync_update(actual, trusted, active);
    lemma_filter(actual, absent_from(update.banned), net);
    lemma_filter(update.banned, absent_from(actual), net);
}

/// What an incremental change amounts to. It adds no trusted address and none that is banned
/// already; it releases just the banned addresses among the deleted ones; and what is banned
/// afterwards is what was kept together with what was added. All new addresses are added if the
/// group has room for their networks.
pub proof fn lemma_incremental_bans(
    banned: Set<Addr>,
    trusted: Set<Addr>,
    new: Set<Addr>,
    deleted: Set<Addr>,
)
    requires
        addressable(banned),
        addressable(new),
    ensures
        ({
            let update = incremental_update(banned, trusted, new, deleted);
            let kept = banned.difference(deleted);
            let candidates = new.difference(trusted).difference(banned);
            &&& addrs(update.deleted) == banned.intersect(deleted)
            &&& addrs(update.new).subset_of(candidates)
            &&& simplified(update.banned)
            &&& addrs(update.banned) == kept.union(addrs(update.new))
            &&& networks_of(kept).len() + networks_of(candidates).len() <= FIREWALL_GROUP_MAX_ITEMS
                ==> addrs(update.new) == candidates
        }),
{
    let released = deleted.intersect(banned);
    let kept = banned.difference(released);
    assert(released =~= banned.intersect(deleted));
    assert(kept =~= banned.difference(deleted));
    lemma_networks_exist(released);
    lemma_networks_exist(kept);
    let wanted = new.difference(trusted).difference(banned);
    lemma_networks_exist(wanted);
    let candidates = networks_of(wanted);
    let update = incremental_update(banned, trusted, new, deleted);
    lemma_take_simplified(candidates, update.new.len() as int);
    lemma_networks_exist(kept.union(addrs(update.new)));
    if networks_of(kept).len() + candidates.len() <= FIREWALL_GROUP_MAX_ITEMS {
        assert(candidates.take(candidates.len() as int) =~= candidates);
    }
}

/// The networks of no addresses are none.
proof fn lemma_no_networks(set: Set<Addr>)
    requires
        set == Set::<Addr>::empty(),
    ensures
        networks_of(set).len() == 0,
{
    lemma_networks_exist(set);
    let list = networks_of(set);
    if list.len() > 0 {
        let own: Addr = (list[0].is_v6(), list[0].address());
        lemma_covers_own_address(list[0]);
        assert(covered(list, own));
        assert(addrs(list).contains(own));
    }
}

/// If the new decisions ask for nothing but what is banned already or trusted, and none of those
/// that ended was banned, then nothing changes and no request is made.
pub proof fn lemma_incremental_settles(
    banned: Set<Addr>,
    trusted: Set<Addr>,
    new: Set<Addr>,
    deleted: Set<Addr>,
    group: Seq<char>,
    save: bool,
)
    requires
        new.subset_of(banned.union(trusted)),
        deleted.disjoint(banned),
    ensures
        ({
            let update = incremental_update(banned, trusted, new, deleted);
            &&& update.new.len() == 0
            &&& update.deleted.len() == 0
            &&& update.banned == networks_of(banned)
            &&& update_steps(update, false, group, save).len() == 0
        }),
{
    let released = deleted.intersect(banned);
    assert(released =~= Set::empty());
    lemma_no_networks(released);
    let wanted = new.difference(trusted).difference(banned);
    assert(wanted =~= Set::empty());
    lemma_no_networks(wanted);
    let update = incremental_update(banned, trusted, new, deleted);
    assert(addrs(update.new) =~= Set::empty());
    assert(banned.difference(released).union(addrs(update.new)) =~= banned);
}

/// An incremental change never takes the number of banned networks past what a group may hold: if it
/// is past it, it is so by what was kept alone.
pub proof fn lemma_incremental_cap(
    banned: Set<Addr>,
    trusted: Set<Addr>,
    new: Set<Addr>,
    deleted: Set<Addr>,
)
    requires
        addressable(banned),
        addressable(new),
    ensures
        ({
            let update = incremental_update(banned, trusted, new, deleted);
            let kept = networks_of(banned.difference(deleted));
            &&& update.banned.len() <= kept.len() + update.new.len()
            &&& update.new.len() > 0 ==> kept.len() + update.new.len() <= FIREWALL_GROUP_MAX_ITEMS
        }),
{
    let update = incremental_update(banned, trusted, new, deleted);
    let released = deleted.intersect(banned);
    assert(banned.difference(released) =~= banned.difference(deleted));
    let rest = banned.difference(deleted);
    let kept = networks_of(rest);
    lemma_networks_exist(rest);
    lemma_networks_exist(new.difference(trusted).difference(banned));
    let candidates = networks_of(new.difference(trusted).difference(banned));
    lemma_take_simplified(candidates, update.new.len() as int);
    lemma_networks_exist(rest.union(addrs(update.new)));
    lemma_addrs_concat(kept, update.new);
    lemma_simplified_shortest(update.banned, kept + update.new);
}

/// If no trusted address is banned, then none is after a change of either kind; and a full
/// reconciliation releases those that were.
pub proof fn lemma_trusted_stay_free(
    terms: Terms,
    banned: Seq<IpNet>,
    actual: Seq<IpNet>,
    decisions: DecisionsResponse,
)
    requires
        all_valid(banned),
        all_valid(part_nets(decisions.new)),
        terms.full_sync || addrs(banned).disjoint(terms.trusted),
    ensures
        all_valid(planned_update(terms, banned, actual, decisions).banned),
        addrs(planned_update(terms, banned, actual, decisions).banned).disjoint(terms.trusted),
        addrs(planned_update(terms, banned, actual, decisions).new).disjoint(terms.trusted),
{
    let active = addrs(part_nets(decisions.new));
    let gone = addrs(part_nets(decisions.deleted));
    let update = planned_update(terms, banned, actual, decisions);
    lemma_addrs_addressable(banned);
    lemma_addrs_addressable(part_nets(decisions.new));
    if terms.full_sync {
        lemma_full_sync_bans(actual, terms.trusted, active);
        assert forall|a: Addr| covered(update.new, a) implies covered(update.banned, a) by {
            let i = choose|i: int| 0 <= i < update.new.len() && (#[trigger] update.new[i]).covers(a);
            let net = update.new[i];
            assert(update.new.contains(net));
            lemma_filter(update.banned, absent_from(actual), net);
            let j = choose|j: int| 0 <= j < update.banned.len() && update.banned[j] == net;
            assert(update.banned[j].covers(a));
        }
        assert(addrs(update.new).subset_of(addrs(update.banned)));
    } else {
        lemma_incremental_bans(addrs(banned), terms.trusted, active, gone);
    }
}

/// Between full reconciliations the group stays in step with what is banned, as long as what is
/// released are whole entries: each entry of the group is either one of the deleted networks or
/// apart from all of them.
pub proof fn lemma_incremental_keeps_step(
    entries: Seq<IpNet>,
    trusted: Set<Addr>,
    new: Set<Addr>,
    deleted: Set<Addr>,
)
    requires
        all_valid(entries),
        addressable(new),
        forall|i: int| 0 <= i < entries.len() ==> incremental_update(
            addrs(entries),
            trusted,
            new,
            deleted,
        ).deleted.contains(#[trigger] entries[i]) || (forall|a: Addr| #[trigger]
            entries[i].covers(a) ==> !deleted.contains(a)),
    ensures
        ({
            let update = incremental_update(addrs(entries), trusted, new, deleted);
            addrs(group_after(entries, update)) == addrs(update.banned)
        }),
{
    let banned = addrs(entries);
    let update = incremental_update(banned, trusted, new, deleted);
    lemma_addrs_addressable(entries);
    lemma_incremental_bans(banned, trusted, new, deleted);
    let left = entries.filter(absent_from(update.deleted));
    lemma_addrs_concat(left, update.new);
    assert forall|a: Addr| covered(left, a) == (covered(entries, a) && !deleted.contains(a)) by {
        if covered(left, a) {
            let i = choose|i: int| 0 <= i < left.len() && (#[trigger] left[i]).covers(a);
            assert(left.contains(left[i]));
            lemma_filter(entries, absent_from(update.deleted), left[i]);
            let j = choose|j: int| 0 <= j < entries.len() && entries[j] == left[i];
            assert(entries[j].covers(a));
        }
        if covered(entries, a) && !deleted.contains(a) {
            let i = choose|i: int| 0 <= i < entries.len() && (#[trigger] entries[i]).covers(a);
            let net = entries[i];
            if update.deleted.contains(net) {
                let k = choose|k: int| 0 <= k < update.deleted.len() && update.deleted[k] == net;
                assert(update.deleted[k].covers(a));
                assert(covered(update.deleted, a));
                assert(addrs(update.deleted).contains(a));
            }
            assert(entries.contains(net));
            lemma_filter(entries, absent_from(update.deleted), net);
            let j = choose|j: int| 0 <= j < left.len() && left[j] == net;
            assert(left[j].covers(a));
        }
    }
    assert(addrs(left) =~= banned.difference(deleted));
}

/// All deletions come before all additions.
pub proof fn lemma_deletions_first(
    new: Seq<IpNet>,
    deleted: Seq<IpNet>,
    group: Seq<char>,
    i: int,
    j: int,
)
    requires
        0 <= i < j < decision_commands(new, deleted, group).len(),
        decision_commands(new, deleted, group)[j].0 is DeleteEntry,
    ensures
        decision_commands(new, deleted, group)[i].0 is DeleteEntry,
{
}

/// Where a reconciliation stands after a series of answers, and what the bouncer knows then.
pub open spec fn run(
    terms: Terms,
    phase: Phase,
    state: StateView,
    replies: Seq<Option<Reply>>,
) -> (Phase, StateView)
    decreases replies.len(),
{
    if replies.len() == 0 {
        (phase, state)
    } else {
        let (next, after) = transition(terms, phase, state, replies[0]);
        run(terms, next, after, replies.drop_first())
    }
}

/// Unless a reconciliation succeeds, the blacklist stays as it was.
pub proof fn lemma_only_success_changes_blacklist(
    terms: Terms,
    phase: Phase,
    state: StateView,
    replies: Seq<Option<Reply>>,
)
    requires
        phase != Phase::Finished(true),
    ensures
        run(terms, phase, state, replies).0 == Phase::Finished(true) || run(
            terms,
            phase,
            state,
            replies,
        ).1.banned == state.banned,
    decreases replies.len(),
{
    if replies.len() > 0 {
        let (next, after) = transition(terms, phase, state, replies[0]);
        if next == Phase::Finished(true) {
            lemma_finished(terms, true, after, replies.drop_first());
        } else {
            lemma_only_success_changes_blacklist(terms, next, after, replies.drop_first());
        }
    }
}

/// Whether the networks of all decisions among the answers fit their families.
pub open spec fn valid_replies(replies: Seq<Option<Reply>>) -> bool {
    forall|i: int|
        0 <= i < replies.len() ==> ((#[trigger] replies[i]) matches Some(Reply::Decisions(decisions))
            ==> all_valid(part_nets(decisions.new)))
}

/// Whether the networks of the list fit their families and cover no trusted address.
pub open spec fn spares(banned: Seq<IpNet>, trusted: Set<Addr>) -> bool {
    all_valid(banned) && addrs(banned).disjoint(trusted)
}

/// If no trusted address is banned, and none is to be by a change that is being made, then none is
/// banned after any series of answers.
pub proof fn lemma_run_spares_trusted(
    terms: Terms,
    phase: Phase,
    state: StateView,
    replies: Seq<Option<Reply>>,
)
    requires
        spares(state.banned, terms.trusted),
        phase matches Phase::Applying(apply) ==> spares(apply.banned, terms.trusted),
        valid_replies(replies),
    ensures
        spares(run(terms, phase, state, replies).1.banned, terms.trusted),
    decreases replies.len(),
{
    if replies.len() > 0 {
        let rest = replies.drop_first();
        assert forall|i: int| 0 <= i < rest.len() implies ((#[trigger] rest[i]) matches Some(
            Reply::Decisions(decisions),
        ) ==> all_valid(part_nets(decisions.new))) by {
            assert(rest[i] == replies[i + 1]);
        }
        if let (Phase::Streaming(actual), Some(Reply::Decisions(decisions))) = (phase, replies[0]) {
            lemma_trusted_stay_free(terms, state.banned, actual, decisions);
        }
        let (next, after) = transition(terms, phase, state, replies[0]);
        lemma_run_spares_trusted(terms, next, after, rest);
    }
}

/// A full reconciliation that succeeds leaves no trusted address banned, whatever was banned before.
pub proof fn lemma_full_sync_frees_trusted(
    terms: Terms,
    phase: Phase,
    state: StateView,
    replies: Seq<Option<Reply>>,
)
    requires
        terms.full_sync,
        phase is Reading || phase is Streaming || (phase matches Phase::Applying(apply) && spares(
            apply.banned,
            terms.trusted,
        )),
        all_valid(state.banned),
        valid_replies(replies),
        run(terms, phase, state, replies).0 == Phase::Finished(true),
    ensures
        spares(run(terms, phase, state, replies).1.banned, terms.trusted),
    decreases replies.len(),
{
    if replies.len() > 0 {
        let rest = replies.drop_first();
        assert forall|i: int| 0 <= i < rest.len() implies ((#[trigger] rest[i]) matches Some(
            Reply::Decisions(decisions),
        ) ==> all_valid(part_nets(decisions.new))) by {
            assert(rest[i] == replies[i + 1]);
        }
        if let (Phase::Streaming(actual), Some(Reply::Decisions(decisions))) = (phase, replies[0]) {
            lemma_trusted_stay_free(terms, state.banned, actual, decisions);
        }
        let (next, after) = transition(terms, phase, state, replies[0]);
        if let Phase::Finished(success) = next {
            lemma_finished(terms, success, after, rest);
        } else {
            lemma_full_sync_frees_trusted(terms, next, after, rest);
        }
    }
}

/// What the bouncer knows after a series of attempts, each with its mode and the answers that it got.
pub open spec fn after_attempts(
    terms: Terms,
    state: StateView,
    attempts: Seq<(bool, Seq<Option<Reply>>)>,
) -> StateView
    decreases attempts.len(),
{
    if attempts.len() == 0 {
        state
    } else {
        let before = after_attempts(terms, state, attempts.drop_last());
        let (full_sync, replies) = attempts.last();
        run(Terms { full_sync, ..terms }, first_phase(full_sync), before, replies).1
    }
}

/// A bouncer that starts with nothing banned never bans a trusted address, whatever it is answered.
pub proof fn lemma_trusted_never_banned(
    terms: Terms,
    pending_save: bool,
    attempts: Seq<(bool, Seq<Option<Reply>>)>,
)
    requires
        forall|i: int| 0 <= i < attempts.len() ==> valid_replies((#[trigger] attempts[i]).1),
    ensures
        spares(
            after_attempts(
                terms,
                StateView { banned: Seq::empty(), pending_save },
                attempts,
            ).banned,
            terms.trusted,
        ),
    decreases attempts.len(),
{
    let start = StateView { banned: Seq::<IpNet>::empty(), pending_save };
    if attempts.len() == 0 {
        assert(addrs(start.banned) =~= Set::empty());
    } else {
        let earlier = attempts.drop_last();
        assert forall|i: int| 0 <= i < earlier.len() implies valid_replies(
            (#[trigger] earlier[i]).1,
        ) by {
            assert(earlier[i] == attempts[i]);
        }
        lemma_trusted_never_banned(terms, pending_save, earlier);
        let (full_sync, replies) = attempts.last();
        assert(valid_replies(attempts[attempts.len() - 1].1));
        lemma_run_spares_trusted(
            Terms { full_sync, ..terms },
            first_phase(full_sync),
            after_attempts(terms, start, earlier),
            replies,
        );
    }
}

/// Nothing follows the end of a reconciliation.
pub proof fn lemma_finished(
    terms: Terms,
    success: bool,
    state: StateView,
    replies: Seq<Option<Reply>>,
)
    ensures
        run(terms, Phase::Finished(success), state, replies) == (Phase::Finished(success), state),
    decreases replies.len(),
{
    if replies.len() > 0 {
        lemma_finished(terms, success, state, replies.drop_first());
    }
}

/// The answers to so many requests that all succeed.
pub open spec fn successes(n: nat) -> Seq<Option<Reply>> {
    Seq::new(n, |i: int| Some(Reply::Done))
}

/// A change is made by its requests, one after the other; when all have succeeded, its blacklist
/// holds, and nothing is unsaved if changes are saved.
pub proof fn lemma_requests_in_order(terms: Terms, apply: ApplyView, state: StateView, done: nat)
    requires
        apply.steps.len() > 0,
        done <= apply.steps.len(),
    ensures
        run(
            terms,
            Phase::Applying(apply),
            state,
            successes(done),
        ) == (if done < apply.steps.len() {
            (
                Phase::Applying(ApplyView { steps: apply.steps.skip(done as int), ..apply }),
                state,
            )
        } else {
            (
                Phase::Finished(true),
                StateView {
                    banned: apply.banned,
                    pending_save: state.pending_save && !apply.save,
                },
            )
        }),
    decreases done,
{
    reveal_with_fuel(run, 2);
    let replies = successes(done);
    if done == 0 {
        assert(apply.steps.skip(0) =~= apply.steps);
    } else {
        let rest = successes((done - 1) as nat);
        assert(replies.drop_first() =~= rest);
        let next = ApplyView { steps: apply.steps.drop_first(), ..apply };
        if next.steps.len() > 0 {
            lemma_requests_in_order(terms, next, state, (done - 1) as nat);
            assert(next.steps.skip(done - 1) =~= apply.steps.skip(done as int));
        }
    }
}

/// A failure while the change is being made ends the reconciliation: the blacklist stays, and the
/// configuration counts as unsaved if changes are saved.
pub proof fn lemma_failed_change(terms: Terms, apply: ApplyView, state: StateView)
    ensures
        transition(terms, Phase::Applying(apply), state, None) == (
            Phase::Finished(false),
            StateView { banned: state.banned, pending_save: state.pending_save || apply.save },
        ),
{
}

/// The answers for one family of a group: whether there are entries, and if so which.
pub open spec fn family_replies(nets: Option<Vec<IpNet>>) -> Seq<Option<Reply>> {
    match nets {
        None => seq![Some(Reply::Group(GroupReply::Exists(false)))],
        Some(n) => seq![
            Some(Reply::Group(GroupReply::Exists(true))),
            Some(Reply::Group(GroupReply::Values(n))),
        ],
    }
}

/// The entries of a family, of which there are none if it does not exist.
pub open spec fn family_nets(nets: Option<Vec<IpNet>>) -> Seq<IpNet> {
    match nets {
        None => Seq::empty(),
        Some(n) => n@,
    }
}

/// A full reconciliation reads the entries of both families, asks for the decisions, and then makes
/// the change that both call for.
pub proof fn lemma_full_sync_run(
    terms: Terms,
    state: StateView,
    v4: Option<Vec<IpNet>>,
    v6: Option<Vec<IpNet>>,
    decisions: DecisionsResponse,
)
    ensures
        ({
            let actual = family_nets(v4) + family_nets(v6);
            let update = planned_update(terms, state.banned, actual, decisions);
            run(
                terms,
                first_phase(true),
                state,
                family_replies(v4) + family_replies(v6) + seq![Some(Reply::Decisions(decisions))],
            ) == proceed(
                ApplyView {
                    steps: update_steps(update, terms.full_sync, terms.group, terms.save),
                    banned: update.banned,
                    save: terms.save,
                },
                false,
                state,
            )
        }),
{
    reveal_with_fuel(run, 6);
    let last = seq![Some(Reply::Decisions(decisions))];
    let replies = family_replies(v4) + family_replies(v6) + last;
    let middle = family_replies(v6) + last;
    let none = Seq::<IpNet>::empty();
    let read4 = family_nets(v4);
    assert(none + read4 =~= read4);
    let actual = read4 + family_nets(v6);
    match v4 {
        None => {
            assert(replies.drop_first() =~= middle);
        },
        Some(n) => {
            assert(replies.drop_first().drop_first() =~= middle);
        },
    }
    match v6 {
        None => {
            assert(middle.drop_first() =~= last);
            assert(actual =~= read4);
        },
        Some(n) => {
            assert(middle.drop_first().drop_first() =~= last);
        },
    }
    assert(last.drop_first() =~= Seq::empty());
}

/// The attempt of a round that follows the given number of failures, if there is one.
pub open spec fn round_after(round: Round, failures: nat) -> Option<Round>
    decreases failures,
{
    if failures == 0 {
        Some(round)
    } else {
        match round_after(round, (failures - 1) as nat) {
            Some(last) => last.spec_failed(),
            None => None,
        }
    }
}

/// A round makes at most one attempt more than there are retries, and every attempt that follows a
/// failure reconciles the whole group.
pub proof fn lemma_round_attempts(mode: ReconcileMode, failures: nat)
    ensures
        round_after(
            Round {
                mode,
                attempts: RetryOp { retries: RECONCILE_RETRIES, current_retries: 0 },
            },
            failures,
        ) == (if failures <= RECONCILE_RETRIES {
            Some(
                Round {
                    mode: if failures == 0 {
                        mode
                    } else {
                        ReconcileMode::FullSync
                    },
                    attempts: RetryOp {
                        retries: RECONCILE_RETRIES,
                        current_retries: failures as u64,
                    },
                },
            )
        } else {
            None
        }),
    decreases failures,
{
    if failures > 0 {
        lemma_round_attempts(mode, (failures - 1) as nat);
    }
}

/// When the whole group is reconciled: in the first round, in the round after one that failed, and
/// otherwise when the interval has passed since that was last done, if there is one.
pub proof fn lemma_full_sync_rounds<E>(
    schedule: Schedule,
    mode: ReconcileMode,
    ended: u128,
    failure: E,
    interval: Option<u128>,
    now: u128,
)
    ensures
        full_sync_due(true, None, interval, now),
        ({
            let failed = schedule_after(schedule, LoopEvent::<E>::Ended(Err(failure), ended));
            full_sync_due(failed.force_full_sync, failed.last_full_sync, interval, now)
        }),
        ({
            let next = schedule_after(schedule, LoopEvent::<E>::Ended(Ok(mode), ended));
            let last = if mode is FullSync {
                Some(ended)
            } else {
                schedule.last_full_sync
            };
            full_sync_due(next.force_full_sync, next.last_full_sync, interval, now) <==> (interval
                matches Some(period) && (last matches Some(time) ==> period == 0 || now - time
                >= period))
        }),
{
}

/// How many candidates are let into a group: no more than there are, no more than there is room for,
/// and none is left out while there is room.
pub proof fn lemma_room_is_used(retained: nat, candidates: nat)
    ensures
        admitted(retained, candidates) <= candidates,
        admitted(retained, candidates) > 0 ==> retained + admitted(retained, candidates) <= 15_000,
        admitted(retained, candidates) < candidates ==> retained + admitted(retained, candidates)
            >= 15_000,
{
}

/// What goes into a group that is written anew: the networks in their order, up to the number that a
/// group may hold.
pub proof fn lemma_capped_list(nets: Seq<IpNet>)
    ensures
        capped(nets).is_prefix_of(nets),
        capped(nets).len() <= 15_000,
        capped(nets).len() < nets.len() ==> capped(nets).len() == 15_000,
{
}

/// The addresses that a full reconciliation is to ban: those that active decisions name, without the
/// trusted ones.
pub open spec fn to_ban(decisions: DecisionsResponse, trusted: Set<Addr>) -> Set<Addr> {
    Set::new(|a: Addr| names(decisions.new, a) && !trusted.contains(a))
}

/// What a full reconciliation plans, told by the decisions of the reply. It bans the networks of the
/// addresses that the decisions name and that are not trusted, in their order and as many as a group
/// may hold. It deletes every entry of the group that is not one of these, as it stands, and adds
/// every one of these that is not an entry. What was banned before does not matter, nor which
/// decisions ended.
pub proof fn lemma_full_sync_plan(
    terms: Terms,
    banned: Seq<IpNet>,
    actual: Seq<IpNet>,
    decisions: DecisionsResponse,
)
    requires
        terms.full_sync,
        all_valid(part_nets(decisions.new)),
    ensures
        ({
            let update = planned_update(terms, banned, actual, decisions);
            let desired = networks_of(to_ban(decisions, terms.trusted));
            &&& simplified(desired)
            &&& addrs(desired) == to_ban(decisions, terms.trusted)
            &&& simplified(update.banned)
            &&& update.banned.is_prefix_of(desired)
            &&& update.banned.len() <= 15_000
            &&& update.skipped == desired.len() - update.banned.len()
            &&& update.skipped > 0 ==> update.banned.len() == 15_000
            &&& !update.at_capacity
            &&& update.deleted == actual.filter(|net: IpNet| !update.banned.contains(net))
            &&& update.new == update.banned.filter(|net: IpNet| !actual.contains(net))
        }),
{
    let update = planned_update(terms, banned, actual, decisions);
    let active = addrs(part_nets(decisions.new));
    lemma_addrs_addressable(part_nets(decisions.new));
    assert(active.difference(terms.trusted) =~= to_ban(decisions, terms.trusted)) by {
        assert forall|a: Addr| active.contains(a) <==> #[trigger] names(decisions.new, a) by {
            lemma_part_covers(decisions.new, a);
        }
    }
    let desired = networks_of(to_ban(decisions, terms.trusted));
    lemma_networks_exist(to_ban(decisions, terms.trusted));
    lemma_capped_list(desired);
    lemma_take_simplified(desired, capped(desired).len() as int);
    assert(absent_from(update.banned) =~= (|net: IpNet| !update.banned.contains(net)));
    assert(absent_from(actual) =~= (|net: IpNet| !actual.contains(net)));
}

/// The addresses that an incremental change may add: those that new decisions name and that are
/// neither trusted nor banned already.
pub open spec fn to_add(
    decisions: DecisionsResponse,
    trusted: Set<Addr>,
    banned: Seq<IpNet>,
) -> Set<Addr> {
    Set::new(
        |a: Addr| names(decisions.new, a) && !trusted.contains(a) && !covered(banned, a),
    )
}

/// The addresses that an incremental change releases: those that were banned, and that a decision
/// that ended names.
pub open spec fn to_release(decisions: DecisionsResponse, banned: Seq<IpNet>) -> Set<Addr> {
    Set::new(|a: Addr| covered(banned, a) && names(decisions.deleted, a))
}

/// The addresses that stay banned through an incremental change: those that were, and that no
/// decision that ended names.
pub open spec fn to_keep(decisions: DecisionsResponse, banned: Seq<IpNet>) -> Set<Addr> {
    Set::new(|a: Addr| covered(banned, a) && !names(decisions.deleted, a))
}

/// What an incremental reconciliation plans, told by the two parts of the reply, either of which may
/// be absent. It releases exactly the banned addresses that decisions which ended name. It adds the
/// networks of the addresses that new decisions name and that are neither trusted nor banned, in
/// their order, and leaves some out only if there is no room. What is banned afterwards is what was
/// kept together with what was added.
pub proof fn lemma_incremental_plan(
    terms: Terms,
    banned: Seq<IpNet>,
    actual: Seq<IpNet>,
    decisions: DecisionsResponse,
)
    requires
        !terms.full_sync,
        all_valid(banned),
        all_valid(part_nets(decisions.new)),
    ensures
        ({
            let update = planned_update(terms, banned, actual, decisions);
            let kept = networks_of(to_keep(decisions, banned));
            let wanted = networks_of(to_add(decisions, terms.trusted, banned));
            &&& simplified(update.deleted)
            &&& addrs(update.deleted) == to_release(decisions, banned)
            &&& simplified(kept)
            &&& addrs(kept) == to_keep(decisions, banned)
            &&& simplified(wanted)
            &&& addrs(wanted) == to_add(decisions, terms.trusted, banned)
            &&& update.new.is_prefix_of(wanted)
            &&& update.new.len() > 0 ==> kept.len() + update.new.len() <= 15_000
            &&& update.skipped == wanted.len() - update.new.len()
            &&& update.skipped > 0 ==> kept.len() + update.new.len() >= 15_000
            &&& update.at_capacity == (kept.len() >= 15_000)
            &&& simplified(update.banned)
            &&& addrs(update.banned) == to_keep(decisions, banned).union(addrs(update.new))
        }),
{
    let update = planned_update(terms, banned, actual, decisions);
    let new = addrs(part_nets(decisions.new));
    let gone = addrs(part_nets(decisions.deleted));
    let cached = addrs(banned);
    lemma_addrs_addressable(banned);
    lemma_addrs_addressable(part_nets(decisions.new));
    assert forall|a: Addr| new.contains(a) <==> #[trigger] names(decisions.new, a) by {
        lemma_part_covers(decisions.new, a);
    }
    assert forall|a: Addr| gone.contains(a) <==> #[trigger] names(decisions.deleted, a) by {
        lemma_part_covers(decisions.deleted, a);
    }
    let released = gone.intersect(cached);
    assert(released =~= to_release(decisions, banned));
    assert(cached.difference(released) =~= to_keep(decisions, banned));
    assert(new.difference(terms.trusted).difference(cached) =~= to_add(
        decisions,
        terms.trusted,
        banned,
    ));
    lemma_networks_exist(released);
    lemma_networks_exist(to_keep(decisions, banned));
    lemma_networks_exist(to_add(decisions, terms.trusted, banned));
    let kept = networks_of(to_keep(decisions, banned));
    let wanted = networks_of(to_add(decisions, terms.trusted, banned));
    lemma_room_is_used(kept.len(), wanted.len());
    lemma_take_simplified(wanted, update.new.len() as int);
    lemma_networks_exist(to_keep(decisions, banned).union(addrs(update.new)));
}

/// The commands by which a change is made, whatever the mode: they delete the entry of each network
/// that is deleted, and then set the entry of each network that is added, in the group of the
/// settings. Nothing is left out, and nothing else is sent.
pub proof fn lemma_change_is_sent(update: UpdateView, full_sync: bool, group: Seq<char>, save: bool)
    ensures
        ({
            let sent = sent_commands(update_steps(update, full_sync, group, save));
            let gone = update.deleted.len();
            &&& sent.len() == gone + update.new.len()
            &&& forall|i: int|
                0 <= i < gone ==> #[trigger] sent[i] == (
                    VyosConfigOperation::DeleteEntry,
                    entry_path(update.deleted[i], group),
                )
            &&& forall|i: int|
                gone <= i < sent.len() ==> #[trigger] sent[i] == (
                    VyosConfigOperation::SetEntry,
                    entry_path(update.new[i - gone], group),
                )
        }),
{
    let commands = decision_commands(update.new, update.deleted, group);
    lemma_decision_commands(update.new, update.deleted, group);
    assert(sent_commands(update_steps(update, full_sync, group, save)) == commands) by {
        lemma_sent_by_change(update, full_sync, group, save);
    }
}

proof fn lemma_sent_by_change(update: UpdateView, full_sync: bool, group: Seq<char>, save: bool)
    ensures
        sent_commands(update_steps(update, full_sync, group, save)) == decision_commands(
            update.new,
            update.deleted,
            group,
        ),
{
    let commands = decision_commands(update.new, update.deleted, group);
    let steps = update_steps(update, full_sync, group, save);
    if update.new.len() == 0 && update.deleted.len() == 0 {
        lemma_decision_commands(update.new, update.deleted, group);
        reveal_with_fuel(sent_commands, 2);
        if full_sync && save {
            assert(steps.drop_first() =~= Seq::<FirewallStep>::empty());
        }
        assert(sent_commands(steps) =~= commands);
    } else {
        lemma_steps_send_all(commands, Some(UPDATE_TIMEOUT_SECS), save);
    }
}

/// The requests by which a change is made. Each batch of commands but the last is full. A save
/// follows each batch if changes are saved, and otherwise there is none. If there is nothing to
/// change, a full reconciliation still saves if changes are saved, and any other does nothing. Each
/// request may take five minutes.
pub proof fn lemma_requests_of_change(
    update: UpdateView,
    full_sync: bool,
    group: Seq<char>,
    save: bool,
)
    ensures
        ({
            let steps = update_steps(update, full_sync, group, save);
            let changes = update.new.len() > 0 || update.deleted.len() > 0;
            &&& !changes ==> steps == (if full_sync && save {
                seq![FirewallStep::Save(Some(300))]
            } else {
                Seq::<FirewallStep>::empty()
            })
            &&& changes ==> forall|i: int|
                #![trigger steps[i]]
                0 <= i < steps.len() ==> match steps[i] {
                    FirewallStep::Configure(batch, timeout) => timeout == Some(300u64) && 0
                        < batch.len() <= 15_000 && (save ==> i + 1 < steps.len() && steps[i
                        + 1] is Save),
                    FirewallStep::Save(timeout) => timeout == Some(300u64) && save && i > 0
                        && steps[i - 1] is Configure,
                }
            &&& forall|i: int, j: int|
                #![trigger steps[i], steps[j]]
                0 <= i < j < steps.len() && steps[j] is Configure ==> (
                steps[i] matches FirewallStep::Configure(batch, _) ==> batch.len() == 15_000)
        }),
{
    let commands = decision_commands(update.new, update.deleted, group);
    lemma_steps_send_all(commands, Some(UPDATE_TIMEOUT_SECS), save);
}

/// The entries that a router has after it has carried out commands: a command that sets an entry
/// makes it one, and one that deletes it takes it away.
pub open spec fn replay(entries: Set<Seq<Seq<char>>>, commands: Seq<CommandView>) -> Set<
    Seq<Seq<char>>,
>
    decreases commands.len(),
{
    if commands.len() == 0 {
        entries
    } else {
        let before = replay(entries, commands.drop_last());
        match commands.last().0 {
            VyosConfigOperation::SetEntry => before.insert(commands.last().1),
            VyosConfigOperation::DeleteEntry => before.remove(commands.last().1),
        }
    }
}

/// Where the entries of a group stand in the configuration of a router.
pub open spec fn entries_of(nets: Seq<IpNet>, group: Seq<char>) -> Set<Seq<Seq<char>>> {
    Set::new(
        |path: Seq<Seq<char>>|
            exists|i: int| 0 <= i < nets.len() && #[trigger] entry_path(nets[i], group) == path,
    )
}

proof fn lemma_replay_deletes(
    entries: Set<Seq<Seq<char>>>,
    nets: Seq<IpNet>,
    group: Seq<char>,
    commands: Seq<CommandView>,
)
    requires
        commands.len() == nets.len(),
        forall|i: int|
            0 <= i < nets.len() ==> #[trigger] commands[i] == (
                VyosConfigOperation::DeleteEntry,
                entry_path(nets[i], group),
            ),
    ensures
        replay(entries, commands) == entries.difference(entries_of(nets, group)),
    decreases nets.len(),
{
    if nets.len() == 0 {
        assert(entries.difference(entries_of(nets, group)) =~= entries);
    } else {
        let head = nets.drop_last();
        let before = commands.drop_last();
        let last = nets.len() - 1;
        assert forall|i: int| 0 <= i < head.len() implies #[trigger] before[i] == (
            VyosConfigOperation::DeleteEntry,
            entry_path(head[i], group),
        ) by {
            assert(before[i] == commands[i]);
        }
        lemma_replay_deletes(entries, head, group, before);
        assert(commands[last] == commands.last());
        lemma_entries_split(nets, group);
        assert(replay(entries, commands) =~= entries.difference(entries_of(nets, group)));
    }
}

proof fn lemma_entries_split(nets: Seq<IpNet>, group: Seq<char>)
    requires
        nets.len() > 0,
    ensures
        entries_of(nets, group) == entries_of(nets.drop_last(), group).insert(
            entry_path(nets.last(), group),
        ),
{
    let head = nets.drop_last();
    assert forall|path: Seq<Seq<char>>|
        entries_of(nets, group).contains(path) <==> #[trigger] entries_of(head, group).insert(
            entry_path(nets.last(), group),
        ).contains(path) by {
        if entries_of(nets, group).contains(path) {
            let i = choose|i: int| 0 <= i < nets.len() && #[trigger] entry_path(nets[i], group) == path;
            if i < head.len() {
                assert(entry_path(head[i], group) == path);
            }
        }
        if entries_of(head, group).contains(path) {
            let i = choose|i: int| 0 <= i < head.len() && #[trigger] entry_path(head[i], group) == path;
            assert(entry_path(nets[i], group) == path);
        }
        assert(entries_of(nets, group).contains(entry_path(nets[nets.len() - 1], group)));
    }
    assert(entries_of(nets, group) =~= entries_of(head, group).insert(
        entry_path(nets.last(), group),
    ));
}

proof fn lemma_replay_sets(
    entries: Set<Seq<Seq<char>>>,
    first: Seq<CommandView>,
    nets: Seq<IpNet>,
    group: Seq<char>,
    commands: Seq<CommandView>,
)
    requires
        commands.len() == first.len() + nets.len(),
        commands.take(first.len() as int) == first,
        forall|i: int|
            first.len() <= i < commands.len() ==> #[trigger] commands[i] == (
                VyosConfigOperation::SetEntry,
                entry_path(nets[i - first.len()], group),
            ),
    ensures
        replay(entries, commands) == replay(entries, first).union(entries_of(nets, group)),
    decreases nets.len(),
{
    if nets.len() == 0 {
        assert(commands =~= first);
        assert(replay(entries, first).union(entries_of(nets, group)) =~= replay(entries, first));
    } else {
        let head = nets.drop_last();
        let before = commands.drop_last();
        assert(before.take(first.len() as int) =~= commands.take(first.len() as int));
        assert forall|i: int| first.len() <= i < before.len() implies #[trigger] before[i] == (
            VyosConfigOperation::SetEntry,
            entry_path(head[i - first.len()], group),
        ) by {
            assert(before[i] == commands[i]);
        }
        lemma_replay_sets(entries, first, head, group, before);
        assert(commands[commands.len() - 1] == commands.last());
        lemma_entries_split(nets, group);
        assert(replay(entries, commands) =~= replay(entries, first).union(entries_of(nets, group)));
    }
}

/// What the commands of a change do to a router, in either mode: of the entries that it had, those
/// that are deleted are gone, all others stay, and those that are added are there.
pub proof fn lemma_change_reaches_router(
    entries: Set<Seq<Seq<char>>>,
    update: UpdateView,
    full_sync: bool,
    group: Seq<char>,
    save: bool,
)
    ensures
        replay(entries, sent_commands(update_steps(update, full_sync, group, save)))
            == entries.difference(entries_of(update.deleted, group)).union(
            entries_of(update.new, group),
        ),
{
    lemma_change_is_sent(update, full_sync, group, save);
    let sent = sent_commands(update_steps(update, full_sync, group, save));
    let first = sent.take(update.deleted.len() as int);
    assert forall|i: int| 0 <= i < update.deleted.len() implies #[trigger] first[i] == (
        VyosConfigOperation::DeleteEntry,
        entry_path(update.deleted[i], group),
    ) by {
        assert(first[i] == sent[i]);
    }
    lemma_replay_deletes(entries, update.deleted, group, first);
    lemma_replay_sets(entries, first, update.new, group, sent);
}

/// Whether different networks of the list are written differently.
pub open spec fn told_apart(nets: Seq<IpNet>, group: Seq<char>) -> bool {
    forall|i: int, j: int|
        #![trigger nets[i], nets[j]]
        0 <= i < nets.len() && 0 <= j < nets.len() && entry_path(nets[i], group) == entry_path(
            nets[j],
            group,
        ) ==> nets[i] == nets[j]
}

/// A full reconciliation makes the entries on the router those that it bans, and no others, whatever
/// they were before: once its commands are carried out, the router has just these.
pub proof fn lemma_full_sync_reaches_router(
    terms: Terms,
    banned: Seq<IpNet>,
    actual: Seq<IpNet>,
    decisions: DecisionsResponse,
)
    requires
        terms.full_sync,
        all_valid(part_nets(decisions.new)),
        told_apart(actual, terms.group),
    ensures
        ({
            let update = planned_update(terms, banned, actual, decisions);
            replay(
                entries_of(actual, terms.group),
                sent_commands(update_steps(update, true, terms.group, terms.save)),
            ) == entries_of(update.banned, terms.group)
        }),
{
    let update = planned_update(terms, banned, actual, decisions);
    let group = terms.group;
    let had = entries_of(actual, group);
    let want = entries_of(update.banned, group);
    lemma_change_reaches_router(had, update, true, group, terms.save);
    let after = had.difference(entries_of(update.deleted, group)).union(
        entries_of(update.new, group),
    );
    assert forall|path: Seq<Seq<char>>| after.contains(path) <==> #[trigger] want.contains(path) by {
        if want.contains(path) {
            let i = choose|i: int|
                0 <= i < update.banned.len() && #[trigger] entry_path(update.banned[i], group) == path;
            let net = update.banned[i];
            assert(update.banned.contains(net));
            lemma_full_sync_deletes_entries_of(terms, banned, actual, decisions, net);
            if actual.contains(net) {
                let k = choose|k: int| 0 <= k < actual.len() && actual[k] == net;
                assert(entry_path(actual[k], group) == path);
                if entries_of(update.deleted, group).contains(path) {
                    let d = choose|d: int|
                        0 <= d < update.deleted.len() && #[trigger] entry_path(
                            update.deleted[d],
                            group,
                        ) == path;
                    assert(update.deleted.contains(update.deleted[d]));
                    lemma_full_sync_deletes_entries_of(
                        terms,
                        banned,
                        actual,
                        decisions,
                        update.deleted[d],
                    );
                    let e = choose|e: int| 0 <= e < actual.len() && actual[e] == update.deleted[d];
                    assert(actual[e] == actual[k]);
                }
            } else {
                let k = choose|k: int| 0 <= k < update.new.len() && update.new[k] == net;
                assert(entry_path(update.new[k], group) == path);
            }
        }
        if entries_of(update.new, group).contains(path) {
            let i = choose|i: int|
                0 <= i < update.new.len() && #[trigger] entry_path(update.new[i], group) == path;
            let net = update.new[i];
            assert(update.new.contains(net));
            lemma_full_sync_deletes_entries_of(terms, banned, actual, decisions, net);
            let k = choose|k: int| 0 <= k < update.banned.len() && update.banned[k] == net;
            assert(entry_path(update.banned[k], group) == path);
        }
        if had.contains(path) && !entries_of(update.deleted, group).contains(path) {
            let i = choose|i: int|
                0 <= i < actual.len() && #[trigger] entry_path(actual[i], group) == path;
            let net = actual[i];
            assert(actual.contains(net));
            lemma_full_sync_deletes_entries_of(terms, banned, actual, decisions, net);
            if update.deleted.contains(net) {
                let d = choose|d: int| 0 <= d < update.deleted.len() && update.deleted[d] == net;
                assert(entry_path(update.deleted[d], group) == path);
            }
            let k = choose|k: int| 0 <= k < update.banned.len() && update.banned[k] == net;
            assert(entry_path(update.banned[k], group) == path);
        }
    }
    assert(after =~= want);
}

proof fn lemma_full_sync_deletes_entries_of(
    terms: Terms,
    banned: Seq<IpNet>,
    actual: Seq<IpNet>,
    decisions: DecisionsResponse,
    net: IpNet,
)
    requires
        terms.full_sync,
        all_valid(part_nets(decisions.new)),
    ensures
        ({
            let update = planned_update(terms, banned, actual, decisions);
            &&& update.deleted.contains(net) <==> actual.contains(net) && !update.banned.contains(net)
            &&& update.new.contains(net) <==> update.banned.contains(net) && !actual.contains(net)
        }),
{
    lemma_full_sync_plan(terms, banned, actual, decisions);
    let update = planned_update(terms, banned, actual, decisions);
    lemma_filter(actual, |n: IpNet| !update.banned.contains(n), net);
    lemma_filter(update.banned, |n: IpNet| !actual.contains(n), net);
}

/// The terms of a reconciliation are those of the settings: its trusted addresses, its group, and
/// whether changes are saved.
pub proof fn lemma_terms_of_settings(config: Config, full_sync: bool)
    ensures
        terms(config, full_sync).full_sync == full_sync,
        forall|a: Addr| #[trigger]
            terms(config, full_sync).trusted.contains(a) <==> covered(config.trusted_ips@, a),
        terms(config, full_sync).group == config.firewall_group@,
        terms(config, full_sync).save == config.vyos_save_config,
{
}

/// What is seen of a change and of the bouncer is what they hold.
pub proof fn lemma_views_show_all(update: CappedUpdate, state: BouncerState)
    ensures
        update@.new == update.decisions.new@,
        update@.deleted == update.decisions.deleted@,
        update@.banned == update.final_blacklist@,
        update@.skipped == update.skipped,
        update@.at_capacity == update.at_capacity,
        state@.banned == state.blacklist@,
        state@.pending_save == state.pending_save,
{
}

/// A failure ends a reconciliation that is under way, wherever it stands: it has failed, and the
/// blacklist is as it was. Only a failure while the change is being made leaves the configuration
/// unsaved, and only if changes are saved.
pub proof fn lemma_failure_ends(terms: Terms, phase: Phase, state: StateView)
    requires
        !(phase is Finished),
    ensures
        ({
            let (next, after) = transition(terms, phase, state, None);
            &&& next == Phase::Finished(false)
            &&& after.banned == state.banned
            &&& after.pending_save == (state.pending_save || (phase matches Phase::Applying(apply)
                && apply.save))
        }),
{
}

/// Once a failure has struck, nothing that follows makes the attempt a success or changes the
/// blacklist.
pub proof fn lemma_failed_attempt_stays_failed(
    terms: Terms,
    phase: Phase,
    state: StateView,
    later: Seq<Option<Reply>>,
)
    requires
        !(phase is Finished),
    ensures
        ({
            let (next, after) = run(terms, phase, state, seq![None::<Reply>] + later);
            next == Phase::Finished(false) && after.banned == state.banned
        }),
{
    let replies = seq![None::<Reply>] + later;
    assert(replies.drop_first() =~= later);
    lemma_failure_ends(terms, phase, state);
    let (_, after) = transition(terms, phase, state, None);
    lemma_finished(terms, false, after, later);
}

/// An answer to another question than the one that is open changes nothing.
pub proof fn lemma_other_answers_change_nothing(
    terms: Terms,
    phase: Phase,
    state: StateView,
    reply: Reply,
)
    requires
        match phase {
            Phase::Reading(_) => !(reply is Group),
            Phase::Streaming(_) => !(reply is Decisions),
            Phase::Applying(_) => !(reply is Done),
            Phase::Finished(_) => true,
        },
    ensures
        transition(terms, phase, state, Some(reply)) == (phase, state),
{
}

proof fn lemma_run_concat(
    terms: Terms,
    phase: Phase,
    state: StateView,
    a: Seq<Option<Reply>>,
    b: Seq<Option<Reply>>,
)
    ensures
        run(terms, phase, state, a + b) == ({
            let (next, after) = run(terms, phase, state, a);
            run(terms, next, after, b)
        }),
    decreases a.len(),
{
    if a.len() == 0 {
        assert(a + b =~= b);
    } else {
        assert((a + b).drop_first() =~= a.drop_first() + b);
        let (next, after) = transition(terms, phase, state, a[0]);
        lemma_run_concat(terms, next, after, a.drop_first(), b);
    }
}

/// A full reconciliation starts by reading the group, and goes on to ask for the decisions with the
/// entries of both families, those of IPv4 first; nothing that it knows changes meanwhile. Any other
/// asks for the decisions at once.
pub proof fn lemma_reconciliation_starts(
    terms: Terms,
    state: StateView,
    v4: Option<Vec<IpNet>>,
    v6: Option<Vec<IpNet>>,
)
    ensures
        first_phase(true) == Phase::Reading((GroupStage::ExistsV4, Seq::<IpNet>::empty())),
        first_phase(false) == Phase::Streaming(Seq::<IpNet>::empty()),
        run(terms, first_phase(true), state, family_replies(v4) + family_replies(v6)) == (
            Phase::Streaming(family_nets(v4) + family_nets(v6)),
            state,
        ),
{
    reveal_with_fuel(run, 5);
    let replies = family_replies(v4) + family_replies(v6);
    let none = Seq::<IpNet>::empty();
    let read4 = family_nets(v4);
    assert(none + read4 =~= read4);
    match v4 {
        None => {
            assert(replies.drop_first() =~= family_replies(v6));
        },
        Some(_) => {
            assert(replies.drop_first().drop_first() =~= family_replies(v6));
        },
    }
    match v6 {
        None => {
            assert(family_replies(v6).drop_first() =~= Seq::empty());
            assert(read4 + family_nets(v6) =~= read4);
        },
        Some(_) => {
            assert(family_replies(v6).drop_first().drop_first() =~= Seq::empty());
        },
    }
}

/// What a reconciliation does once it has the decisions and all of its requests succeed: it makes
/// the requests of the change that it planned, and no fewer; it then succeeds, what it planned is
/// banned, and nothing is unsaved if it made requests and changes are saved. A request less, and it
/// is still under way, with the blacklist as it was.
pub proof fn lemma_change_is_made(
    terms: Terms,
    actual: Seq<IpNet>,
    state: StateView,
    decisions: DecisionsResponse,
    done: nat,
)
    ensures
        ({
            let update = planned_update(terms, state.banned, actual, decisions);
            let steps = update_steps(update, terms.full_sync, terms.group, terms.save);
            let (phase, after) = run(
                terms,
                Phase::Streaming(actual),
                state,
                seq![Some(Reply::Decisions(decisions))] + successes(done),
            );
            &&& done == steps.len() ==> phase == Phase::Finished(true) && after == (StateView {
                banned: update.banned,
                pending_save: state.pending_save && !(steps.len() > 0 && terms.save),
            })
            &&& done < steps.len() ==> phase == Phase::Applying(
                ApplyView {
                    steps: steps.skip(done as int),
                    banned: update.banned,
                    save: terms.save,
                },
            ) && after == state
        }),
{
    let update = planned_update(terms, state.banned, actual, decisions);
    let steps = update_steps(update, terms.full_sync, terms.group, terms.save);
    let replies = seq![Some(Reply::Decisions(decisions))] + successes(done);
    assert(replies.drop_first() =~= successes(done));
    reveal_with_fuel(run, 2);
    if steps.len() > 0 && done <= steps.len() {
        lemma_requests_in_order(
            terms,
            ApplyView { steps, banned: update.banned, save: terms.save },
            state,
            done,
        );
    }
}

/// A full reconciliation from beginning to end, when every answer comes and every request succeeds.
/// It ends in success. What it then bans are the addresses that active decisions name, without the
/// trusted ones, as far as a group can hold their networks; and the commands that it sent turn the
/// entries that the router had into just those.
pub proof fn lemma_full_sync_outcome(
    terms: Terms,
    state: StateView,
    v4: Option<Vec<IpNet>>,
    v6: Option<Vec<IpNet>>,
    decisions: DecisionsResponse,
) -> (sent: Seq<FirewallStep>)
    requires
        terms.full_sync,
        all_valid(part_nets(decisions.new)),
        told_apart(family_nets(v4) + family_nets(v6), terms.group),
    ensures
        ({
            let (phase, after) = run(
                terms,
                first_phase(true),
                state,
                family_replies(v4) + family_replies(v6) + (seq![Some(Reply::Decisions(decisions))]
                    + successes(sent.len())),
            );
            let desired = networks_of(to_ban(decisions, terms.trusted));
            &&& phase == Phase::Finished(true)
            &&& after.banned.is_prefix_of(desired)
            &&& after.banned.len() <= 15_000
            &&& after.banned.len() == desired.len() || after.banned.len() == 15_000
            &&& desired.len() <= 15_000 ==> addrs(after.banned) == to_ban(decisions, terms.trusted)
            &&& replay(
                entries_of(family_nets(v4) + family_nets(v6), terms.group),
                sent_commands(sent),
            ) == entries_of(after.banned, terms.group)
            &&& sent == update_steps(
                planned_update(
                    terms,
                    state.banned,
                    family_nets(v4) + family_nets(v6),
                    decisions,
                ),
                true,
                terms.group,
                terms.save,
            )
        }),
{
    let actual = family_nets(v4) + family_nets(v6);
    let update = planned_update(terms, state.banned, actual, decisions);
    let sent = update_steps(update, true, terms.group, terms.save);
    lemma_reconciliation_starts(terms, state, v4, v6);
    lemma_run_concat(
        terms,
        first_phase(true),
        state,
        family_replies(v4) + family_replies(v6),
        seq![Some(Reply::Decisions(decisions))] + successes(sent.len()),
    );
    lemma_change_is_made(terms, actual, state, decisions, sent.len());
    lemma_full_sync_plan(terms, state.banned, actual, decisions);
    lemma_full_sync_reaches_router(terms, state.banned, actual, decisions);
    let desired = networks_of(to_ban(decisions, terms.trusted));
    if desired.len() <= 15_000 {
        assert(update.banned =~= desired);
    }
    sent
}

/// An incremental reconciliation from beginning to end, when the decisions come and every request
/// succeeds. It ends in success. What it then bans is what was banned, without the addresses that
/// decisions which ended name, and with those that new decisions name and that are not trusted, all
/// of them if there is room. The commands that it sent delete and set entries of the router
/// accordingly, and leave all others alone.
pub proof fn lemma_incremental_outcome(
    terms: Terms,
    state: StateView,
    decisions: DecisionsResponse,
    entries: Set<Seq<Seq<char>>>,
) -> (change: (Seq<FirewallStep>, Seq<IpNet>, Seq<IpNet>))
    requires
        !terms.full_sync,
        all_valid(state.banned),
        all_valid(part_nets(decisions.new)),
    ensures
        ({
            let (sent, added, released) = change;
            let (phase, after) = run(
                terms,
                first_phase(false),
                state,
                seq![Some(Reply::Decisions(decisions))] + successes(sent.len()),
            );
            let kept = networks_of(to_keep(decisions, state.banned));
            let wanted = networks_of(to_add(decisions, terms.trusted, state.banned));
            &&& phase == Phase::Finished(true)
            &&& addrs(after.banned) == to_keep(decisions, state.banned).union(addrs(added))
            &&& addrs(released) == to_release(decisions, state.banned)
            &&& added.is_prefix_of(wanted)
            &&& kept.len() + wanted.len() <= 15_000 ==> addrs(added) == to_add(
                decisions,
                terms.trusted,
                state.banned,
            )
            &&& added.len() < wanted.len() ==> kept.len() + added.len() >= 15_000
            &&& replay(entries, sent_commands(sent)) == entries.difference(
                entries_of(released, terms.group),
            ).union(entries_of(added, terms.group))
        }),
{
    let none = Seq::<IpNet>::empty();
    let update = planned_update(terms, state.banned, none, decisions);
    let sent = update_steps(update, false, terms.group, terms.save);
    lemma_change_is_made(terms, none, state, decisions, sent.len());
    lemma_incremental_plan(terms, state.banned, none, decisions);
    lemma_change_reaches_router(entries, update, false, terms.group, terms.save);
    let kept = networks_of(to_keep(decisions, state.banned));
    let wanted = networks_of(to_add(decisions, terms.trusted, state.banned));
    if kept.len() + wanted.len() <= 15_000 {
        if update.new.len() < wanted.len() {
            assert(update.skipped > 0);
        }
        assert(update.new =~= wanted);
    }
    (sent, update.new, update.deleted)
}

/// What the main loop remembers after a series of events.
pub open spec fn after_events<E>(schedule: Schedule, events: Seq<LoopEvent<E>>) -> Schedule
    decreases events.len(),
{
    if events.len() == 0 {
        schedule
    } else {
        schedule_after(after_events(schedule, events.drop_last()), events.last())
    }
}

/// Whether an event is the end of a round.
pub open spec fn ends_round<E>(event: LoopEvent<E>) -> bool {
    event is Ended
}

/// Whether an event is the end of a round in which the whole group was reconciled.
pub open spec fn ends_full_sync<E>(event: LoopEvent<E>) -> bool {
    event matches LoopEvent::Ended(Ok(mode), _) && mode == ReconcileMode::FullSync
}

/// What the main loop remembers of all that happened since it started; `ended` is the last event that
/// ended a round, and `synced` the last that ended one in which the whole group was reconciled, or -1
/// if there was none. A full reconciliation is forced as long as no round has ended, and after that if
/// and only if the last one failed. The time that is remembered is that at which the last round ended
/// which reconciled the whole group. Waking up leaves no trace.
pub proof fn lemma_schedule_remembers<E>(events: Seq<LoopEvent<E>>, ended: int, synced: int)
    requires
        -1 <= ended < events.len(),
        ended >= 0 ==> ends_round(events[ended]),
        forall|i: int| ended < i < events.len() ==> !ends_round(#[trigger] events[i]),
        -1 <= synced < events.len(),
        synced >= 0 ==> ends_full_sync(events[synced]),
        forall|i: int| synced < i < events.len() ==> !ends_full_sync(#[trigger] events[i]),
    ensures
        ({
            let schedule = after_events(
                Schedule { force_full_sync: true, last_full_sync: None },
                events,
            );
            &&& schedule.force_full_sync <==> ended == -1 || events[ended]->Ended_0 is Err
            &&& schedule.last_full_sync == (if synced == -1 {
                None
            } else {
                Some(events[synced]->Ended_1)
            })
        }),
{
    lemma_force_remembers(events, ended);
    lemma_time_remembers(events, synced);
}

proof fn lemma_force_remembers<E>(events: Seq<LoopEvent<E>>, ended: int)
    requires
        -1 <= ended < events.len(),
        ended >= 0 ==> ends_round(events[ended]),
        forall|i: int| ended < i < events.len() ==> !ends_round(#[trigger] events[i]),
    ensures
        after_events(
            Schedule { force_full_sync: true, last_full_sync: None },
            events,
        ).force_full_sync <==> ended == -1 || events[ended]->Ended_0 is Err,
    decreases events.len(),
{
    if events.len() > 0 && ended < events.len() - 1 {
        let earlier = events.drop_last();
        assert(!ends_round(events[events.len() - 1]));
        assert forall|i: int| ended < i < earlier.len() implies !ends_round(#[trigger] earlier[i]) by {
            assert(!ends_round(events[i]));
        }
        lemma_force_remembers(earlier, ended);
    }
}

proof fn lemma_time_remembers<E>(events: Seq<LoopEvent<E>>, synced: int)
    requires
        -1 <= synced < events.len(),
        synced >= 0 ==> ends_full_sync(events[synced]),
        forall|i: int| synced < i < events.len() ==> !ends_full_sync(#[trigger] events[i]),
    ensures
        after_events(
            Schedule { force_full_sync: true, last_full_sync: None },
            events,
        ).last_full_sync == (if synced == -1 {
            None
        } else {
            Some(events[synced]->Ended_1)
        }),
    decreases events.len(),
{
    if events.len() > 0 && synced < events.len() - 1 {
        let earlier = events.drop_last();
        assert(!ends_full_sync(events[events.len() - 1]));
        assert forall|i: int| synced < i < earlier.len() implies !ends_full_sync(
            #[trigger] earlier[i],
        ) by {
            assert(!ends_full_sync(events[i]));
        }
        lemma_time_remembers(earlier, synced);
    }
}

/// The mode of a round that starts at `now` after all that happened. The whole group is reconciled
/// if no round has ended yet, or if the last one failed. It is also reconciled if there is an
/// interval, and the whole group never was reconciled, or the interval has passed since the last
/// such round ended. Otherwise only the changes are.
pub proof fn lemma_full_sync_is_due<E>(
    events: Seq<LoopEvent<E>>,
    interval: Option<u128>,
    now: u128,
    ended: int,
    synced: int,
)
    requires
        -1 <= ended < events.len(),
        ended >= 0 ==> ends_round(events[ended]),
        forall|i: int| ended < i < events.len() ==> !ends_round(#[trigger] events[i]),
        -1 <= synced < events.len(),
        synced >= 0 ==> ends_full_sync(events[synced]),
        forall|i: int| synced < i < events.len() ==> !ends_full_sync(#[trigger] events[i]),
    ensures
        ({
            let schedule = after_events(
                Schedule { force_full_sync: true, last_full_sync: None },
                events,
            );
            full_sync_due(schedule.force_full_sync, schedule.last_full_sync, interval, now) <==> ended
                == -1 || events[ended]->Ended_0 is Err || (interval matches Some(period) && (synced
                == -1 || period == 0 || now - events[synced]->Ended_1 >= period))
        }),
{
    lemma_schedule_remembers(events, ended, synced);
}

} // verus!
