//! Changing firewall groups through the VyOS HTTP API.
pub mod http;
pub mod types;

pub use crate::vyos_api::http::VyosClient;
pub use crate::vyos_api::types::{
    ipv4_group_exists, ipv4_group_get, ipv6_group_exists, ipv6_group_get, NetSet, VyosCommandResponse,
    VyosConfigOperation, VyosSaveCommand,
};

use crate::crowdsec_lapi::{DecisionsIpRange, DecisionsNets};
use crate::net::IpNet;
use crate::vyos_api::types::{
    entry_path, lemma_command_for_each, net_commands, VyosConfigCommand,
};
use vstd::prelude::*;
use vstd::slice::slice_subrange;

verus! {

/// How many commands are sent in one request.
pub const BATCH_SIZE: usize = 15000;

/// A command, as an operation and a path.
pub type CommandView = (VyosConfigOperation, Seq<Seq<char>>);

/// One request that an update of the firewall takes, with the seconds that it may take, if they are
/// not left to the client.
pub enum FirewallStep {
    /// Send these commands.
    Configure(Seq<CommandView>, Option<u64>),
    /// Save the configuration.
    Save(Option<u64>),
}

/// The requests that send the commands: in batches, each followed by a save if changes are saved,
/// and each with the timeout.
pub open spec fn firewall_steps(
    commands: Seq<CommandView>,
    timeout: Option<u64>,
    save_changes: bool,
) -> Seq<FirewallStep>
    decreases commands.len(),
{
    if commands.len() == 0 {
        Seq::empty()
    } else {
        let size = if commands.len() < BATCH_SIZE {
            commands.len() as int
        } else {
            BATCH_SIZE as int
        };
        let send = seq![FirewallStep::Configure(commands.take(size), timeout)];
        let rest = firewall_steps(commands.skip(size), timeout, save_changes);
        if save_changes {
            send + seq![FirewallStep::Save(timeout)] + rest
        } else {
            send + rest
        }
    }
}

/// The commands that turn decisions into entries of a group: first all deletions, then all additions.
pub open spec fn decision_commands(
    new: Seq<IpNet>,
    deleted: Seq<IpNet>,
    group: Seq<char>,
) -> Seq<CommandView> {
    net_commands(VyosConfigOperation::DeleteEntry, deleted, group) + net_commands(
        VyosConfigOperation::SetEntry,
        new,
        group,
    )
}

/// The next request of an update, with the seconds that it may take, if they are not left to the
/// client.
pub enum FirewallRequest<'a> {
    /// Send these commands.
    Configure(&'a [VyosConfigCommand], Option<u64>),
    /// Save the configuration.
    Save(Option<u64>),
}

impl<'a> FirewallRequest<'a> {
    /// The request, as a step.
    pub open spec fn step(self) -> FirewallStep {
        match self {
            FirewallRequest::Configure(commands, timeout) => FirewallStep::Configure(
                commands.deep_view(),
                timeout,
            ),
            FirewallRequest::Save(timeout) => FirewallStep::Save(timeout),
        }
    }
}

/// An update of the firewall that is under way. Its view holds the requests that are still to be made.
pub struct FirewallUpdate {
    commands: Vec<VyosConfigCommand>,
    sent: usize,
    saving: bool,
    save_changes: bool,
    timeout: Option<u64>,
}

impl View for FirewallUpdate {
    type V = Seq<FirewallStep>;

    closed spec fn view(&self) -> Seq<FirewallStep> {
        let rest = firewall_steps(
            self.commands.deep_view().skip(self.sent as int),
            self.timeout,
            self.save_changes,
        );
        if self.saving {
            seq![FirewallStep::Save(self.timeout)] + rest
        } else {
            rest
        }
    }
}

impl FirewallUpdate {
    #[verifier::type_invariant]
    closed spec fn inv(self) -> bool {
        self.sent <= self.commands@.len()
    }

    /// An update that sends nothing but a save, or nothing at all.
    pub fn without_commands(save: bool, timeout: Option<u64>) -> (update: FirewallUpdate)
        ensures
            update@ == (if save {
                seq![FirewallStep::Save(timeout)]
            } else {
                Seq::<FirewallStep>::empty()
            }),
    {
        let update = FirewallUpdate {
            commands: Vec::new(),
            sent: 0,
            saving: save,
            save_changes: false,
            timeout,
        };
        assert(update@ =~= (if save {
            seq![FirewallStep::Save(timeout)]
        } else {
            Seq::<FirewallStep>::empty()
        }));
        update
    }

    /// The request to make now, if any is left.
    pub fn request(&self) -> (request: Option<FirewallRequest<'_>>)
        ensures
            request is None <==> self@.len() == 0,
            request matches Some(r) ==> r.step() == self@[0],
    {
        proof {
            use_type_invariant(self);
        }
        if self.saving {
            Some(FirewallRequest::Save(self.timeout))
        } else if self.sent < self.commands.len() {
            let end = self.batch_end();
            let batch = slice_subrange(self.commands.as_slice(), self.sent, end);
            proof {
                let all = self.commands.deep_view();
                assert(batch.deep_view() =~= all.skip(self.sent as int).take(end - self.sent));
            }
            Some(FirewallRequest::Configure(batch, self.timeout))
        } else {
            None
        }
    }

    fn batch_end(&self) -> (end: usize)
        requires
            self.sent < self.commands@.len(),
        ensures
            self.sent < end <= self.commands@.len(),
            end - self.sent == (if self.commands@.len() - self.sent < BATCH_SIZE {
                self.commands@.len() - self.sent
            } else {
                BATCH_SIZE as int
            }),
    {
        if self.commands.len() - self.sent < BATCH_SIZE {
            self.commands.len()
        } else {
            self.sent + BATCH_SIZE
        }
    }

    /// Goes on to the next request, once the current one has succeeded.
    pub fn acknowledge(self) -> (update: FirewallUpdate)
        ensures
            update@ == (if self@.len() == 0 {
                self@
            } else {
                self@.drop_first()
            }),
    {
        proof {
            use_type_invariant(&self);
        }
        let ghost before = self@;
        if self.saving {
            let update = FirewallUpdate { saving: false, ..self };
            assert(update@ =~= before.drop_first());
            update
        } else if self.sent < self.commands.len() {
            let end = self.batch_end();
            let ghost all = self.commands.deep_view();
            let update = FirewallUpdate { sent: end, saving: self.save_changes, ..self };
            assert(all.skip(self.sent as int).skip(end - self.sent) =~= all.skip(end as int));
            assert(update@ =~= before.drop_first());
            update
        } else {
            self
        }
    }
}

/// Starts to apply networks to a group: deletions first, then additions. Each request may take as
/// many seconds as the timeout says.
pub fn update_firewall_nets(
    decision_ips: &DecisionsNets,
    firewall_group: &str,
    timeout: Option<u64>,
    save_changes: bool,
) -> (update: FirewallUpdate)
    ensures
        update@ == firewall_steps(
            decision_commands(decision_ips.new@, decision_ips.deleted@, firewall_group@),
            timeout,
            save_changes,
        ),
{
    let mut commands = NetSet(&decision_ips.deleted).into_vyos_commands(
        VyosConfigOperation::DeleteEntry,
        firewall_group,
    );
    let mut add_commands = NetSet(&decision_ips.new).into_vyos_commands(
        VyosConfigOperation::SetEntry,
        firewall_group,
    );
    let ghost deletes = commands.deep_view();
    let ghost adds = add_commands.deep_view();
    commands.append(&mut add_commands);
    let update = FirewallUpdate { commands, sent: 0, saving: false, save_changes, timeout };
    assert(update.commands.deep_view() =~= deletes + adds);
    assert(update.commands.deep_view().skip(0) =~= deletes + adds);
    update
}

/// Starts to apply address sets to a group. Each request may take as many seconds as the timeout
/// says.
pub fn update_firewall(
    decisions_ip_range: &DecisionsIpRange,
    firewall_group: &str,
    timeout: Option<u64>,
    save_changes: bool,
) -> (update: FirewallUpdate)
    ensures
        update@ == firewall_steps(
            decision_commands(
                decisions_ip_range.new@,
                decisions_ip_range.deleted@,
                firewall_group@,
            ),
            timeout,
            save_changes,
        ),
{
    update_firewall_nets(&decisions_ip_range.into_nets(), firewall_group, timeout, save_changes)
}

/// The commands that the steps send, in order.
pub open spec fn sent_commands(steps: Seq<FirewallStep>) -> Seq<CommandView>
    decreases steps.len(),
{
    if steps.len() == 0 {
        Seq::empty()
    } else {
        let rest = sent_commands(steps.drop_first());
        match steps[0] {
            FirewallStep::Configure(commands, _) => commands + rest,
            FirewallStep::Save(_) => rest,
        }
    }
}

/// An update sends every command once, in order. Every batch but the last is full, and none is empty.
/// If changes are saved, a save follows each batch; otherwise there is none. Every request has the
/// timeout.
pub proof fn lemma_steps_send_all(
    commands: Seq<CommandView>,
    timeout: Option<u64>,
    save_changes: bool,
)
    ensures
        ({
            let steps = firewall_steps(commands, timeout, save_changes);
            &&& sent_commands(steps) == commands
            &&& forall|i: int|
                #![trigger steps[i]]
                0 <= i < steps.len() ==> match steps[i] {
                    FirewallStep::Configure(batch, t) => t == timeout && 0 < batch.len() <= 15_000
                        && (save_changes ==> i + 1 < steps.len() && steps[i + 1] is Save),
                    FirewallStep::Save(t) => t == timeout && save_changes && i > 0 && steps[i
                        - 1] is Configure,
                }
            &&& forall|i: int, j: int|
                #![trigger steps[i], steps[j]]
                0 <= i < j < steps.len() && steps[j] is Configure ==> (
                steps[i] matches FirewallStep::Configure(batch, _) ==> batch.len() == 15_000)
        }),
    decreases commands.len(),
{
    let steps = firewall_steps(commands, timeout, save_changes);
    if commands.len() > 0 {
        let size = if commands.len() < BATCH_SIZE {
            commands.len() as int
        } else {
            BATCH_SIZE as int
        };
        let tail = commands.skip(size);
        let rest = firewall_steps(tail, timeout, save_changes);
        lemma_steps_send_all(tail, timeout, save_changes);
        assert(commands =~= commands.take(size) + tail);
        reveal_with_fuel(sent_commands, 3);
        if save_changes {
            assert(steps.drop_first() =~= seq![FirewallStep::Save(timeout)] + rest);
            assert(steps.drop_first().drop_first() =~= rest);
            assert forall|i: int| 2 <= i < steps.len() implies #[trigger] steps[i] == rest[i - 2] by {}
        } else {
            assert(steps.drop_first() =~= rest);
            assert forall|i: int| 1 <= i < steps.len() implies #[trigger] steps[i] == rest[i - 1] by {}
        }
    }
}

/// What a group change asks of the router: for each network that is deleted a command that deletes
/// its entry, and then for each network that is new a command that sets its entry. Nothing is left
/// out, and nothing else is asked.
pub proof fn lemma_decision_commands(new: Seq<IpNet>, deleted: Seq<IpNet>, group: Seq<char>)
    ensures
        ({
            let commands = decision_commands(new, deleted, group);
            &&& commands.len() == deleted.len() + new.len()
            &&& forall|i: int|
                0 <= i < deleted.len() ==> #[trigger] commands[i] == (
                    VyosConfigOperation::DeleteEntry,
                    entry_path(deleted[i], group),
                )
            &&& forall|i: int|
                deleted.len() <= i < commands.len() ==> #[trigger] commands[i] == (
                    VyosConfigOperation::SetEntry,
                    entry_path(new[i - deleted.len()], group),
                )
        }),
{
    lemma_command_for_each(VyosConfigOperation::DeleteEntry, deleted, group);
    lemma_command_for_each(VyosConfigOperation::SetEntry, new, group);
    let deletes = net_commands(VyosConfigOperation::DeleteEntry, deleted, group);
    let sets = net_commands(VyosConfigOperation::SetEntry, new, group);
    let commands = decision_commands(new, deleted, group);
    assert forall|i: int| 0 <= i < deleted.len() implies #[trigger] commands[i] == deletes[i] by {}
    assert forall|i: int| deleted.len() <= i < commands.len() implies #[trigger] commands[i]
        == sets[i - deleted.len()] by {}
}

/// A request stands for the step that sends its commands with its timeout, or that saves.
pub proof fn lemma_request_contents(request: FirewallRequest<'_>)
    ensures
        request matches FirewallRequest::Configure(commands, timeout) ==> request.step()
            == FirewallStep::Configure(commands.deep_view(), timeout),
        request matches FirewallRequest::Save(timeout) ==> request.step() == FirewallStep::Save(
            timeout,
        ),
{
}

} // verus!
