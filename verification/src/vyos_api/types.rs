//! The commands of the VyOS HTTP API.
use crate::net::{net_text, IpNet};
use vstd::prelude::*;

verus! {

/// What a command does to the configuration.
#[derive(Clone, Copy, Debug, PartialEq, Eq, Structural)]
pub enum VyosConfigOperation {
    SetEntry,
    DeleteEntry,
}

impl VyosConfigOperation {
    /// The name of the operation in the API.
    pub open spec fn spec_name(self) -> Seq<char> {
        match self {
            VyosConfigOperation::SetEntry => "set"@,
            VyosConfigOperation::DeleteEntry => "delete"@,
        }
    }

    /// The name of the operation in the API.
    pub fn name(&self) -> (name: &'static str)
        ensures
            name@ == self.spec_name(),
    {
        match self {
            VyosConfigOperation::SetEntry => "set",
            VyosConfigOperation::DeleteEntry => "delete",
        }
    }
}

/// A change of the configuration at a path.
pub struct VyosConfigCommand {
    pub op: VyosConfigOperation,
    pub path: Vec<String>,
}

impl DeepView for VyosConfigCommand {
    type V = (VyosConfigOperation, Seq<Seq<char>>);

    open spec fn deep_view(&self) -> (VyosConfigOperation, Seq<Seq<char>>) {
        (self.op, self.path.deep_view())
    }
}

/// What a query asks about the configuration.
#[derive(Clone, Copy, Debug, PartialEq, Eq, Structural)]
pub enum VyosRetrieveOperation {
    Exists,
    ReturnValues,
}

impl VyosRetrieveOperation {
    /// The name of the operation in the API.
    pub open spec fn spec_name(self) -> Seq<char> {
        match self {
            VyosRetrieveOperation::Exists => "exists"@,
            VyosRetrieveOperation::ReturnValues => "returnValues"@,
        }
    }

    /// The name of the operation in the API.
    pub fn name(&self) -> (name: &'static str)
        ensures
            name@ == self.spec_name(),
    {
        match self {
            VyosRetrieveOperation::Exists => "exists",
            VyosRetrieveOperation::ReturnValues => "returnValues",
        }
    }
}

/// A query about the configuration at a path.
pub struct VyosRetrieveCommand {
    pub op: VyosRetrieveOperation,
    pub path: Vec<String>,
}

impl DeepView for VyosRetrieveCommand {
    type V = (VyosRetrieveOperation, Seq<Seq<char>>);

    open spec fn deep_view(&self) -> (VyosRetrieveOperation, Seq<Seq<char>>) {
        (self.op, self.path.deep_view())
    }
}

/// The command that stores the configuration.
pub struct VyosSaveCommand {
    pub op: String,
}

impl Default for VyosSaveCommand {
    fn default() -> (command: Self)
        ensures
            command.op@ == "save"@,
    {
        VyosSaveCommand { op: "save".to_owned() }
    }
}

/// A reply of the API.
pub struct VyosCommandResponse<T> {
    pub success: bool,
    pub data: T,
    pub error: Option<String>,
}

/// Where the entries of one family stand in the firewall group of the given name.
pub open spec fn group_path(v6: bool, group: Seq<char>) -> Seq<Seq<char>> {
    let kind = if v6 {
        "ipv6-network-group"@
    } else {
        "network-group"@
    };
    seq!["firewall"@, "group"@, kind, group, "network"@]
}

fn build_group_path(v6: bool, group: &str) -> (path: Vec<String>)
    ensures
        path.deep_view() == group_path(v6, group@),
{
    let kind = if v6 {
        "ipv6-network-group"
    } else {
        "network-group"
    };
    let mut path: Vec<String> = Vec::new();
    path.push("firewall".to_owned());
    path.push("group".to_owned());
    path.push(kind.to_owned());
    path.push(group.to_owned());
    path.push("network".to_owned());
    assert(path.deep_view() =~= group_path(v6, group@));
    path
}

/// Asks whether the group has IPv4 entries.
pub fn ipv4_group_exists(group: &str) -> (command: VyosRetrieveCommand)
    ensures
        command.deep_view() == (VyosRetrieveOperation::Exists, group_path(false, group@)),
{
    VyosRetrieveCommand { op: VyosRetrieveOperation::Exists, path: build_group_path(false, group) }
}

/// Asks for the IPv4 entries of the group.
pub fn ipv4_group_get(group: &str) -> (command: VyosRetrieveCommand)
    ensures
        command.deep_view() == (VyosRetrieveOperation::ReturnValues, group_path(false, group@)),
{
    VyosRetrieveCommand {
        op: VyosRetrieveOperation::ReturnValues,
        path: build_group_path(false, group),
    }
}

/// Asks whether the group has IPv6 entries.
pub fn ipv6_group_exists(group: &str) -> (command: VyosRetrieveCommand)
    ensures
        command.deep_view() == (VyosRetrieveOperation::Exists, group_path(true, group@)),
{
    VyosRetrieveCommand { op: VyosRetrieveOperation::Exists, path: build_group_path(true, group) }
}

/// Asks for the IPv6 entries of the group.
pub fn ipv6_group_get(group: &str) -> (command: VyosRetrieveCommand)
    ensures
        command.deep_view() == (VyosRetrieveOperation::ReturnValues, group_path(true, group@)),
{
    VyosRetrieveCommand {
        op: VyosRetrieveOperation::ReturnValues,
        path: build_group_path(true, group),
    }
}

/// The command that sets or deletes one entry of a group.
pub open spec fn net_command(op: VyosConfigOperation, net: IpNet, group: Seq<char>) -> (
    VyosConfigOperation,
    Seq<Seq<char>>,
) {
    (op, group_path(net.is_v6(), group).push(net_text(net)))
}

/// The commands that set or delete entries of a group, one for each network.
pub open spec fn net_commands(
    op: VyosConfigOperation,
    nets: Seq<IpNet>,
    group: Seq<char>,
) -> Seq<(VyosConfigOperation, Seq<Seq<char>>)> {
    Seq::new(nets.len(), |i: int| net_command(op, nets[i], group))
}

/// A list of networks, as the entries of a group.
pub struct NetSet<'a>(pub &'a Vec<IpNet>);

impl<'a> NetSet<'a> {
    /// The commands that set or delete the networks in the group.
    pub fn into_vyos_commands(&self, op: VyosConfigOperation, group: &str) -> (commands: Vec<
        VyosConfigCommand,
    >)
        ensures
            commands.deep_view() == net_commands(op, self.0@, group@),
    {
        let nets = self.0;
        let mut commands: Vec<VyosConfigCommand> = Vec::new();
        let mut i: usize = 0;
        while i < nets.len()
            invariant
                i <= nets@.len(),
                commands@.len() == i,
                forall|j: int|
                    0 <= j < i ==> (#[trigger] commands@[j]).deep_view() == net_command(
                        op,
                        nets@[j],
                        group@,
                    ),
            decreases nets.len() - i,
        {
            let net = nets[i];
            let mut path = build_group_path(net.is_ipv6(), group);
            let ghost before = path.deep_view();
            path.push(net.to_string());
            assert(path.deep_view() =~= before.push(net_text(net)));
            commands.push(VyosConfigCommand { op, path });
            i = i + 1;
        }
        assert(commands.deep_view() =~= net_commands(op, nets@, group@));
        commands
    }
}

/// Where one entry of a group stands in the configuration.
pub open spec fn entry_path(net: IpNet, group: Seq<char>) -> Seq<Seq<char>> {
    seq![
        "firewall"@,
        "group"@,
        if net.is_v6() {
            "ipv6-network-group"@
        } else {
            "network-group"@
        },
        group,
        "network"@,
        net_text(net),
    ]
}

/// A command on an entry names the group, the family of the network and the network itself. The
/// entries of a family are queried at the path that all their commands share.
pub proof fn lemma_entry_commands(op: VyosConfigOperation, net: IpNet, group: Seq<char>)
    ensures
        net_command(op, net, group) == (op, entry_path(net, group)),
        entry_path(net, group).drop_last() == group_path(net.is_v6(), group),
        group_path(net.is_v6(), group).len() == 5,
        group_path(net.is_v6(), group)[0] == "firewall"@,
        group_path(net.is_v6(), group)[1] == "group"@,
        net.is_v6() ==> group_path(net.is_v6(), group)[2] == "ipv6-network-group"@,
        !net.is_v6() ==> group_path(net.is_v6(), group)[2] == "network-group"@,
        group_path(net.is_v6(), group)[3] == group,
        group_path(net.is_v6(), group)[4] == "network"@,
        net_command(op, net, group).1.last() == net_text(net),
{
    assert(net_command(op, net, group).1 =~= entry_path(net, group));
    assert(entry_path(net, group).drop_last() =~= group_path(net.is_v6(), group));
}

/// There is one command for each network, in their order.
pub proof fn lemma_command_for_each(op: VyosConfigOperation, nets: Seq<IpNet>, group: Seq<char>)
    ensures
        net_commands(op, nets, group).len() == nets.len(),
        forall|i: int|
            0 <= i < nets.len() ==> #[trigger] net_commands(op, nets, group)[i] == (
                op,
                entry_path(nets[i], group),
            ),
{
    assert forall|i: int| 0 <= i < nets.len() implies #[trigger] net_commands(op, nets, group)[i] == (
        op,
        entry_path(nets[i], group),
    ) by {
        lemma_entry_commands(op, nets[i], group);
    }
}

/// What a command or a query stands for is what it holds, and the operations have their names in the
/// API.
pub proof fn lemma_command_contents(command: VyosConfigCommand, query: VyosRetrieveCommand)
    ensures
        command.deep_view().0 == command.op,
        command.deep_view().1.len() == command.path@.len(),
        forall|i: int|
            0 <= i < command.path@.len() ==> #[trigger] command.deep_view().1[i] == command.path@[i]@,
        query.deep_view().0 == query.op,
        query.deep_view().1.len() == query.path@.len(),
        forall|i: int|
            0 <= i < query.path@.len() ==> #[trigger] query.deep_view().1[i] == query.path@[i]@,
        command.op.spec_name() == (if command.op is SetEntry {
            "set"@
        } else {
            "delete"@
        }),
        query.op.spec_name() == (if query.op is Exists {
            "exists"@
        } else {
            "returnValues"@
        }),
{
}

} // verus!
