//! What the bouncer asks of the local CrowdSec API, and what it makes of the reply.
use crate::blacklist::IpRangeMixed;
use crate::cli::CertAuth;
use crate::net::{addrs, all_valid, covered, parsed_host, parsed_net, simplified, Addr, IpNet};
use vstd::prelude::*;

verus! {

/// The path that streams decisions.
pub const DECISIONS_STREAM_PATH: &'static str = "/v1/decisions/stream";

/// Where a decision comes from.
#[derive(Clone, Copy, Debug, PartialEq, Eq, Structural)]
pub enum Origin {
    Crowdsec,
    Lists,
    Cscli,
}

impl Origin {
    /// The name of the origin in a query.
    pub open spec fn spec_name(self) -> Seq<char> {
        match self {
            Origin::Crowdsec => "crowdsec"@,
            Origin::Lists => "lists"@,
            Origin::Cscli => "cscli"@,
        }
    }

    /// The name of the origin in a query.
    pub fn name(&self) -> (name: &'static str)
        ensures
            name@ == self.spec_name(),
    {
        match self {
            Origin::Crowdsec => "crowdsec",
            Origin::Lists => "lists",
            Origin::Cscli => "cscli",
        }
    }
}

/// The origins whose decisions the bouncer enforces: those of CrowdSec itself, of custom lists and
/// of the command line tool.
pub fn default_decision_origins() -> (origins: Vec<Origin>)
    ensures
        origins@ == seq![Origin::Crowdsec, Origin::Lists, Origin::Cscli],
{
    vec![Origin::Crowdsec, Origin::Lists, Origin::Cscli]
}

/// The names of the origins, with commas between them.
pub open spec fn origin_list(origins: Seq<Origin>) -> Seq<char>
    decreases origins.len(),
{
    if origins.len() == 0 {
        Seq::empty()
    } else if origins.len() == 1 {
        origins[0].spec_name()
    } else {
        origin_list(origins.drop_last()) + ","@ + origins.last().spec_name()
    }
}

fn join_origins(origins: &Vec<Origin>) -> (text: String)
    ensures
        text@ == origin_list(origins@),
{
    let mut text = String::new();
    let mut i: usize = 0;
    while i < origins.len()
        invariant
            i <= origins@.len(),
            text@ == origin_list(origins@.take(i as int)),
        decreases origins.len() - i,
    {
        proof {
            assert(origins@.take(i + 1).drop_last() =~= origins@.take(i as int));
        }
        if i > 0 {
            text.append(",");
        }
        text.append(origins[i].name());
        i = i + 1;
        assert(text@ =~= origin_list(origins@.take(i as int)));
    }
    assert(origins@.take(i as int) =~= origins@);
    text
}

/// Which decisions to ask for.
pub struct DecisionsOptions {
    /// Whether to ask for all active decisions, and not just for what changed since the last call.
    pub startup: bool,
    /// The origins whose bans of addresses and networks are asked for; if absent, the query does not
    /// narrow the decisions.
    pub origins: Option<Vec<Origin>>,
}

impl Default for DecisionsOptions {
    /// What changed, with nothing filtered out.
    fn default() -> (options: Self)
        ensures
            !options.startup,
            options.origins is None,
    {
        DecisionsOptions { startup: false, origins: None }
    }
}

impl DecisionsOptions {
    /// The bans of addresses and networks that come from the given origins.
    pub fn new(origins: Vec<Origin>, startup: bool) -> (options: Self)
        ensures
            options.startup == startup,
            options.origins == Some(origins),
    {
        DecisionsOptions { startup, origins: Some(origins) }
    }

    /// Whether all active decisions are asked for.
    pub fn get_startup(&self) -> (startup: bool)
        ensures
            startup == self.startup,
    {
        self.startup
    }

    /// The parameters of the query, by name.
    pub open spec fn spec_query(self) -> Seq<(Seq<char>, Seq<char>)> {
        let startup = seq![
            (
                "startup"@,
                if self.startup {
                    "true"@
                } else {
                    "false"@
                },
            ),
        ];
        match self.origins {
            None => startup,
            Some(origins) => startup + seq![
                ("type"@, "ban"@),
                ("origins"@, origin_list(origins@)),
                ("scopes"@, "ip,range"@),
                ("dedup"@, "false"@),
            ],
        }
    }

    /// The parameters of the query.
    pub fn query(&self) -> (query: Vec<(String, String)>)
        ensures
            query.deep_view() == self.spec_query(),
    {
        let startup = if self.startup {
            "true"
        } else {
            "false"
        };
        let mut query: Vec<(String, String)> = Vec::new();
        query.push(("startup".to_owned(), startup.to_owned()));
        if let Some(origins) = &self.origins {
            query.push(("type".to_owned(), "ban".to_owned()));
            query.push(("origins".to_owned(), join_origins(origins)));
            query.push(("scopes".to_owned(), "ip,range".to_owned()));
            query.push(("dedup".to_owned(), "false".to_owned()));
        }
        assert(query.deep_view() =~= self.spec_query());
        query
    }
}

/// Whether a decision bans one address or a network.
#[derive(Clone, Copy, Debug, PartialEq, Eq, Structural)]
pub enum Scope {
    Ip,
    Range,
}

/// A decision of CrowdSec to ban an address or a network.
pub struct Decision {
    pub value: String,
    pub scope: Scope,
}

impl Decision {
    /// The network that the decision bans, if its value can be read.
    pub open spec fn spec_net(self) -> Option<IpNet> {
        match self.scope {
            Scope::Ip => parsed_host(self.value@),
            Scope::Range => parsed_net(self.value@),
        }
    }

    /// The network that the decision bans, if its value can be read.
    pub fn net(&self) -> (net: Option<IpNet>)
        ensures
            net == self.spec_net(),
            net matches Some(n) ==> n.valid(),
    {
        match self.scope {
            Scope::Ip => IpNet::parse_host(self.value.as_str()),
            Scope::Range => IpNet::parse(self.value.as_str()),
        }
    }
}

/// A reply of the decision stream: the bans that are new, and those that ended.
pub struct DecisionsResponse {
    pub new: Option<Vec<Decision>>,
    pub deleted: Option<Vec<Decision>>,
}

/// The networks of the decisions that can be read, in their order.
pub open spec fn decision_nets(decisions: Seq<Decision>) -> Seq<IpNet>
    decreases decisions.len(),
{
    if decisions.len() == 0 {
        Seq::empty()
    } else {
        let before = decision_nets(decisions.drop_last());
        match decisions.last().spec_net() {
            Some(net) => before.push(net),
            None => before,
        }
    }
}

/// The networks of a part of a reply, which may be absent.
pub open spec fn part_nets(part: Option<Vec<Decision>>) -> Seq<IpNet> {
    match part {
        Some(decisions) => decision_nets(decisions@),
        None => Seq::empty(),
    }
}

fn read_part(part: &Option<Vec<Decision>>) -> (nets: Vec<IpNet>)
    ensures
        nets@ == part_nets(*part),
        all_valid(nets@),
{
    let mut nets: Vec<IpNet> = Vec::new();
    if let Some(decisions) = part {
        let mut i: usize = 0;
        while i < decisions.len()
            invariant
                i <= decisions@.len(),
                nets@ == decision_nets(decisions@.take(i as int)),
                all_valid(nets@),
            decreases decisions.len() - i,
        {
            proof {
                assert(decisions@.take(i + 1).drop_last() =~= decisions@.take(i as int));
            }
            if let Some(net) = decisions[i].net() {
                nets.push(net);
            }
            i = i + 1;
        }
        assert(decisions@.take(i as int) =~= decisions@);
    }
    nets
}

/// The addresses that a reply bans and those whose ban it ends.
pub struct DecisionsIpRange {
    pub new: IpRangeMixed,
    pub deleted: IpRangeMixed,
}

impl DecisionsIpRange {
    /// The addresses of a reply. Decisions whose value cannot be read are left out; the networks of
    /// the others fit their families.
    pub fn from(response: DecisionsResponse) -> (range: DecisionsIpRange)
        ensures
            forall|a: Addr| #[trigger] addrs(range.new@).contains(a) <==> names(response.new, a),
            forall|a: Addr| #[trigger]
                addrs(range.deleted@).contains(a) <==> names(response.deleted, a),
            all_valid(part_nets(response.new)),
            all_valid(part_nets(response.deleted)),
            addrs(range.new@) == addrs(part_nets(response.new)),
            addrs(range.deleted@) == addrs(part_nets(response.deleted)),
            simplified(range.new@),
            simplified(range.deleted@),
    {
        proof {
            assert forall|a: Addr| #[trigger]
                addrs(part_nets(response.new)).contains(a) <==> names(response.new, a) by {
                lemma_part_covers(response.new, a);
            }
            assert forall|a: Addr| #[trigger]
                addrs(part_nets(response.deleted)).contains(a) <==> names(response.deleted, a) by {
                lemma_part_covers(response.deleted, a);
            }
        }
        DecisionsIpRange {
            new: IpRangeMixed::from(read_part(&response.new)),
            deleted: IpRangeMixed::from(read_part(&response.deleted)),
        }
    }

    /// Leaves out of the new addresses those that the filter covers.
    pub fn filter_new(self, filter: &IpRangeMixed) -> (range: DecisionsIpRange)
        ensures
            simplified(range.new@),
            addrs(range.new@) == addrs(self.new@).difference(addrs(filter@)),
            range.deleted == self.deleted,
    {
        DecisionsIpRange { new: self.new.exclude(filter), deleted: self.deleted }
    }

    /// Keeps of the deleted addresses those that the filter covers.
    pub fn filter_deleted(self, filter: &IpRangeMixed) -> (range: DecisionsIpRange)
        ensures
            range.new == self.new,
            simplified(range.deleted@),
            addrs(range.deleted@) == addrs(self.deleted@).intersect(addrs(filter@)),
    {
        DecisionsIpRange { new: self.new, deleted: self.deleted.intersect(filter) }
    }

    /// The networks to ban and those to release.
    pub fn into_nets(&self) -> (nets: DecisionsNets)
        ensures
            nets.new@ == self.new@,
            nets.deleted@ == self.deleted@,
    {
        DecisionsNets { new: self.new.into_nets(), deleted: self.deleted.into_nets() }
    }
}

/// The entries to add to a firewall group and those to delete from it.
pub struct DecisionsNets {
    pub new: Vec<IpNet>,
    pub deleted: Vec<IpNet>,
}

impl DecisionsNets {
    /// Whether there is nothing to change.
    pub fn is_empty(&self) -> (empty: bool)
        ensures
            empty == (self.new@.len() == 0 && self.deleted@.len() == 0),
    {
        self.new.len() == 0 && self.deleted.len() == 0
    }
}

/// How the bouncer proves to CrowdSec who it is.
pub enum CrowdsecAuth {
    /// By a key.
    Apikey(String),
    /// By the client certificate in these files.
    Certs(CertAuth),
}

/// Whether a decision bans an address: its value is that address, or a network around it.
pub open spec fn bans(decision: Decision, a: Addr) -> bool {
    match decision.scope {
        Scope::Ip => parsed_host(decision.value@) matches Some(net) && net.covers(a),
        Scope::Range => parsed_net(decision.value@) matches Some(net) && net.covers(a),
    }
}

/// Whether some decision of a part of a reply bans an address.
pub open spec fn names(part: Option<Vec<Decision>>, a: Addr) -> bool {
    part matches Some(decisions) && exists|i: int|
        0 <= i < decisions@.len() && #[trigger] bans(decisions@[i], a)
}

/// A decision on an address is read as an address, one on a range as a network; whatever can be read
/// that way counts.
pub proof fn lemma_decision_is_read(decision: Decision)
    ensures
        decision.scope is Ip ==> decision.spec_net() == parsed_host(decision.value@),
        decision.scope is Range ==> decision.spec_net() == parsed_net(decision.value@),
{
}

/// The networks of a list of decisions are those of its decisions that can be read: none is left
/// out, and none is added.
pub proof fn lemma_every_decision_counts(decisions: Seq<Decision>, net: IpNet)
    ensures
        decision_nets(decisions).contains(net) <==> exists|i: int|
            0 <= i < decisions.len() && (#[trigger] decisions[i]).spec_net() == Some(net),
    decreases decisions.len(),
{
    if decisions.len() > 0 {
        let earlier = decisions.drop_last();
        let before = decision_nets(earlier);
        lemma_every_decision_counts(earlier, net);
        assert forall|i: int| 0 <= i < earlier.len() implies earlier[i] == #[trigger] decisions[i] by {}
        if exists|i: int| 0 <= i < earlier.len() && (#[trigger] earlier[i]).spec_net() == Some(net) {
            let i = choose|i: int|
                0 <= i < earlier.len() && (#[trigger] earlier[i]).spec_net() == Some(net);
            assert(decisions[i].spec_net() == Some(net));
        }
        let last = decisions[decisions.len() - 1];
        match last.spec_net() {
            Some(found) => {
                let all = before.push(found);
                assert(all[before.len() as int] == found);
                if before.contains(net) {
                    let k = choose|k: int| 0 <= k < before.len() && before[k] == net;
                    assert(all[k] == net);
                }
                if all.contains(net) && net != found {
                    let k = choose|k: int| 0 <= k < all.len() && all[k] == net;
                    assert(before[k] == net);
                }
            },
            None => {},
        }
    }
}

/// The networks of two lists of decisions after one another are those of the first, then those of
/// the second.
pub proof fn lemma_decisions_in_order(a: Seq<Decision>, b: Seq<Decision>)
    ensures
        decision_nets(a + b) == decision_nets(a) + decision_nets(b),
    decreases b.len(),
{
    if b.len() == 0 {
        assert(a + b =~= a);
        assert(decision_nets(a) + decision_nets(b) =~= decision_nets(a));
    } else {
        lemma_decisions_in_order(a, b.drop_last());
        assert((a + b).drop_last() =~= a + b.drop_last());
        assert(decision_nets(a + b) =~= decision_nets(a) + decision_nets(b));
    }
}

/// A part of a reply covers an address if and only if one of its decisions bans it, whatever the
/// scope of the decision and the family of the address; a part that is absent covers none.
pub proof fn lemma_part_covers(part: Option<Vec<Decision>>, a: Addr)
    ensures
        addrs(part_nets(part)).contains(a) <==> names(part, a),
{
    let nets = part_nets(part);
    if let Some(decisions) = part {
        if covered(nets, a) {
            let k = choose|k: int| 0 <= k < nets.len() && (#[trigger] nets[k]).covers(a);
            assert(nets.contains(nets[k]));
            lemma_every_decision_counts(decisions@, nets[k]);
            let i = choose|i: int|
                0 <= i < decisions@.len() && (#[trigger] decisions@[i]).spec_net() == Some(nets[k]);
            assert(bans(decisions@[i], a));
        }
        if names(part, a) {
            let i = choose|i: int| 0 <= i < decisions@.len() && #[trigger] bans(decisions@[i], a);
            let net = decisions@[i].spec_net()->0;
            lemma_every_decision_counts(decisions@, net);
            assert(decisions@[i].spec_net() == Some(net));
            let k = choose|k: int| 0 <= k < nets.len() && nets[k] == net;
            assert(nets[k].covers(a));
        }
    }
}

/// The names of origins are listed one after the other, with a comma between any two lists of them.
pub proof fn lemma_origin_lists(a: Seq<Origin>, b: Seq<Origin>, origin: Origin)
    ensures
        origin_list(Seq::<Origin>::empty()).len() == 0,
        origin_list(seq![origin]) == (match origin {
            Origin::Crowdsec => "crowdsec"@,
            Origin::Lists => "lists"@,
            Origin::Cscli => "cscli"@,
        }),
        a.len() > 0 && b.len() > 0 ==> origin_list(a + b) == origin_list(a) + ","@ + origin_list(b),
    decreases b.len(),
{
    if a.len() > 0 && b.len() > 0 {
        let rest = b.drop_last();
        assert((a + b).drop_last() =~= a + rest);
        if b.len() == 1 {
            assert(a + rest =~= a);
        } else {
            lemma_origin_lists(a, rest, origin);
            assert(origin_list(a + b) =~= origin_list(a) + ","@ + origin_list(b));
        }
    }
}

/// A query says whether all active decisions are asked for. If origins are given, it asks for their
/// bans of addresses and networks, without joining duplicates; otherwise it says no more.
pub proof fn lemma_query_parameters(options: DecisionsOptions)
    ensures
        ({
            let query = options.spec_query();
            &&& query[0].0 == "startup"@
            &&& query[0].1 == (if options.startup {
                "true"@
            } else {
                "false"@
            })
            &&& options.origins is None ==> query.len() == 1
            &&& options.origins matches Some(origins) ==> query.len() == 5 && query[1] == (
                "type"@,
                "ban"@,
            ) && query[2] == ("origins"@, origin_list(origins@)) && query[3] == (
                "scopes"@,
                "ip,range"@,
            ) && query[4] == ("dedup"@, "false"@)
        }),
{
}

/// The path of the API that streams decisions.
pub proof fn lemma_stream_path()
    ensures
        DECISIONS_STREAM_PATH@ == "/v1/decisions/stream"@,
{
}

} // verus!
