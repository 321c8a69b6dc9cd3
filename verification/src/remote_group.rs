//! The list of banned networks that the router fetches.
use crate::blacklist::IpRangeMixed;
use crate::canonical::{lemma_addrs_addressable, lemma_networks_exist};
use crate::crowdsec_lapi::{
    default_decision_origins, lemma_part_covers, names, part_nets, DecisionsIpRange, DecisionsOptions,
    DecisionsResponse, Origin,
};
use crate::net::{
    addrs, all_valid, lemma_networks_of, net_text, networks_of, parsed_net, simplified, Addr, IpNet,
};
use crate::text::{lemma_first_line, lines_of};
use vstd::prelude::*;

verus! {

/// The type of the content of the list.
pub const FEED_CONTENT_TYPE: &'static str = "text/plain; charset=utf-8";

/// What is served: whether there has been a list yet, and the last one.
pub struct FeedView {
    pub ready: bool,
    pub banned: Seq<IpNet>,
}

/// The state of the list.
pub struct RemoteGroupState {
    blacklist: IpRangeMixed,
    ready: bool,
}

impl View for RemoteGroupState {
    type V = FeedView;

    closed spec fn view(&self) -> FeedView {
        FeedView { ready: self.ready, banned: self.blacklist@ }
    }
}

impl Default for RemoteGroupState {
    /// There has been no list yet.
    fn default() -> (state: Self)
        ensures
            state@ == (FeedView { ready: false, banned: Seq::empty() }),
    {
        RemoteGroupState { blacklist: IpRangeMixed::default(), ready: false }
    }
}

impl RemoteGroupState {
    /// Whether there has been a list.
    pub fn is_ready(&self) -> (ready: bool)
        ensures
            ready == self@.ready,
    {
        self.ready
    }

    /// The last list.
    pub fn blacklist(&self) -> (blacklist: &IpRangeMixed)
        ensures
            blacklist@ == self@.banned,
    {
        &self.blacklist
    }

    /// Takes a list.
    pub fn store_blacklist(&mut self, blacklist: IpRangeMixed)
        ensures
            final(self)@ == (FeedView { ready: true, banned: blacklist@ }),
    {
        self.blacklist = blacklist;
        self.ready = true;
    }
}

/// What keeps the list up to date: the trusted addresses, the pause between two refreshes in
/// seconds, and the list.
pub struct RemoteGroupApp {
    trusted_ips: IpRangeMixed,
    update_period_secs: u64,
    state: RemoteGroupState,
}

impl RemoteGroupApp {
    /// The trusted addresses.
    pub closed spec fn spec_trusted(self) -> Seq<IpNet> {
        self.trusted_ips@
    }

    /// The pause between two refreshes.
    pub closed spec fn spec_period(self) -> u64 {
        self.update_period_secs
    }

    /// The list.
    pub closed spec fn spec_state(self) -> RemoteGroupState {
        self.state
    }

    /// Puts the parts together.
    pub fn new(
        trusted_ips: IpRangeMixed,
        update_period_secs: u64,
        state: RemoteGroupState,
    ) -> (app: Self)
        ensures
            app.spec_trusted() == trusted_ips@,
            app.spec_period() == update_period_secs,
            app.spec_state() == state,
    {
        RemoteGroupApp { trusted_ips, update_period_secs, state }
    }

    /// The list.
    pub fn state(&self) -> (state: &RemoteGroupState)
        ensures
            *state == self.spec_state(),
    {
        &self.state
    }
}

/// The text of the list: one network on each line.
pub open spec fn feed_text(nets: Seq<IpNet>) -> Seq<char>
    decreases nets.len(),
{
    if nets.len() == 0 {
        Seq::empty()
    } else {
        net_text(nets[0]) + "\n"@ + feed_text(nets.drop_first())
    }
}

/// The networks that are read from the lines of a text; nothing where a line holds none.
pub open spec fn read_feed(text: Seq<char>) -> Seq<Option<IpNet>> {
    lines_of(text).map_values(|line: Seq<char>| parsed_net(line))
}

proof fn lemma_read_feed(nets: Seq<IpNet>)
    requires
        forall|i: int|
            #![trigger nets[i]]
            0 <= i < nets.len() ==> !net_text(nets[i]).contains('\n') && parsed_net(
                net_text(nets[i]),
            ) == Some(nets[i]),
    ensures
        read_feed(feed_text(nets)) == nets.map_values(|net: IpNet| Some(net)),
    decreases nets.len(),
{
    if nets.len() == 0 {
        assert(read_feed(feed_text(nets)) =~= nets.map_values(|net: IpNet| Some(net)));
    } else {
        let rest = nets.drop_first();
        assert forall|i: int| 0 <= i < rest.len() implies !net_text(#[trigger] rest[i]).contains(
            '\n',
        ) && parsed_net(net_text(rest[i])) == Some(rest[i]) by {
            assert(rest[i] == nets[i + 1]);
        }
        lemma_read_feed(rest);
        lemma_first_line(net_text(nets[0]), feed_text(rest));
        let tail = read_feed(feed_text(rest));
        assert(read_feed(feed_text(nets)) =~= seq![Some(nets[0])] + tail);
        assert(nets.map_values(|net: IpNet| Some(net)) =~= seq![Some(nets[0])] + rest.map_values(
            |net: IpNet| Some(net),
        ));
    }
}

/// Writes the list. Reading its lines gives back the networks.
pub fn format_blacklist(blacklist: &IpRangeMixed) -> (body: String)
    ensures
        body@ == feed_text(blacklist@),
        read_feed(body@) == blacklist@.map_values(|net: IpNet| Some(net)),
{
    let nets = blacklist.into_nets();
    let mut body = String::new();
    let mut i: usize = 0;
    assert(nets@.skip(0) =~= nets@);
    while i < nets.len()
        invariant
            i <= nets@.len(),
            body@ + feed_text(nets@.skip(i as int)) == feed_text(nets@),
            forall|j: int|
                #![trigger nets@[j]]
                0 <= j < i ==> !net_text(nets@[j]).contains('\n') && parsed_net(net_text(nets@[j]))
                    == Some(nets@[j]),
        decreases nets.len() - i,
    {
        let ghost before = body@;
        let net = nets[i];
        let text = net.to_string();
        body.append(text.as_str());
        body.append("\n");
        proof {
            assert(nets@.skip(i as int).drop_first() =~= nets@.skip(i + 1));
            assert(body@ + feed_text(nets@.skip(i + 1)) =~= before + feed_text(
                nets@.skip(i as int),
            ));
        }
        i = i + 1;
    }
    proof {
        assert(body@ =~= feed_text(nets@));
        lemma_read_feed(nets@);
    }
    body
}

/// A reply to the router.
pub struct FeedReply {
    pub status: u16,
    pub content_type: &'static str,
    pub body: String,
}

/// A reply to the router, as values.
pub struct FeedReplyView {
    pub status: u16,
    pub content_type: Seq<char>,
    pub body: Seq<char>,
}

impl View for FeedReply {
    type V = FeedReplyView;

    open spec fn view(&self) -> FeedReplyView {
        FeedReplyView {
            status: self.status,
            content_type: self.content_type@,
            body: self.body@,
        }
    }
}

/// What the router is answered: the list as plain text, or, until there has been one, that the
/// service is unavailable.
pub open spec fn served(feed: FeedView) -> FeedReplyView {
    if feed.ready {
        FeedReplyView {
            status: 200,
            content_type: "text/plain; charset=utf-8"@,
            body: feed_text(feed.banned),
        }
    } else {
        FeedReplyView {
            status: 503,
            content_type: "text/plain; charset=utf-8"@,
            body: "CrowdSec blacklist has not synced yet\n"@,
        }
    }
}

/// Answers the router. Until there has been a list, the service is unavailable, so that the router
/// keeps what it has.
pub fn remote_group_feed(state: &RemoteGroupState) -> (reply: FeedReply)
    ensures
        reply@ == served(state@),
        state@.ready ==> read_feed(reply.body@) == state@.banned.map_values(
            |net: IpNet| Some(net),
        ),
{
    if !state.is_ready() {
        return FeedReply {
            status: 503,
            content_type: FEED_CONTENT_TYPE,
            body: "CrowdSec blacklist has not synced yet\n".to_owned(),
        };
    }
    FeedReply {
        status: 200,
        content_type: FEED_CONTENT_TYPE,
        body: format_blacklist(state.blacklist()),
    }
}

/// What is served after an attempt to refresh the list: the networks of all active decisions
/// without the trusted addresses, or what was served before if there was no reply.
pub open spec fn after_sync(
    feed: FeedView,
    trusted: Set<Addr>,
    reply: Option<DecisionsResponse>,
) -> FeedView {
    match reply {
        Some(decisions) => FeedView {
            ready: true,
            banned: networks_of(addrs(part_nets(decisions.new)).difference(trusted)),
        },
        None => feed,
    }
}

/// The decisions that a refresh asks for.
pub fn sync_options() -> (options: DecisionsOptions)
    ensures
        options.startup,
        options.origins matches Some(origins) && origins@ == seq![
            Origin::Crowdsec,
            Origin::Lists,
            Origin::Cscli,
        ],
{
    DecisionsOptions::new(default_decision_origins(), true)
}

/// Refreshes the list with the reply, if there was one.
pub fn sync_once<E>(app: &mut RemoteGroupApp, reply: Result<DecisionsResponse, E>) -> (outcome: Result<
    (),
    E,
>)
    ensures
        final(app).spec_trusted() == old(app).spec_trusted(),
        final(app).spec_period() == old(app).spec_period(),
        final(app).spec_state()@ == after_sync(
            old(app).spec_state()@,
            addrs(old(app).spec_trusted()),
            match reply {
                Ok(decisions) => Some(decisions),
                Err(_) => None,
            },
        ),
        match reply {
            Ok(decisions) => outcome is Ok && all_valid(part_nets(decisions.new)),
            Err(err) => outcome == Err::<(), E>(err),
        },
{
    match reply {
        Ok(desired_decisions) => {
            let desired_blacklist = DecisionsIpRange::from(desired_decisions).new.exclude(
                &app.trusted_ips,
            );
            proof {
                lemma_networks_of(desired_blacklist@);
            }
            app.state.store_blacklist(desired_blacklist);
            Ok(())
        },
        Err(err) => Err(err),
    }
}

/// What happens in the loop that keeps the list up to date.
pub enum SyncEvent<E> {
    /// It is time for a refresh.
    Awake,
    /// A refresh ended; the decisions, or the failure.
    Replied(Result<DecisionsResponse, E>),
}

/// What the loop does next.
pub enum SyncAction {
    /// Ask for decisions.
    Stream(DecisionsOptions),
    /// Wait for so many seconds.
    Sleep(u64),
}

/// The loop that keeps the list up to date: each refresh, whether it succeeded or not, is followed
/// by a pause, and each pause by a refresh.
pub fn sync_loop<E>(app: &mut RemoteGroupApp, event: SyncEvent<E>) -> (action: SyncAction)
    ensures
        final(app).spec_trusted() == old(app).spec_trusted(),
        final(app).spec_period() == old(app).spec_period(),
        match event {
            SyncEvent::Awake => final(app).spec_state()@ == old(app).spec_state()@ && (action
                matches SyncAction::Stream(options) && options.startup && (options.origins
                matches Some(origins) && origins@ == seq![
                Origin::Crowdsec,
                Origin::Lists,
                Origin::Cscli,
            ])),
            SyncEvent::Replied(reply) => final(app).spec_state()@ == after_sync(
                old(app).spec_state()@,
                addrs(old(app).spec_trusted()),
                match reply {
                    Ok(decisions) => Some(decisions),
                    Err(_) => None,
                },
            ) && action == SyncAction::Sleep(old(app).spec_period()),
        },
{
    match event {
        SyncEvent::Awake => SyncAction::Stream(sync_options()),
        SyncEvent::Replied(reply) => {
            let _ = sync_once(app, reply);
            SyncAction::Sleep(app.update_period_secs)
        },
    }
}

/// What is served after a series of attempts to refresh the list.
pub open spec fn after_syncs(
    feed: FeedView,
    trusted: Set<Addr>,
    replies: Seq<Option<DecisionsResponse>>,
) -> FeedView
    decreases replies.len(),
{
    if replies.len() == 0 {
        feed
    } else {
        after_sync(after_syncs(feed, trusted, replies.drop_last()), trusted, replies.last())
    }
}

/// As long as no attempt has succeeded, there is no list.
pub proof fn lemma_unready_until_synced(
    feed: FeedView,
    trusted: Set<Addr>,
    replies: Seq<Option<DecisionsResponse>>,
)
    requires
        !feed.ready,
    ensures
        after_syncs(feed, trusted, replies).ready <==> exists|i: int|
            0 <= i < replies.len() && (#[trigger] replies[i]) is Some,
    decreases replies.len(),
{
    if replies.len() > 0 {
        let earlier = replies.drop_last();
        lemma_unready_until_synced(feed, trusted, earlier);
        if replies.last() is Some {
            assert(replies[replies.len() - 1] is Some);
        }
        assert forall|i: int| 0 <= i < earlier.len() implies earlier[i] == #[trigger] replies[i] by {}
        if exists|i: int| 0 <= i < earlier.len() && (#[trigger] earlier[i]) is Some {
            let i = choose|i: int| 0 <= i < earlier.len() && (#[trigger] earlier[i]) is Some;
            assert(replies[i] is Some);
        }
    }
}

/// The list of the last attempt that succeeded is served, however many failed after it.
pub proof fn lemma_last_list_is_kept(
    feed: FeedView,
    trusted: Set<Addr>,
    replies: Seq<Option<DecisionsResponse>>,
    last: int,
)
    requires
        0 <= last < replies.len(),
        replies[last] is Some,
        forall|i: int| last < i < replies.len() ==> (#[trigger] replies[i]) is None,
    ensures
        after_syncs(feed, trusted, replies) == after_sync(feed, trusted, replies[last]),
    decreases replies.len(),
{
    if last < replies.len() - 1 {
        let earlier = replies.drop_last();
        assert forall|i: int| last < i < earlier.len() implies (#[trigger] earlier[i]) is None by {
            assert(replies[i] is None);
        }
        lemma_last_list_is_kept(feed, trusted, earlier, last);
        assert(replies[replies.len() - 1] is None);
    }
}

/// The router is told that the service is unavailable as long as no attempt has succeeded. After
/// that it is given the list of the last attempt that did, however many failed since, as plain text.
pub proof fn lemma_served_after_syncs(
    feed: FeedView,
    trusted: Set<Addr>,
    replies: Seq<Option<DecisionsResponse>>,
)
    requires
        !feed.ready,
    ensures
        ({
            let reply = served(after_syncs(feed, trusted, replies));
            &&& reply.status == 503 <==> forall|i: int|
                0 <= i < replies.len() ==> (#[trigger] replies[i]) is None
            &&& forall|last: int|
                #![trigger replies[last]]
                0 <= last < replies.len() && replies[last] is Some && (forall|i: int|
                    last < i < replies.len() ==> (#[trigger] replies[i]) is None) ==> reply == (
                FeedReplyView {
                    status: 200,
                    content_type: "text/plain; charset=utf-8"@,
                    body: feed_text(
                        networks_of(
                            addrs(part_nets(replies[last]->0.new)).difference(trusted),
                        ),
                    ),
                })
        }),
{
    lemma_unready_until_synced(feed, trusted, replies);
    assert forall|last: int|
        #![trigger replies[last]]
        0 <= last < replies.len() && replies[last] is Some && (forall|i: int|
            last < i < replies.len() ==> (#[trigger] replies[i]) is None) implies after_syncs(
        feed,
        trusted,
        replies,
    ) == after_sync(feed, trusted, replies[last]) by {
        lemma_last_list_is_kept(feed, trusted, replies, last);
    }
}

/// A refresh makes the list cover just the addresses of the active decisions that are not trusted,
/// however many networks that takes.
pub proof fn lemma_list_covers_active(feed: FeedView, trusted: Set<Addr>, decisions: DecisionsResponse)
    requires
        all_valid(part_nets(decisions.new)),
    ensures
        ({
            let after = after_sync(feed, trusted, Some(decisions));
            &&& after.ready
            &&& addrs(after.banned) == addrs(part_nets(decisions.new)).difference(trusted)
            &&& addrs(after.banned).disjoint(trusted)
        }),
{
    lemma_addrs_addressable(part_nets(decisions.new));
    lemma_networks_exist(addrs(part_nets(decisions.new)).difference(trusted));
}

/// The list of two lists of networks after one another is that of the first followed by that of the
/// second; one network makes one line; and none make none.
pub proof fn lemma_feed_text(a: Seq<IpNet>, b: Seq<IpNet>, net: IpNet)
    ensures
        feed_text(Seq::<IpNet>::empty()).len() == 0,
        feed_text(seq![net]) == net_text(net) + "\n"@,
        feed_text(a + b) == feed_text(a) + feed_text(b),
    decreases a.len(),
{
    reveal_with_fuel(feed_text, 2);
    assert(seq![net].drop_first() =~= Seq::<IpNet>::empty());
    assert(feed_text(seq![net]) =~= net_text(net) + "\n"@);
    if a.len() == 0 {
        assert(a + b =~= b);
        assert(feed_text(a) + feed_text(b) =~= feed_text(b));
    } else {
        assert((a + b).drop_first() =~= a.drop_first() + b);
        lemma_feed_text(a.drop_first(), b, net);
        assert(feed_text(a + b) =~= feed_text(a) + feed_text(b));
    }
}

/// What is served after a refresh, told by the decisions of the reply: the list covers an address if
/// and only if an active decision names it and it is not trusted. If there was no reply, what was
/// served before still is.
pub proof fn lemma_refresh_follows_decisions(
    feed: FeedView,
    trusted: Set<Addr>,
    decisions: DecisionsResponse,
)
    requires
        all_valid(part_nets(decisions.new)),
    ensures
        after_sync(feed, trusted, None) == feed,
        ({
            let after = after_sync(feed, trusted, Some(decisions));
            &&& after.ready
            &&& simplified(after.banned)
            &&& forall|a: Addr| #[trigger]
                addrs(after.banned).contains(a) <==> names(decisions.new, a) && !trusted.contains(a)
        }),
{
    lemma_list_covers_active(feed, trusted, decisions);
    lemma_addrs_addressable(part_nets(decisions.new));
    lemma_networks_exist(addrs(part_nets(decisions.new)).difference(trusted));
    let after = after_sync(feed, trusted, Some(decisions));
    assert forall|a: Addr| #[trigger]
        addrs(after.banned).contains(a) <==> names(decisions.new, a) && !trusted.contains(a) by {
        lemma_part_covers(decisions.new, a);
    }
}

/// What is served: before there is a list, that there is none yet; after that, the list; both as
/// plain text.
pub proof fn lemma_replies(feed: FeedView, reply: FeedReply)
    ensures
        !feed.ready ==> served(feed) == (FeedReplyView {
            status: 503,
            content_type: "text/plain; charset=utf-8"@,
            body: "CrowdSec blacklist has not synced yet\n"@,
        }),
        feed.ready ==> served(feed) == (FeedReplyView {
            status: 200,
            content_type: "text/plain; charset=utf-8"@,
            body: feed_text(feed.banned),
        }),
        reply@.status == reply.status,
        reply@.content_type == reply.content_type@,
        reply@.body == reply.body@,
{
}

} // verus!
