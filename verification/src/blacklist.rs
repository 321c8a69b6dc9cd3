//! The set of addresses that the bouncer bans.
use crate::net::{
    addrs, all_valid, covered, lemma_addrs_concat, lemma_families_simplified, lemma_simplified_shortest, of_family,
    simplified, Addr, IpNet,
};
use vstd::prelude::*;

verus! {

/// A set of IPv4 addresses, held by `iprange::IpRange`.
#[verifier::external_body]
pub struct V4Range {
    inner: iprange::IpRange<ipnet::Ipv4Net>,
}

/// The networks that a set of IPv4 addresses holds, in the order in which `iprange` walks them.
pub uninterp spec fn v4_networks(range: V4Range) -> Seq<IpNet>;

/// Gathers networks with the `FromIterator` of `iprange::IpRange`, which adds each and simplifies.
/// The contract claims that the outcome covers the addresses of the networks and no others, and that
/// its own networks are the simplified list of these.
#[verifier::external_body]
fn collect_v4(nets: &Vec<IpNet>) -> (range: V4Range)
    requires
        of_family(nets@, false),
        all_valid(nets@),
    ensures
        simplified(v4_networks(range)),
        of_family(v4_networks(range), false),
        addrs(v4_networks(range)) == addrs(nets@),
{
    let nets = nets.iter().map(|n| ipnet::Ipv4Net::new((n.addr as u32).into(), n.prefix).unwrap());
    V4Range { inner: nets.collect() }
}

/// Lists the networks with `iprange::IpRange::iter`. The contract claims that these are the networks
/// that the set holds.
#[verifier::external_body]
fn list_v4(range: &V4Range) -> (nets: Vec<IpNet>)
    ensures
        nets@ == v4_networks(*range),
{
    let nets = range.inner.iter();
    nets.map(|n| IpNet { v6: false, addr: u32::from(n.addr()).into(), prefix: n.prefix_len() }).collect()
}

/// Joins two sets with `iprange::IpRange::merge`. The contract claims that the outcome covers what
/// either covers, and that its networks are a simplified list.
#[verifier::external_body]
fn merge_v4(a: &V4Range, b: &V4Range) -> (range: V4Range)
    ensures
        simplified(v4_networks(range)),
        of_family(v4_networks(range), false),
        addrs(v4_networks(range)) == addrs(v4_networks(*a)).union(addrs(v4_networks(*b))),
{
    V4Range { inner: a.inner.merge(&b.inner) }
}

/// Intersects two sets with `iprange::IpRange::intersect`. The contract claims that the outcome
/// covers what both cover, and that its networks are a simplified list.
#[verifier::external_body]
fn intersect_v4(a: &V4Range, b: &V4Range) -> (range: V4Range)
    ensures
        simplified(v4_networks(range)),
        of_family(v4_networks(range), false),
        addrs(v4_networks(range)) == addrs(v4_networks(*a)).intersect(addrs(v4_networks(*b))),
{
    V4Range { inner: a.inner.intersect(&b.inner) }
}

/// Takes one set from another with `iprange::IpRange::exclude`. The contract claims that the outcome
/// covers what the first covers and the second does not, and that its networks are a simplified list
/// if those of the first are.
#[verifier::external_body]
fn exclude_v4(a: &V4Range, b: &V4Range) -> (range: V4Range)
    ensures
        simplified(v4_networks(*a)) ==> simplified(v4_networks(range)),
        of_family(v4_networks(range), false),
        addrs(v4_networks(range)) == addrs(v4_networks(*a)).difference(addrs(v4_networks(*b))),
{
    V4Range { inner: a.inner.exclude(&b.inner) }
}

/// A set of IPv6 addresses, held by `iprange::IpRange`.
#[verifier::external_body]
pub struct V6Range {
    inner: iprange::IpRange<ipnet::Ipv6Net>,
}

/// The networks that a set of IPv6 addresses holds, in the order in which `iprange` walks them.
pub uninterp spec fn v6_networks(range: V6Range) -> Seq<IpNet>;

/// Gathers networks with the `FromIterator` of `iprange::IpRange`, which adds each and simplifies.
/// The contract claims that the outcome covers the addresses of the networks and no others, and that
/// its own networks are the simplified list of these.
#[verifier::external_body]
fn collect_v6(nets: &Vec<IpNet>) -> (range: V6Range)
    requires
        of_family(nets@, true),
        all_valid(nets@),
    ensures
        simplified(v6_networks(range)),
        of_family(v6_networks(range), true),
        addrs(v6_networks(range)) == addrs(nets@),
{
    let nets = nets.iter().map(|n| ipnet::Ipv6Net::new(n.addr.into(), n.prefix).unwrap());
    V6Range { inner: nets.collect() }
}

/// Lists the networks with `iprange::IpRange::iter`. The contract claims that these are the networks
/// that the set holds.
#[verifier::external_body]
fn list_v6(range: &V6Range) -> (nets: Vec<IpNet>)
    ensures
        nets@ == v6_networks(*range),
{
    let nets = range.inner.iter();
    nets.map(|n| IpNet { v6: true, addr: n.addr().into(), prefix: n.prefix_len() }).collect()
}

/// Joins two sets with `iprange::IpRange::merge`. The contract claims that the outcome covers what
/// either covers, and that its networks are a simplified list.
#[verifier::external_body]
fn merge_v6(a: &V6Range, b: &V6Range) -> (range: V6Range)
    ensures
        simplified(v6_networks(range)),
        of_family(v6_networks(range), true),
        addrs(v6_networks(range)) == addrs(v6_networks(*a)).union(addrs(v6_networks(*b))),
{
    V6Range { inner: a.inner.merge(&b.inner) }
}

/// Intersects two sets with `iprange::IpRange::intersect`. The contract claims that the outcome
/// covers what both cover, and that its networks are a simplified list.
#[verifier::external_body]
fn intersect_v6(a: &V6Range, b: &V6Range) -> (range: V6Range)
    ensures
        simplified(v6_networks(range)),
        of_family(v6_networks(range), true),
        addrs(v6_networks(range)) == addrs(v6_networks(*a)).intersect(addrs(v6_networks(*b))),
{
    V6Range { inner: a.inner.intersect(&b.inner) }
}

/// Takes one set from another with `iprange::IpRange::exclude`. The contract claims that the outcome
/// covers what the first covers and the second does not, and that its networks are a simplified list
/// if those of the first are.
#[verifier::external_body]
fn exclude_v6(a: &V6Range, b: &V6Range) -> (range: V6Range)
    ensures
        simplified(v6_networks(*a)) ==> simplified(v6_networks(range)),
        of_family(v6_networks(range), true),
        addrs(v6_networks(range)) == addrs(v6_networks(*a)).difference(addrs(v6_networks(*b))),
{
    V6Range { inner: a.inner.exclude(&b.inner) }
}

/// A set of IPv4 and IPv6 addresses.
///
/// Its view is the list of its networks: the simplified list of the addresses that it covers.
pub struct IpRangeMixed {
    v4: V4Range,
    v6: V6Range,
}

impl View for IpRangeMixed {
    type V = Seq<IpNet>;

    closed spec fn view(&self) -> Seq<IpNet> {
        v4_networks(self.v4) + v6_networks(self.v6)
    }
}

impl Default for IpRangeMixed {
    /// The empty set.
    fn default() -> (range: Self)
        ensures
            range@ == Seq::<IpNet>::empty(),
    {
        let none: Vec<IpNet> = Vec::new();
        let range = IpRangeMixed { v4: collect_v4(&none), v6: collect_v6(&none) };
        proof {
            lemma_empty_list(v4_networks(range.v4));
            lemma_empty_list(v6_networks(range.v6));
        }
        range
    }
}

impl IpRangeMixed {
    #[verifier::type_invariant]
    closed spec fn inv(self) -> bool {
        &&& simplified(v4_networks(self.v4))
        &&& simplified(v6_networks(self.v6))
        &&& of_family(v4_networks(self.v4), false)
        &&& of_family(v6_networks(self.v6), true)
    }

    proof fn lemma_view(self)
        requires
            self.inv(),
        ensures
            simplified(self@),
            addrs(self@) == addrs(v4_networks(self.v4)).union(addrs(v6_networks(self.v6))),
            forall|a: Addr|
                #![trigger addrs(v4_networks(self.v4)).contains(a)]
                addrs(v4_networks(self.v4)).contains(a) ==> !a.0,
            forall|a: Addr|
                #![trigger addrs(v6_networks(self.v6)).contains(a)]
                addrs(v6_networks(self.v6)).contains(a) ==> a.0,
    {
        lemma_families_simplified(v4_networks(self.v4), v6_networks(self.v6));
        lemma_addrs_concat(v4_networks(self.v4), v6_networks(self.v6));
    }

    /// The set of the addresses that the networks cover.
    pub fn from(nets: Vec<IpNet>) -> (range: IpRangeMixed)
        ensures
            simplified(range@),
            addrs(range@) == addrs(nets@),
    {
        let mut v4: Vec<IpNet> = Vec::new();
        let mut v6: Vec<IpNet> = Vec::new();
        let mut i: usize = 0;
        while i < nets.len()
            invariant
                i <= nets@.len(),
                of_family(v4@, false),
                of_family(v6@, true),
                all_valid(v4@),
                all_valid(v6@),
                addrs(v4@).union(addrs(v6@)) == addrs(nets@.take(i as int)),
            decreases nets.len() - i,
        {
            let net = nets[i];
            let ghost head = nets@.take(i as int);
            let ghost one = seq![net];
            proof {
                use_type_invariant(&net);
                lemma_addrs_concat(head, one);
                lemma_addrs_concat(v4@, one);
                lemma_addrs_concat(v6@, one);
                assert(nets@.take(i + 1) =~= head + one);
                assert(v4@.push(net) =~= v4@ + one);
                assert(v6@.push(net) =~= v6@ + one);
            }
            let ghost before = addrs(v4@).union(addrs(v6@)).union(addrs(one));
            if net.is_ipv6() {
                proof {
                    assert(addrs(v4@).union(addrs(v6@ + one)) =~= before);
                }
                v6.push(net);
            } else {
                proof {
                    assert(addrs(v4@ + one).union(addrs(v6@)) =~= before);
                }
                v4.push(net);
            }
            i = i + 1;
        }
        assert(nets@.take(i as int) =~= nets@);
        let range = IpRangeMixed { v4: collect_v4(&v4), v6: collect_v6(&v6) };
        proof {
            range.lemma_view();
        }
        range
    }

    /// The networks of the set: its simplified list.
    pub fn into_nets(&self) -> (nets: Vec<IpNet>)
        ensures
            nets@ == self@,
            simplified(nets@),
    {
        proof {
            use_type_invariant(self);
            self.lemma_view();
        }
        let mut nets = list_v4(&self.v4);
        let mut v6 = list_v6(&self.v6);
        nets.append(&mut v6);
        nets
    }

    /// The number of networks of the set.
    pub fn net_count(&self) -> (count: usize)
        ensures
            count == self@.len(),
    {
        self.into_nets().len()
    }

    /// Whether the set covers no address.
    pub fn is_empty(&self) -> (empty: bool)
        ensures
            empty == (self@.len() == 0),
            empty == (addrs(self@) == Set::<Addr>::empty()),
    {
        let empty = self.net_count() == 0;
        proof {
            if self@.len() == 0 {
                assert(addrs(self@) =~= Set::<Addr>::empty());
            } else {
                let n = self@[0];
                let a: Addr = (n.is_v6(), n.address());
                assert(n.covers(a));
                assert(covered(self@, a));
                assert(addrs(self@).contains(a));
            }
        }
        empty
    }

    /// The addresses that either set covers.
    pub fn merge(&self, other: &IpRangeMixed) -> (range: IpRangeMixed)
        ensures
            simplified(range@),
            addrs(range@) == addrs(self@).union(addrs(other@)),
            range@.len() <= self@.len() + other@.len(),
    {
        proof {
            use_type_invariant(self);
            use_type_invariant(other);
            self.lemma_view();
            other.lemma_view();
        }
        let range = IpRangeMixed {
            v4: merge_v4(&self.v4, &other.v4),
            v6: merge_v6(&self.v6, &other.v6),
        };
        proof {
            range.lemma_view();
            assert(addrs(range@) =~= addrs(self@).union(addrs(other@)));
            lemma_addrs_concat(self@, other@);
            lemma_simplified_shortest(range@, self@ + other@);
        }
        range
    }

    /// The addresses that both sets cover.
    pub fn intersect(&self, other: &IpRangeMixed) -> (range: IpRangeMixed)
        ensures
            simplified(range@),
            addrs(range@) == addrs(self@).intersect(addrs(other@)),
    {
        proof {
            use_type_invariant(self);
            use_type_invariant(other);
            self.lemma_view();
            other.lemma_view();
        }
        let range = IpRangeMixed {
            v4: intersect_v4(&self.v4, &other.v4),
            v6: intersect_v6(&self.v6, &other.v6),
        };
        proof {
            range.lemma_view();
            assert(addrs(range@) =~= addrs(self@).intersect(addrs(other@)));
        }
        range
    }

    /// The addresses that this set covers and the other does not.
    pub fn exclude(&self, other: &IpRangeMixed) -> (range: IpRangeMixed)
        ensures
            simplified(range@),
            addrs(range@) == addrs(self@).difference(addrs(other@)),
    {
        proof {
            use_type_invariant(self);
            use_type_invariant(other);
            self.lemma_view();
            other.lemma_view();
        }
        let range = IpRangeMixed {
            v4: exclude_v4(&self.v4, &other.v4),
            v6: exclude_v6(&self.v6, &other.v6),
        };
        proof {
            range.lemma_view();
            assert(addrs(range@) =~= addrs(self@).difference(addrs(other@)));
        }
        range
    }
}

/// A list that covers no address is empty.
proof fn lemma_empty_list(nets: Seq<IpNet>)
    requires
        addrs(nets) == addrs(Seq::<IpNet>::empty()),
    ensures
        nets == Seq::<IpNet>::empty(),
{
    if nets.len() > 0 {
        let n = nets[0];
        let a: Addr = (n.is_v6(), n.address());
        assert(n.covers(a));
        assert(covered(nets, a));
        assert(addrs(nets).contains(a));
    }
    assert(nets =~= Seq::<IpNet>::empty());
}

} // verus!
