//! IP networks, and lists of networks as sets of addresses.
use vstd::arithmetic::div_mod::{lemma_div_denominator, lemma_fundamental_div_mod};
use vstd::arithmetic::power2::{lemma2_to64, lemma_pow2_adds, lemma_pow2_pos, pow2};
use vstd::prelude::*;
use vstd::relations::injective_on;
use vstd::set_lib::{
    lemma_int_range, lemma_len_subset, lemma_map_size, lemma_set_subset_finite, set_int_range,
};

verus! {

/// An address of either family: whether it is IPv6, and its value.
pub type Addr = (bool, nat);

/// An IPv4 or IPv6 network in CIDR form: an address and a prefix length.
///
/// The address may have bits set beyond the prefix. Two networks are equal if they are of one
/// family and agree in the address, those bits included, and in the prefix length.
#[derive(Clone, Copy, Debug, PartialEq, Eq, Hash, Structural)]
pub struct IpNet {
    pub(crate) v6: bool,
    pub(crate) addr: u128,
    pub(crate) prefix: u8,
}

impl IpNet {
    /// Whether this is an IPv6 network.
    pub closed spec fn is_v6(self) -> bool {
        self.v6
    }

    /// The address that the network was written with.
    pub closed spec fn address(self) -> nat {
        self.addr as nat
    }

    /// The length of the prefix, in bits.
    pub closed spec fn prefix_len(self) -> nat {
        self.prefix as nat
    }

    /// The length of an address of the network's family, in bits.
    pub open spec fn width(self) -> nat {
        if self.is_v6() {
            128
        } else {
            32
        }
    }

    /// The number of bits after the prefix.
    pub open spec fn host_bits(self) -> nat {
        (self.width() - self.prefix_len()) as nat
    }

    /// Whether address and prefix length fit the family. It holds of every network that the
    /// functions of this crate hand out.
    #[verifier::type_invariant]
    pub open spec fn valid(self) -> bool {
        &&& self.prefix_len() <= self.width()
        &&& self.address() < pow2(self.width())
    }

    /// Whether no bit beyond the prefix is set.
    pub open spec fn truncated(self) -> bool {
        self.address() % pow2(self.host_bits()) == 0
    }

    /// Whether the address lies in the network.
    pub open spec fn covers(self, a: Addr) -> bool {
        in_block(self.is_v6(), self.address(), self.host_bits(), a)
    }

    /// Whether the address lies in the next larger network around this one.
    pub open spec fn parent_covers(self, a: Addr) -> bool {
        in_block(self.is_v6(), self.address(), self.host_bits() + 1, a)
    }

    /// The order in which lists of networks are kept: IPv4 before IPv6, short prefixes before long
    /// ones, then by address.
    pub open spec fn precedes(self, other: IpNet) -> bool {
        ||| !self.is_v6() && other.is_v6()
        ||| self.is_v6() == other.is_v6() && (self.prefix_len() < other.prefix_len() || (
        self.prefix_len() == other.prefix_len() && self.address() < other.address()))
    }
}

/// What `ipnet::IpNet` reads from a text in CIDR form: the network, if the text is one.
pub uninterp spec fn parsed_net(text: Seq<char>) -> Option<IpNet>;

/// What std reads from the text of a single IPv4 or IPv6 address, as the network that holds just
/// that address.
pub uninterp spec fn parsed_host(text: Seq<char>) -> Option<IpNet>;

/// How `ipnet::Ipv6Net` writes an IPv6 network.
pub uninterp spec fn v6_text(net: IpNet) -> Seq<char>;

/// A network in CIDR form.
pub open spec fn net_text(net: IpNet) -> Seq<char> {
    if net.is_v6() {
        v6_text(net)
    } else {
        dotted(net.address(), net.prefix_len())
    }
}

/// The decimal digits of a number.
pub open spec fn decimal(n: nat) -> Seq<char>
    decreases n,
{
    let digit = ('0' as nat + n % 10) as char;
    if n < 10 {
        seq![digit]
    } else {
        decimal(n / 10).push(digit)
    }
}

/// An IPv4 network in dotted decimal form, with its prefix length.
pub open spec fn dotted(address: nat, prefix_len: nat) -> Seq<char> {
    decimal(address / 0x100_0000).push('.') + decimal(address / 0x1_0000 % 0x100).push('.')
        + decimal(address / 0x100 % 0x100).push('.') + decimal(address % 0x100).push('/') + decimal(
        prefix_len,
    )
}

/// Reads a network in CIDR form with the `FromStr` of `ipnet::IpNet`, which keeps the address as it
/// is written. The contract claims that the outcome depends on the text alone, and that address and
/// prefix length fit the family.
#[verifier::external_body]
fn parse_net(text: &str) -> (net: Option<IpNet>)
    ensures
        net == parsed_net(text@),
        net matches Some(n) ==> n.valid(),
{
    Some(match text.parse::<ipnet::IpNet>().ok()? {
        ipnet::IpNet::V4(n) => IpNet {
            v6: false,
            addr: u32::from(n.addr()).into(),
            prefix: n.prefix_len(),
        },
        ipnet::IpNet::V6(n) => IpNet { v6: true, addr: n.addr().into(), prefix: n.prefix_len() },
    })
}

/// Reads a single address with the `FromStr` of std's `IpAddr`, which the argument of
/// `ipnet::IpNet::new` selects, and takes the prefix length of the whole address from `ipnet`'s
/// `max_prefix_len`. The contract claims that the outcome depends on the text alone, and
/// that a network it gives is one address wide.
#[verifier::external_body]
fn parse_host(text: &str) -> (net: Option<IpNet>)
    ensures
        net == parsed_host(text@),
        net matches Some(n) ==> n.valid() && n.prefix_len() == n.width(),
{
    Some(match ipnet::IpNet::new(text.parse().ok()?, 0).ok()? {
        ipnet::IpNet::V4(n) => IpNet {
            v6: false,
            addr: u32::from(n.addr()).into(),
            prefix: n.max_prefix_len(),
        },
        ipnet::IpNet::V6(n) => IpNet { v6: true, addr: n.addr().into(), prefix: n.max_prefix_len() },
    })
}

/// Writes an IPv4 network with the `Display` of `ipnet::Ipv4Net`. The contract claims that the text
/// is the dotted decimal form, and that `ipnet::IpNet` reads the network back from it.
#[verifier::external_body]
fn format_v4(net: &IpNet) -> (text: String)
    requires
        net.valid(),
        !net.is_v6(),
    ensures
        text@ == dotted(net.address(), net.prefix_len()),
        parsed_net(text@) == Some(*net),
{
    ipnet::Ipv4Net::new((net.addr as u32).into(), net.prefix).unwrap().to_string()
}

/// Writes an IPv6 network with the `Display` of `ipnet::Ipv6Net`. The contract claims that the text
/// depends on the network alone, holds no line break, and that `ipnet::IpNet` reads the network back
/// from it.
#[verifier::external_body]
fn format_v6(net: &IpNet) -> (text: String)
    requires
        net.valid(),
        net.is_v6(),
    ensures
        text@ == v6_text(*net),
        parsed_net(text@) == Some(*net),
        !text@.contains('\n'),
{
    ipnet::Ipv6Net::new(net.addr.into(), net.prefix).unwrap().to_string()
}

impl IpNet {
    /// Reads a network in CIDR form, such as `203.0.113.0/24` or `2001:db8::/64`.
    pub fn parse(text: &str) -> (net: Option<IpNet>)
        ensures
            net == parsed_net(text@),
            net matches Some(n) ==> n.valid(),
    {
        parse_net(text)
    }

    /// Reads a single address, as the network that holds just that address.
    pub fn parse_host(text: &str) -> (net: Option<IpNet>)
        ensures
            net == parsed_host(text@),
            net matches Some(n) ==> n.valid() && n.prefix_len() == n.width(),
    {
        parse_host(text)
    }

    /// Whether this is an IPv6 network.
    pub fn is_ipv6(&self) -> (v6: bool)
        ensures
            v6 == self.is_v6(),
    {
        self.v6
    }

    /// Whether this network comes before the other in the order in which lists are kept.
    pub fn is_before(&self, other: &IpNet) -> (before: bool)
        ensures
            before == self.precedes(*other),
    {
        if self.v6 != other.v6 {
            other.v6
        } else if self.prefix != other.prefix {
            self.prefix < other.prefix
        } else {
            self.addr < other.addr
        }
    }

    /// The network in CIDR form. Reading the text gives the network back.
    pub fn to_string(&self) -> (text: String)
        ensures
            text@ == net_text(*self),
            parsed_net(text@) == Some(*self),
            !text@.contains('\n'),
    {
        proof {
            use_type_invariant(self);
        }
        if self.v6 {
            format_v6(self)
        } else {
            proof {
                lemma_dotted_one_line(self.address(), self.prefix_len());
            }
            format_v4(self)
        }
    }
}

proof fn lemma_decimal_one_line(n: nat)
    ensures
        !decimal(n).contains('\n'),
    decreases n,
{
    if n >= 10 {
        lemma_decimal_one_line(n / 10);
        assert forall|i: int| 0 <= i < decimal(n).len() implies decimal(n)[i] != '\n' by {
            if i < decimal(n / 10).len() {
                assert(decimal(n)[i] == decimal(n / 10)[i]);
                assert(decimal(n / 10).contains(decimal(n / 10)[i]));
            }
        }
    }
}

proof fn lemma_dotted_one_line(address: nat, prefix_len: nat)
    ensures
        !dotted(address, prefix_len).contains('\n'),
{
    let a = decimal(address / 0x100_0000);
    let b = decimal(address / 0x1_0000 % 0x100);
    let c = decimal(address / 0x100 % 0x100);
    let d = decimal(address % 0x100);
    let e = decimal(prefix_len);
    lemma_decimal_one_line(address / 0x100_0000);
    lemma_decimal_one_line(address / 0x1_0000 % 0x100);
    lemma_decimal_one_line(address / 0x100 % 0x100);
    lemma_decimal_one_line(address % 0x100);
    lemma_decimal_one_line(prefix_len);
    lemma_one_line_concat(a.push('.'), b.push('.'));
    lemma_one_line_concat(a.push('.') + b.push('.'), c.push('.'));
    lemma_one_line_concat(a.push('.') + b.push('.') + c.push('.'), d.push('/'));
    lemma_one_line_concat(a.push('.') + b.push('.') + c.push('.') + d.push('/'), e);
}

proof fn lemma_one_line_concat(a: Seq<char>, b: Seq<char>)
    ensures
        (a + b).contains('\n') <==> a.contains('\n') || b.contains('\n'),
{
    if (a + b).contains('\n') {
        let i = choose|i: int| 0 <= i < (a + b).len() && (a + b)[i] == '\n';
        if i < a.len() {
            assert(a[i] == '\n');
        } else {
            assert(b[i - a.len()] == '\n');
        }
    }
    if a.contains('\n') {
        let i = choose|i: int| 0 <= i < a.len() && a[i] == '\n';
        assert((a + b)[i] == '\n');
    }
    if b.contains('\n') {
        let i = choose|i: int| 0 <= i < b.len() && b[i] == '\n';
        assert((a + b)[a.len() + i] == '\n');
    }
}

/// Whether the address `a` is of the given family and agrees with `base` in all but the last `bits`
/// bits.
pub open spec fn in_block(v6: bool, base: nat, bits: nat, a: Addr) -> bool {
    a.0 == v6 && a.1 / pow2(bits) == base / pow2(bits)
}

/// The addresses that the networks cover together.
pub open spec fn addrs(nets: Seq<IpNet>) -> Set<Addr> {
    Set::new(|a: Addr| covered(nets, a))
}

/// Whether some network of the list covers the address.
pub open spec fn covered(nets: Seq<IpNet>, a: Addr) -> bool {
    exists|i: int| 0 <= i < nets.len() && (#[trigger] nets[i]).covers(a)
}

/// Whether every network of the list fits its family.
pub open spec fn all_valid(nets: Seq<IpNet>) -> bool {
    forall|i: int| 0 <= i < nets.len() ==> (#[trigger] nets[i]).valid()
}

/// Whether each network of the list precedes all that come later in it.
pub open spec fn ordered(nets: Seq<IpNet>) -> bool {
    forall|i: int, j: int|
        0 <= i < j < nets.len() ==> (#[trigger] nets[i]).precedes(#[trigger] nets[j])
}

/// Whether the network cannot be widened without covering an address that the list does not.
pub open spec fn maximal(n: IpNet, nets: Seq<IpNet>) -> bool {
    n.prefix_len() > 0 ==> exists|a: Addr| #[trigger] n.parent_covers(a) && !covered(nets, a)
}

/// Whether the list is the simplest one for the addresses that it covers: ordered, with no bits set
/// beyond a prefix, and with no network that could be joined to others to make a larger one.
pub open spec fn simplified(nets: Seq<IpNet>) -> bool {
    &&& ordered(nets)
    &&& forall|i: int|
        0 <= i < nets.len() ==> (#[trigger] nets[i]).valid() && nets[i].truncated() && maximal(
            nets[i],
            nets,
        )
}

/// Networks agree if their family, address and prefix length do.
proof fn lemma_net_ext(a: IpNet, b: IpNet)
    requires
        a.is_v6() == b.is_v6(),
        a.address() == b.address(),
        a.prefix_len() == b.prefix_len(),
    ensures
        a == b,
{
}

/// Of two networks that differ, one precedes the other.
pub proof fn lemma_order_total(a: IpNet, b: IpNet)
    ensures
        a == b || a.precedes(b) || b.precedes(a),
{
}

/// Any family, address and prefix length that fit together make a network.
pub proof fn lemma_net_exists(v6: bool, address: nat, prefix_len: nat) -> (net: IpNet)
    requires
        prefix_len <= (if v6 {
            128nat
        } else {
            32
        }),
        address < pow2(
            if v6 {
                128
            } else {
                32
            },
        ),
    ensures
        net.is_v6() == v6,
        net.address() == address,
        net.prefix_len() == prefix_len,
{
    lemma2_to64();
    lemma_pow2_adds(64, 64);
    assert(pow2(128) == u128::MAX + 1);
    IpNet { v6, addr: address as u128, prefix: prefix_len as u8 }
}

spec fn net_code(net: IpNet) -> int {
    let family: int = if net.v6 {
        256
    } else {
        0
    };
    (family + net.prefix) * (u128::MAX + 1) + net.addr
}

spec fn net_of_code(code: int) -> IpNet {
    let head = code / (u128::MAX + 1);
    IpNet {
        v6: head >= 256,
        addr: (code % (u128::MAX + 1)) as u128,
        prefix: (head % 256) as u8,
    }
}

/// There are only so many networks.
pub proof fn lemma_nets_finite(nets: Set<IpNet>)
    ensures
        nets.finite(),
{
    let bound = 512 * (u128::MAX + 1);
    let codes = set_int_range(0, bound);
    lemma_int_range(0, bound);
    codes.lemma_map_finite(|code: int| net_of_code(code));
    let all = codes.map(|code: int| net_of_code(code));
    assert forall|net: IpNet| nets.contains(net) implies all.contains(net) by {
        let code = net_code(net);
        assert(codes.contains(code));
        assert(net_of_code(code) == net);
    }
    lemma_set_subset_finite(all, nets);
}

/// Where the network stands in an ordered list, if it is there.
pub(crate) fn position(list: &Vec<IpNet>, net: &IpNet) -> (found: Option<usize>)
    requires
        ordered(list@),
    ensures
        found matches Some(i) ==> i < list@.len() && list@[i as int] == *net,
        found is None ==> !list@.contains(*net),
{
    let mut low: usize = 0;
    let mut high: usize = list.len();
    while low < high
        invariant
            low <= high <= list@.len(),
            ordered(list@),
            forall|i: int| 0 <= i < low ==> (#[trigger] list@[i]).precedes(*net),
            forall|i: int| high <= i < list@.len() ==> net.precedes(#[trigger] list@[i]),
        decreases high - low,
    {
        let mid: usize = low + (high - low) / 2;
        if list[mid].is_before(net) {
            low = mid + 1;
        } else if net.is_before(&list[mid]) {
            high = mid;
        } else {
            proof {
                lemma_net_ext(list@[mid as int], *net);
            }
            return Some(mid);
        }
    }
    None
}

/// A smaller block that shares an address with a larger one lies in it.
pub proof fn lemma_block_nests(v6: bool, base: nat, bits: nat, more: nat, a: Addr, b: Addr)
    requires
        bits <= more,
        in_block(v6, base, bits, a),
        in_block(v6, base, bits, b),
    ensures
        in_block(v6, base, more, a),
        in_block(v6, a.1, more, b),
{
    let rest = (more - bits) as nat;
    lemma_pow2_pos(bits);
    lemma_pow2_pos(rest);
    lemma_pow2_adds(bits, rest);
    lemma_div_denominator(a.1 as int, pow2(bits) as int, pow2(rest) as int);
    lemma_div_denominator(b.1 as int, pow2(bits) as int, pow2(rest) as int);
    lemma_div_denominator(base as int, pow2(bits) as int, pow2(rest) as int);
}

/// The address of a network lies in it.
pub proof fn lemma_covers_own_address(n: IpNet)
    ensures
        n.covers((n.is_v6(), n.address())),
{
}

/// If two networks share an address, and the first has the longer prefix, then the parent of the
/// first lies in the second.
proof fn lemma_parent_inside(n: IpNet, m: IpNet, shared: Addr, a: Addr)
    requires
        n.host_bits() < m.host_bits(),
        n.covers(shared),
        m.covers(shared),
        n.parent_covers(a),
    ensures
        m.covers(a),
{
    let p = n.host_bits() + 1;
    let own: Addr = (n.is_v6(), n.address());
    lemma_block_nests(n.is_v6(), n.address(), n.host_bits(), p, shared, own);
    lemma_block_nests(n.is_v6(), n.address(), p, m.host_bits(), shared, a);
}

/// Two networks of the same size that share an address cover the same addresses.
proof fn lemma_same_block(n: IpNet, m: IpNet, shared: Addr)
    requires
        n.host_bits() == m.host_bits(),
        n.valid(),
        m.valid(),
        n.truncated(),
        m.truncated(),
        n.covers(shared),
        m.covers(shared),
    ensures
        n == m,
{
    let s = pow2(n.host_bits()) as int;
    lemma_pow2_pos(n.host_bits());
    lemma_fundamental_div_mod(n.address() as int, s);
    lemma_fundamental_div_mod(m.address() as int, s);
    lemma_net_ext(n, m);
}

/// A network that covers an address which a simplified list covers, and that covers nothing that
/// the list does not, is inside the network of the list that covers the address.
proof fn lemma_not_wider(list: Seq<IpNet>, i: int, m: IpNet, shared: Addr)
    requires
        simplified(list),
        0 <= i < list.len(),
        m.valid(),
        list[i].covers(shared),
        m.covers(shared),
        forall|a: Addr| #[trigger] m.covers(a) ==> covered(list, a),
    ensures
        m.host_bits() <= list[i].host_bits(),
{
    let n = list[i];
    if n.host_bits() < m.host_bits() {
        let a = choose|a: Addr| #[trigger] n.parent_covers(a) && !covered(list, a);
        lemma_parent_inside(n, m, shared, a);
    }
}

/// The networks of a simplified list share no address.
pub proof fn lemma_simplified_disjoint(list: Seq<IpNet>, i: int, j: int, a: Addr)
    requires
        simplified(list),
        0 <= i < list.len(),
        0 <= j < list.len(),
        list[i].covers(a),
        list[j].covers(a),
    ensures
        i == j,
{
    lemma_not_wider(list, i, list[j], a);
    lemma_not_wider(list, j, list[i], a);
    lemma_same_block(list[i], list[j], a);
    if i < j {
        assert(list[i].precedes(list[j]));
    } else if j < i {
        assert(list[j].precedes(list[i]));
    }
}

/// Of two simplified lists that cover the same addresses, each holds the networks of the other.
proof fn lemma_same_members(a: Seq<IpNet>, b: Seq<IpNet>, i: int) -> (j: int)
    requires
        simplified(a),
        simplified(b),
        addrs(a) == addrs(b),
        0 <= i < a.len(),
    ensures
        0 <= j < b.len(),
        b[j] == a[i],
{
    let n = a[i];
    let own: Addr = (n.is_v6(), n.address());
    lemma_covers_own_address(n);
    assert(covered(a, own));
    assert(addrs(a).contains(own));
    let j = choose|j: int| 0 <= j < b.len() && (#[trigger] b[j]).covers(own);
    assert forall|x: Addr| #[trigger] n.covers(x) implies covered(b, x) by {
        assert(covered(a, x));
        assert(addrs(a).contains(x));
    }
    assert forall|x: Addr| #[trigger] b[j].covers(x) implies covered(a, x) by {
        assert(covered(b, x));
        assert(addrs(b).contains(x));
    }
    lemma_not_wider(b, j, n, own);
    lemma_not_wider(a, i, b[j], own);
    lemma_same_block(n, b[j], own);
    j
}

/// Two ordered lists with the same members are equal.
proof fn lemma_ordered_unique(a: Seq<IpNet>, b: Seq<IpNet>)
    requires
        ordered(a),
        ordered(b),
        forall|i: int| 0 <= i < a.len() ==> b.contains(#[trigger] a[i]),
        forall|i: int| 0 <= i < b.len() ==> a.contains(#[trigger] b[i]),
    ensures
        a == b,
    decreases a.len(),
{
    if a.len() == 0 {
        if b.len() > 0 {
            assert(a.contains(b[0]));
        }
        assert(a =~= b);
    } else {
        assert(b.contains(a[0]));
        let x = a.last();
        let j = choose|j: int| 0 <= j < b.len() && b[j] == x;
        assert(b.contains(a[a.len() - 1]));
        assert(0 <= j < b.len() && b[j] == x);
        if j < b.len() - 1 {
            let y = b.last();
            assert(a.contains(b[b.len() - 1]));
            let k = choose|k: int| 0 <= k < a.len() && a[k] == y;
            assert(b[j].precedes(b[b.len() - 1]));
            if k < a.len() - 1 {
                assert(a[k].precedes(a[a.len() - 1]));
            }
            assert(false);
        }
        let a1 = a.drop_last();
        let b1 = b.drop_last();
        assert forall|i: int| 0 <= i < a1.len() implies b1.contains(#[trigger] a1[i]) by {
            assert(b.contains(a[i]));
            let k = choose|k: int| 0 <= k < b.len() && b[k] == a[i];
            assert(a[i].precedes(a[a.len() - 1]));
            assert(k != b.len() - 1);
            assert(b1[k] == a1[i]);
        }
        assert forall|i: int| 0 <= i < b1.len() implies a1.contains(#[trigger] b1[i]) by {
            assert(a.contains(b[i]));
            let k = choose|k: int| 0 <= k < a.len() && a[k] == b[i];
            assert(b[i].precedes(b[b.len() - 1]));
            assert(k != a.len() - 1);
            assert(a1[k] == b1[i]);
        }
        lemma_ordered_unique(a1, b1);
        assert(a =~= a1.push(x));
        assert(b =~= b1.push(x));
    }
}

/// The simplified list of a set of addresses is unique.
pub proof fn lemma_simplified_unique(a: Seq<IpNet>, b: Seq<IpNet>)
    requires
        simplified(a),
        simplified(b),
        addrs(a) == addrs(b),
    ensures
        a == b,
{
    assert forall|i: int| 0 <= i < a.len() implies b.contains(#[trigger] a[i]) by {
        let j = lemma_same_members(a, b, i);
    }
    assert forall|i: int| 0 <= i < b.len() implies a.contains(#[trigger] b[i]) by {
        let j = lemma_same_members(b, a, i);
    }
    lemma_ordered_unique(a, b);
}

/// The simplified list of networks that covers just these addresses.
pub open spec fn networks_of(set: Set<Addr>) -> Seq<IpNet> {
    choose|nets: Seq<IpNet>| simplified(nets) && #[trigger] addrs(nets) == set
}

/// A simplified list is that of the addresses that it covers.
pub proof fn lemma_networks_of(nets: Seq<IpNet>)
    requires
        simplified(nets),
    ensures
        networks_of(addrs(nets)) == nets,
{
    lemma_simplified_unique(networks_of(addrs(nets)), nets);
}

/// The first networks of a simplified list are a simplified list themselves.
pub proof fn lemma_take_simplified(nets: Seq<IpNet>, n: int)
    requires
        simplified(nets),
        0 <= n <= nets.len(),
    ensures
        simplified(nets.take(n)),
        addrs(nets.take(n)).subset_of(addrs(nets)),
{
    let head = nets.take(n);
    assert forall|a: Addr| covered(head, a) implies covered(nets, a) by {
        let i = choose|i: int| 0 <= i < head.len() && (#[trigger] head[i]).covers(a);
        assert(nets[i].covers(a));
    }
    assert forall|i: int| 0 <= i < head.len() implies maximal(#[trigger] head[i], head) by {
        assert(maximal(nets[i], nets));
        if head[i].prefix_len() > 0 {
            let a = choose|a: Addr| #[trigger] nets[i].parent_covers(a) && !covered(nets, a);
            assert(head[i].parent_covers(a) && !covered(head, a));
        }
    }
}

/// No list of networks that covers the same addresses is shorter than the simplified one.
pub proof fn lemma_simplified_shortest(list: Seq<IpNet>, other: Seq<IpNet>)
    requires
        simplified(list),
        all_valid(other),
        addrs(list) == addrs(other),
    ensures
        list.len() <= other.len(),
{
    let own = |i: int| (list[i].is_v6(), list[i].address());
    let f = |i: int| choose|j: int| 0 <= j < other.len() && (#[trigger] other[j]).covers(own(i));
    assert forall|i: int| 0 <= i < list.len() implies 0 <= #[trigger] f(i) < other.len()
        && other[f(i)].covers(own(i)) && other[f(i)].host_bits() <= list[i].host_bits() by {
        lemma_covers_own_address(list[i]);
        assert(covered(list, own(i)));
        assert(addrs(list).contains(own(i)));
        assert(covered(other, own(i)));
        let m = other[f(i)];
        assert forall|x: Addr| #[trigger] m.covers(x) implies covered(list, x) by {
            assert(covered(other, x));
            assert(addrs(other).contains(x));
        }
        lemma_not_wider(list, i, m, own(i));
    }
    let dom = set_int_range(0, list.len() as int);
    assert(injective_on(f, dom)) by {
        assert forall|i: int, k: int|
            dom.contains(i) && dom.contains(k) && #[trigger] f(i) == #[trigger] f(k) implies i == k by {
            let m = other[f(i)];
            lemma_covers_own_address(list[k]);
            lemma_block_nests(
                m.is_v6(),
                m.address(),
                m.host_bits(),
                list[i].host_bits(),
                own(i),
                own(k),
            );
            lemma_simplified_disjoint(list, i, k, own(k));
        }
    }
    let image = dom.map(f);
    let all = set_int_range(0, other.len() as int);
    lemma_int_range(0, list.len() as int);
    lemma_int_range(0, other.len() as int);
    lemma_map_size(dom, image, f);
    assert(image.subset_of(all));
    lemma_len_subset(image, all);
}

/// Two lists after one another cover what either covers.
pub proof fn lemma_addrs_concat(a: Seq<IpNet>, b: Seq<IpNet>)
    ensures
        addrs(a + b) == addrs(a).union(addrs(b)),
{
    assert forall|x: Addr| covered(a + b, x) == (covered(a, x) || covered(b, x)) by {
        if covered(a, x) {
            let i = choose|i: int| 0 <= i < a.len() && (#[trigger] a[i]).covers(x);
            assert((a + b)[i].covers(x));
        }
        if covered(b, x) {
            let i = choose|i: int| 0 <= i < b.len() && (#[trigger] b[i]).covers(x);
            assert((a + b)[a.len() + i].covers(x));
        }
        if covered(a + b, x) {
            let i = choose|i: int| 0 <= i < (a + b).len() && (#[trigger] (a + b)[i]).covers(x);
            if i < a.len() {
                assert(a[i].covers(x));
            } else {
                assert(b[i - a.len()].covers(x));
            }
        }
    }
    assert(addrs(a + b) =~= addrs(a).union(addrs(b)));
}

/// Whether all networks of the list are of the given family.
pub open spec fn of_family(nets: Seq<IpNet>, v6: bool) -> bool {
    forall|i: int| 0 <= i < nets.len() ==> (#[trigger] nets[i]).is_v6() == v6
}

/// A simplified list of IPv4 networks followed by one of IPv6 networks is simplified.
pub proof fn lemma_families_simplified(v4: Seq<IpNet>, v6: Seq<IpNet>)
    requires
        simplified(v4),
        simplified(v6),
        of_family(v4, false),
        of_family(v6, true),
    ensures
        simplified(v4 + v6),
{
    let both = v4 + v6;
    assert forall|i: int| 0 <= i < both.len() implies (#[trigger] both[i]).valid()
        && both[i].truncated() && maximal(both[i], both) by {
        let (part, k) = if i < v4.len() {
            (v4, i)
        } else {
            (v6, i - v4.len())
        };
        assert(both[i] == part[k]);
        if both[i].prefix_len() > 0 {
            let a = choose|a: Addr| #[trigger] part[k].parent_covers(a) && !covered(part, a);
            assert(!covered(both, a)) by {
                if covered(both, a) {
                    let j = choose|j: int| 0 <= j < both.len() && (#[trigger] both[j]).covers(a);
                    if j < v4.len() {
                        assert(v4[j].covers(a));
                    } else {
                        assert(v6[j - v4.len()].covers(a));
                    }
                }
            }
            assert(both[i].parent_covers(a));
        }
    }
    assert(ordered(both)) by {
        assert forall|i: int, j: int| 0 <= i < j < both.len() implies (
        #[trigger] both[i]).precedes(#[trigger] both[j]) by {
            if j < v4.len() {
                assert(v4[i].precedes(v4[j]));
            } else if i >= v4.len() {
                assert(v6[i - v4.len()].precedes(v6[j - v4.len()]));
            } else {
                assert(!v4[i].is_v6() && v6[j - v4.len()].is_v6());
            }
        }
    }
}

/// The order of networks: IPv4 comes before IPv6, and in a family the shorter prefix before the
/// longer one, and with equal prefixes the lower address before the higher one.
pub proof fn lemma_order(a: IpNet, b: IpNet)
    ensures
        !a.is_v6() && b.is_v6() ==> a.precedes(b) && !b.precedes(a),
        a.is_v6() == b.is_v6() && a.prefix_len() < b.prefix_len() ==> a.precedes(b) && !b.precedes(a),
        a.is_v6() == b.is_v6() && a.prefix_len() == b.prefix_len() && a.address() < b.address()
            ==> a.precedes(b) && !b.precedes(a),
        !a.precedes(a),
{
}

} // verus!
