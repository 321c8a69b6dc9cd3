//! Every set of addresses has a simplified list of networks.
use crate::net::{
    addrs, all_valid, covered, in_block, lemma_block_nests, lemma_net_exists, lemma_nets_finite, lemma_order_total,
    maximal, networks_of, ordered, simplified, Addr, IpNet,
};
use vstd::arithmetic::div_mod::{
    lemma_basic_div, lemma_div_multiples_vanish, lemma_fundamental_div_mod, lemma_mod_multiples_basic,
};
use vstd::arithmetic::power2::{lemma_pow2_pos, pow2};
use vstd::prelude::*;
use vstd::relations::total_ordering;

verus! {

/// Whether each address of the set fits its family.
pub open spec fn addressable(set: Set<Addr>) -> bool {
    forall|a: Addr| #[trigger]
        set.contains(a) ==> a.1 < pow2(
            if a.0 {
                128
            } else {
                32
            },
        )
}

/// Whether the set holds every address that agrees with `a` in all but the last `bits` bits.
spec fn holds_block(set: Set<Addr>, a: Addr, bits: nat) -> bool {
    forall|x: Addr| #[trigger] in_block(a.0, a.1, bits, x) ==> set.contains(x)
}

/// Whether the network lies in the set, and no larger one around it does.
spec fn is_top(set: Set<Addr>, n: IpNet) -> bool {
    &&& n.valid()
    &&& n.truncated()
    &&& forall|x: Addr| #[trigger] n.covers(x) ==> set.contains(x)
    &&& n.prefix_len() > 0 ==> exists|x: Addr| #[trigger] n.parent_covers(x) && !set.contains(x)
}

/// Some largest network of the set is around each of its addresses.
proof fn lemma_top_around(set: Set<Addr>, a: Addr, bits: nat) -> (n: IpNet)
    requires
        addressable(set),
        set.contains(a),
        bits <= (if a.0 {
            128nat
        } else {
            32
        }),
        holds_block(set, a, bits),
    ensures
        is_top(set, n),
        n.covers(a),
    decreases (if a.0 {
        128nat
    } else {
        32
    }) - bits,
{
    let width: nat = if a.0 {
        128
    } else {
        32
    };
    if bits < width && holds_block(set, a, bits + 1) {
        lemma_top_around(set, a, bits + 1)
    } else {
        let size = pow2(bits) as int;
        lemma_pow2_pos(bits);
        lemma_fundamental_div_mod(a.1 as int, size);
        let base = (size * (a.1 as int / size)) as nat;
        assert(size * (a.1 as int / size) >= 0) by (nonlinear_arith)
            requires
                size > 0,
                a.1 as int / size >= 0,
        ;
        assert(size * (a.1 as int / size) == (a.1 as int / size) * size) by (nonlinear_arith);
        lemma_mod_multiples_basic(a.1 as int / size, size);
        lemma_div_multiples_vanish(a.1 as int / size, size);
        let n = lemma_net_exists(a.0, base, (width - bits) as nat);
        assert(n.covers(a));
        assert forall|x: Addr| #[trigger] n.covers(x) implies set.contains(x) by {
            assert(in_block(a.0, a.1, bits, x));
        }
        if n.prefix_len() > 0 {
            let x = choose|x: Addr| #[trigger] in_block(a.0, a.1, bits + 1, x) && !set.contains(x);
            let own: Addr = (n.is_v6(), n.address());
            lemma_block_nests(a.0, a.1, bits, bits + 1, a, own);
            assert(n.parent_covers(x));
        }
        n
    }
}

/// The order of networks, with equality.
spec fn not_after() -> spec_fn(IpNet, IpNet) -> bool {
    |a: IpNet, b: IpNet| a == b || a.precedes(b)
}

/// Networks can be put in order.
proof fn lemma_in_order(set: Set<IpNet>) -> (list: Seq<IpNet>)
    requires
        set.finite(),
    ensures
        ordered(list),
        forall|n: IpNet| list.contains(n) <==> #[trigger] set.contains(n),
    decreases set.len(),
{
    if set.len() == 0 {
        Seq::empty()
    } else {
        let r = not_after();
        assert(total_ordering(r)) by {
            assert forall|a: IpNet, b: IpNet| #[trigger] r(a, b) || #[trigger] r(b, a) by {
                lemma_order_total(a, b);
            }
        }
        set.find_unique_maximal_ensures(r);
        let last = set.find_unique_maximal(r);
        let rest = lemma_in_order(set.remove(last));
        let list = rest.push(last);
        assert forall|n: IpNet| list.contains(n) <==> #[trigger] set.contains(n) by {
            if set.remove(last).contains(n) {
                let i = choose|i: int| 0 <= i < rest.len() && rest[i] == n;
                assert(list[i] == n);
            }
            assert(list[rest.len() as int] == last);
            if list.contains(n) && n != last {
                let i = choose|i: int| 0 <= i < list.len() && list[i] == n;
                assert(rest[i] == n);
                assert(rest.contains(n));
                assert(set.remove(last).contains(n));
            }
        }
        assert forall|i: int, j: int| 0 <= i < j < list.len() implies (
        #[trigger] list[i]).precedes(#[trigger] list[j]) by {
            if j < rest.len() {
                assert(rest[i].precedes(rest[j]));
            } else {
                assert(rest.contains(rest[i]));
                assert(set.remove(last).contains(rest[i]));
                assert(set.contains(rest[i]) && rest[i] != last);
                lemma_order_total(rest[i], last);
                assert(r(last, rest[i]) ==> r(rest[i], last));
                assert(list[i] == rest[i] && list[j] == last);
            }
        }
        list
    }
}

/// Every set of addresses that fit their families has a simplified list.
pub proof fn lemma_networks_exist(set: Set<Addr>)
    requires
        addressable(set),
    ensures
        simplified(networks_of(set)),
        addrs(networks_of(set)) == set,
{
    let tops = Set::new(|n: IpNet| is_top(set, n));
    lemma_nets_finite(tops);
    let list = lemma_in_order(tops);
    assert forall|a: Addr| covered(list, a) == set.contains(a) by {
        if covered(list, a) {
            let i = choose|i: int| 0 <= i < list.len() && (#[trigger] list[i]).covers(a);
            assert(list.contains(list[i]));
            assert(tops.contains(list[i]));
        }
        if set.contains(a) {
            assert(holds_block(set, a, 0)) by {
                assert forall|x: Addr| #[trigger] in_block(a.0, a.1, 0, x) implies set.contains(x) by {
                    vstd::arithmetic::power2::lemma2_to64();
                    assert(x == a);
                }
            }
            let n = lemma_top_around(set, a, 0);
            assert(tops.contains(n));
            let i = choose|i: int| 0 <= i < list.len() && list[i] == n;
            assert(list[i].covers(a));
        }
    }
    assert(addrs(list) =~= set);
    assert forall|i: int| 0 <= i < list.len() implies (#[trigger] list[i]).valid()
        && list[i].truncated() && maximal(list[i], list) by {
        let n = list[i];
        assert(list.contains(n));
        assert(tops.contains(n));
        if n.prefix_len() > 0 {
            let x = choose|x: Addr| #[trigger] n.parent_covers(x) && !set.contains(x);
            assert(!covered(list, x));
        }
    }
    assert(simplified(list));
}

/// The addresses of networks fit their families.
pub proof fn lemma_addrs_addressable(nets: Seq<IpNet>)
    requires
        all_valid(nets),
    ensures
        addressable(addrs(nets)),
{
    assert forall|a: Addr| #[trigger] addrs(nets).contains(a) implies a.1 < pow2(
        if a.0 {
            128
        } else {
            32
        },
    ) by {
        let i = choose|i: int| 0 <= i < nets.len() && (#[trigger] nets[i]).covers(a);
        let n = nets[i];
        let size = pow2(n.width()) as int;
        lemma_pow2_pos(n.width());
        lemma_block_nests(n.is_v6(), n.address(), n.host_bits(), n.width(), a, a);
        lemma_basic_div(n.address() as int, size);
        lemma_fundamental_div_mod(a.1 as int, size);
    }
}

} // verus!
