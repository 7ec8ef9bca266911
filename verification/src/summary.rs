//! The summary of a set of routes: the longest prefix that all their
//! addresses share.
//!
//! Only the addresses count. The summary may be longer than the mask of one
//! of the routes, where their addresses agree on more bits than that mask
//! covers.

use crate::address::IPv4Address;
use crate::error::RouteError;
use crate::mask::{ones_prefix, prefix_mask, IPv4Mask};
use crate::route::{is_network, RoutePair};
use vstd::prelude::*;

verus! {

/// The addresses of `pairs`, in order.
pub open spec fn addresses(pairs: Seq<RoutePair>) -> Seq<u32> {
    Seq::new(pairs.len(), |k: int| pairs[k].0@)
}

/// Whether all of `addrs` lie in one network of prefix length `len`: they
/// agree with the first of them on their `len` most significant bits.
pub open spec fn same_network(addrs: Seq<u32>, len: nat) -> bool {
    forall|k: int|
        0 <= k < addrs.len() ==> (#[trigger] addrs[k]) & prefix_mask(len) == addrs[0] & prefix_mask(
            len,
        )
}

/// The longest prefix length from `len` up to 32 that is reached without
/// leaving a network that holds all of `addrs`.
pub open spec fn common_prefix_from(addrs: Seq<u32>, len: nat) -> nat
    decreases 32 - len,
{
    if len < 32 && same_network(addrs, len + 1) {
        common_prefix_from(addrs, len + 1)
    } else {
        len
    }
}

/// The number of leading bits on which all of `addrs` agree: the greatest
/// prefix length, at most 32, of a network that holds them all.
pub open spec fn common_prefix_len(addrs: Seq<u32>) -> nat {
    common_prefix_from(addrs, 0)
}

/// The bit of a 32-bit value at `index`, counted from the most significant
/// bit, which has index 0.
pub open spec fn leading_bit(index: u32) -> u32 {
    1u32 << ((31 - index) as u32)
}

/// Two addresses agree on `len + 1` leading bits just when they agree on
/// `len` leading bits and on the bit that follows them.
proof fn lemma_one_more_bit(a: u32, b: u32, len: u32)
    requires
        len < 32,
    ensures
        a & prefix_mask(len as nat + 1) == b & prefix_mask(len as nat + 1) <==> (a & prefix_mask(
            len as nat,
        ) == b & prefix_mask(len as nat) && a & leading_bit(len) == b & leading_bit(len)),
{
    let next = (len + 1) as u32;
    assert(ones_prefix(32) == 0xffff_ffffu32) by (bit_vector);
    assert(prefix_mask(len as nat + 1) == ones_prefix(next));
    assert(len < 32 && next == len + 1 ==> (a & ones_prefix(next) == b & ones_prefix(next) <==> (a
        & ones_prefix(len) == b & ones_prefix(len) && a & leading_bit(len) == b & leading_bit(
        len,
    )))) by (bit_vector);
}

/// Two addresses that agree on `longer` leading bits agree on any fewer.
proof fn lemma_shorter_prefix(a: u32, b: u32, shorter: nat, longer: nat)
    requires
        shorter <= longer <= 32,
        a & prefix_mask(longer) == b & prefix_mask(longer),
    ensures
        a & prefix_mask(shorter) == b & prefix_mask(shorter),
{
    let m = shorter as u32;
    let n = longer as u32;
    assert(ones_prefix(32) == 0xffff_ffffu32) by (bit_vector);
    assert(m <= n <= 32 && a & ones_prefix(n) == b & ones_prefix(n) ==> a & ones_prefix(m) == b
        & ones_prefix(m)) by (bit_vector);
}

/// A network that holds all of `addrs` lies within a network of every
/// shorter prefix, which holds them too.
pub proof fn lemma_same_network_shorter(addrs: Seq<u32>, shorter: nat, longer: nat)
    requires
        shorter <= longer <= 32,
        same_network(addrs, longer),
    ensures
        same_network(addrs, shorter),
{
    assert forall|k: int| 0 <= k < addrs.len() implies (#[trigger] addrs[k]) & prefix_mask(shorter)
        == addrs[0] & prefix_mask(shorter) by {
        lemma_shorter_prefix(addrs[k], addrs[0], shorter, longer);
    }
}

/// Every set of addresses lies in the one network of prefix length 0.
pub proof fn lemma_same_network_zero(addrs: Seq<u32>)
    ensures
        same_network(addrs, 0),
{
    assert(ones_prefix(0) == 0) by (bit_vector);
    assert forall|k: int| 0 <= k < addrs.len() implies (#[trigger] addrs[k]) & prefix_mask(0)
        == addrs[0] & prefix_mask(0) by {
        let a = addrs[k];
        let b = addrs[0];
        assert(a & 0 == b & 0) by (bit_vector);
    }
}

/// Counting on from a prefix that all of `addrs` share ends at the longest
/// such prefix: the prefixes that they share are those up to the result.
proof fn lemma_common_prefix_from(addrs: Seq<u32>, len: nat, other: nat)
    requires
        len <= 32,
        other <= 32,
        same_network(addrs, len),
    ensures
        len <= common_prefix_from(addrs, len) <= 32,
        same_network(addrs, other) <==> other <= common_prefix_from(addrs, len),
    decreases 32 - len,
{
    if len < 32 && same_network(addrs, len + 1) {
        lemma_common_prefix_from(addrs, len + 1, other);
    } else {
        if other <= len {
            lemma_same_network_shorter(addrs, other, len);
        } else if same_network(addrs, other) {
            lemma_same_network_shorter(addrs, len + 1, other);
        }
    }
}

/// The common prefix length is the greatest length of a network that holds
/// all of `addrs`: they share a prefix of length `len` just when `len` is
/// at most the common prefix length.
pub proof fn lemma_common_prefix_is_longest(addrs: Seq<u32>, len: nat)
    requires
        len <= 32,
    ensures
        common_prefix_len(addrs) <= 32,
        same_network(addrs, len) <==> len <= common_prefix_len(addrs),
{
    lemma_same_network_zero(addrs);
    lemma_common_prefix_from(addrs, 0, len);
}

/// The network of the common prefix holds every one of `addrs`, and its
/// address has no bit set outside the prefix.
pub proof fn lemma_summary_covers(addrs: Seq<u32>, k: int)
    requires
        0 <= k < addrs.len(),
    ensures
        addrs[k] & prefix_mask(common_prefix_len(addrs)) == addrs[0] & prefix_mask(
            common_prefix_len(addrs),
        ),
        is_network(addrs[0] & prefix_mask(common_prefix_len(addrs)), common_prefix_len(addrs)),
{
    let len = common_prefix_len(addrs);
    lemma_common_prefix_is_longest(addrs, 0);
    lemma_common_prefix_is_longest(addrs, len);
    let a = addrs[0];
    let m = prefix_mask(len);
    assert((a & m) & m == a & m) by (bit_vector);
}

/// The summary does not depend on which address stands first: sets with the
/// same addresses in another order have the same common prefix length and
/// the same network address.
pub proof fn lemma_summary_ignores_order(addrs: Seq<u32>, others: Seq<u32>)
    requires
        addrs.len() > 0,
        others.len() > 0,
        forall|k: int| 0 <= k < addrs.len() ==> others.contains(#[trigger] addrs[k]),
        forall|k: int| 0 <= k < others.len() ==> addrs.contains(#[trigger] others[k]),
    ensures
        common_prefix_len(addrs) == common_prefix_len(others),
        addrs[0] & prefix_mask(common_prefix_len(addrs)) == others[0] & prefix_mask(
            common_prefix_len(others),
        ),
{
    let n = common_prefix_len(addrs);
    let m = common_prefix_len(others);
    lemma_common_prefix_is_longest(addrs, 0);
    lemma_common_prefix_is_longest(others, 0);
    lemma_common_prefix_is_longest(addrs, n);
    lemma_common_prefix_is_longest(others, m);
    lemma_same_network_of_members(addrs, others, n);
    lemma_same_network_of_members(others, addrs, m);
    lemma_common_prefix_is_longest(others, n);
    lemma_common_prefix_is_longest(addrs, m);
    assert(addrs.contains(others[0]));
    let j = choose|j: int| 0 <= j < addrs.len() && addrs[j] == others[0];
    assert(addrs[j] & prefix_mask(n) == addrs[0] & prefix_mask(n));
}

/// Addresses taken from a set that lies in one network lie in that network.
proof fn lemma_same_network_of_members(addrs: Seq<u32>, others: Seq<u32>, len: nat)
    requires
        same_network(addrs, len),
        forall|k: int| 0 <= k < others.len() ==> addrs.contains(#[trigger] others[k]),
    ensures
        same_network(others, len),
{
    assert forall|k: int| 0 <= k < others.len() implies (#[trigger] others[k]) & prefix_mask(len)
        == others[0] & prefix_mask(len) by {
        assert(addrs.contains(others[k]));
        assert(addrs.contains(others[0]));
        let i = choose|i: int| 0 <= i < addrs.len() && addrs[i] == others[k];
        let j = choose|j: int| 0 <= j < addrs.len() && addrs[j] == others[0];
        assert(addrs[i] & prefix_mask(len) == addrs[0] & prefix_mask(len));
        assert(addrs[j] & prefix_mask(len) == addrs[0] & prefix_mask(len));
    }
}

/// Whether all addresses of `pairs` have the same value as the first in the
/// bits of `bits`.
fn agree_on(pairs: &Vec<RoutePair>, bits: u32) -> (agree: bool)
    requires
        pairs.len() > 0,
    ensures
        agree <==> forall|k: int|
            0 <= k < pairs.len() ==> (#[trigger] addresses(pairs@)[k]) & bits == addresses(
                pairs@,
            )[0] & bits,
{
    let first = pairs[0].0.bits();
    let mut i: usize = 0;
    while i < pairs.len()
        invariant
            0 <= i <= pairs.len(),
            pairs.len() > 0,
            first == addresses(pairs@)[0],
            forall|k: int|
                0 <= k < i ==> (#[trigger] addresses(pairs@)[k]) & bits == first & bits,
        decreases pairs.len() - i,
    {
        let ip = pairs[i].0.bits();
        assert(ip == addresses(pairs@)[i as int]);
        if ip & bits != first & bits {
            return false;
        }
        i += 1;
    }
    true
}

/// The summary route of `pairs`: the longest prefix on which all their
/// addresses agree, and the address of the network of that prefix. The
/// masks of `pairs` play no part.
pub fn create_summary_route(pairs: Vec<RoutePair>) -> (summary: RoutePair)
    requires
        pairs.len() > 0,
    ensures
        summary.1@ == common_prefix_len(addresses(pairs@)),
        summary.0@ == addresses(pairs@)[0] & prefix_mask(summary.1@),
        summary.1@ <= 32,
        same_network(addresses(pairs@), summary.1@),
        summary.1@ < 32 ==> !same_network(addresses(pairs@), summary.1@ + 1),
        is_network(summary.0@, summary.1@),
{
    let ghost addrs = addresses(pairs@);
    let mut common_network_part_bits: usize = 0;
    proof {
        lemma_same_network_zero(addrs);
    }
    while common_network_part_bits < 32
        invariant_except_break
            pairs.len() > 0,
            addrs == addresses(pairs@),
            common_network_part_bits <= 32,
            same_network(addrs, common_network_part_bits as nat),
            common_prefix_from(addrs, common_network_part_bits as nat) == common_prefix_len(addrs),
        ensures
            common_network_part_bits <= 32,
            same_network(addrs, common_network_part_bits as nat),
            common_network_part_bits as nat == common_prefix_len(addrs),
            common_network_part_bits < 32 ==> !same_network(
                addrs,
                common_network_part_bits as nat + 1,
            ),
        decreases 32 - common_network_part_bits,
    {
        let ghost len = common_network_part_bits as u32;
        let bit: u32 = 1u32 << (31 - common_network_part_bits as u32);
        let agree = agree_on(&pairs, bit);
        proof {
            assert(bit == leading_bit(len));
            if agree {
                assert forall|k: int| 0 <= k < addrs.len() implies (#[trigger] addrs[k])
                    & prefix_mask(len as nat + 1) == addrs[0] & prefix_mask(len as nat + 1) by {
                    lemma_one_more_bit(addrs[k], addrs[0], len);
                }
            } else {
                let k = choose|k: int| 0 <= k < addrs.len() && (#[trigger] addrs[k]) & bit
                    != addrs[0] & bit;
                lemma_one_more_bit(addrs[k], addrs[0], len);
            }
        }
        if !agree {
            break ;
        }
        common_network_part_bits += 1;
    }
    let common_mask = IPv4Mask::with_len(common_network_part_bits);
    let first = pairs[0].0.bits();
    let bits = common_mask.netid_mask();
    let common_ip = IPv4Address::new(first & bits);
    proof {
        assert(first == addrs[0]);
        assert((first & bits) & bits == first & bits) by (bit_vector);
    }
    (common_ip, common_mask)
}

/// The summary route of `pairs`, where there is at least one.
pub fn try_create_summary_route(pairs: Vec<RoutePair>) -> (summary: Result<RoutePair, RouteError>)
    ensures
        match summary {
            Ok(s) => {
                &&& pairs.len() > 0
                &&& s.1@ == common_prefix_len(addresses(pairs@))
                &&& s.0@ == addresses(pairs@)[0] & prefix_mask(s.1@)
            },
            Err(e) => pairs.len() == 0 && e == RouteError::EmptyInputSet,
        },
{
    if pairs.len() == 0 {
        Err(RouteError::EmptyInputSet)
    } else {
        Ok(create_summary_route(pairs))
    }
}

} // verus!
