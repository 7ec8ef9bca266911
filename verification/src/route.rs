//! Routes: an address together with the mask of its network.
//!
//! A route is written as a record `address/mask`, where the mask is a
//! prefix length or in dotted-decimal notation, and whitespace around either
//! part is ignored.

use crate::address::IPv4Address;
use crate::decimal::{decimal_digits, is_digit, lemma_decimal_digits};
use crate::error::RouteError;
use crate::mask::{lemma_parse_prefix_len, mask_value, prefix_mask, IPv4Mask};
use crate::octets::{
    dotted_text, dotted_value, lemma_dotted_text_chars, lemma_parse_rendered, parse_octet_fields,
};
use crate::text::{
    chars_of, lemma_split_cons, lemma_split_single, lemma_trim_unchanged, split, split_fields,
    trim, trim_slice,
};
use vstd::prelude::*;
use vstd::string::*;

verus! {

/// A network address and its mask.
pub type RoutePair = (IPv4Address, IPv4Mask);

/// Whether `address` is the address of a network of prefix length
/// `prefix_len`: none of its bits outside the prefix is set.
pub open spec fn is_network(address: u32, prefix_len: nat) -> bool {
    address & prefix_mask(prefix_len) == address
}

/// What the record `line` denotes: an address and a prefix length. The
/// record must hold exactly one `/`; the part before it, trimmed, must be an
/// address and the part after it, trimmed, a mask; and the address must have
/// no bit set outside the mask. The first of these that fails decides the
/// error.
pub open spec fn route_value(line: Seq<char>) -> Result<(u32, nat), RouteError> {
    let parts = split(line, '/');
    if parts.len() != 2 {
        Err(RouteError::MalformedRecord)
    } else {
        match dotted_value(trim(parts[0])) {
            None => Err(RouteError::MalformedOctetList),
            Some(address) => match mask_value(trim(parts[1])) {
                Err(e) => Err(e),
                Ok(len) => if is_network(address, len) {
                    Ok((address, len))
                } else {
                    Err(RouteError::HostBitsSet)
                },
            },
        }
    }
}

/// The record that is written for the address `address` and the prefix
/// length `prefix_len`.
pub open spec fn route_text(address: u32, prefix_len: nat) -> Seq<char> {
    dotted_text(address) + seq!['/'] + decimal_digits(prefix_len)
}

/// Reading the record written for a network address and its prefix length
/// gives both back.
pub proof fn lemma_parse_written_route(address: u32, prefix_len: nat)
    requires
        prefix_len <= 32,
        is_network(address, prefix_len),
    ensures
        route_value(route_text(address, prefix_len)) == Ok::<(u32, nat), RouteError>(
            (address, prefix_len),
        ),
{
    let head = dotted_text(address);
    let tail = decimal_digits(prefix_len);
    lemma_dotted_text_chars(address);
    lemma_decimal_digits(prefix_len);
    if head.contains('/') {
        let i = choose|i: int| 0 <= i < head.len() && head[i] == '/';
        assert(is_digit(head[i]) || head[i] == '.');
    }
    if tail.contains('/') {
        let i = choose|i: int| 0 <= i < tail.len() && tail[i] == '/';
        assert(is_digit(tail[i]));
    }
    lemma_split_cons(head, tail, '/');
    lemma_split_single(tail, '/');
    let parts = split(route_text(address, prefix_len), '/');
    assert(parts == seq![head, tail]);
    assert(is_digit(tail[0]) && is_digit(tail.last()));
    lemma_trim_unchanged(head);
    lemma_trim_unchanged(tail);
    lemma_parse_rendered(address);
    lemma_parse_prefix_len(prefix_len);
}

/// Pairs `address` with `mask`, provided that the address has no bit set
/// outside the mask.
pub fn route_pair(address: IPv4Address, mask: IPv4Mask) -> (pair: Result<RoutePair, RouteError>)
    ensures
        match pair {
            Ok(p) => is_network(address@, mask@) && p == (address, mask),
            Err(e) => !is_network(address@, mask@) && e == RouteError::HostBitsSet,
        },
{
    if address.bits() & mask.netid_mask() == address.bits() {
        Ok((address, mask))
    } else {
        Err(RouteError::HostBitsSet)
    }
}

/// Reads the record `line`, an address and a mask with `/` between them.
pub fn parse_route(line: &str) -> (pair: Result<RoutePair, RouteError>)
    ensures
        match pair {
            Ok(p) => route_value(line@) == Ok::<(u32, nat), RouteError>((p.0@, p.1@)),
            Err(e) => route_value(line@) == Err::<(u32, nat), RouteError>(e),
        },
{
    let chars = chars_of(line);
    let parts = split_fields(chars.as_slice(), '/');
    if parts.len() != 2 {
        return Err(RouteError::MalformedRecord);
    }
    let address = match parse_octet_fields(trim_slice(parts[0])) {
        Some(bits) => IPv4Address::new(bits),
        None => return Err(RouteError::MalformedOctetList),
    };
    let mask = match IPv4Mask::parse_chars(trim_slice(parts[1])) {
        Ok(mask) => mask,
        Err(e) => return Err(e),
    };
    route_pair(address, mask)
}

/// Writes the route as a record: the address in dotted-decimal notation,
/// `/`, and the prefix length.
pub fn route_string(pair: &RoutePair) -> (s: String)
    ensures
        s@ == route_text(pair.0@, pair.1@),
{
    proof {
        reveal_strlit("/");
    }
    let mut s = pair.0.to_string();
    s.append("/");
    let len = pair.1.to_string();
    s.append(len.as_str());
    proof {
        assert("/"@ == seq!['/']);
    }
    s
}

} // verus!
