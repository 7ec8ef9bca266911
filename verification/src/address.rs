//! IPv4 addresses.

use crate::octets::{dotted_string, dotted_text, dotted_value, parse_octets};
use vstd::prelude::*;

verus! {

/// An IPv4 address: 32 bits, of which the most significant byte is the
/// first octet of the dotted-decimal notation.
#[derive(Clone, Copy, Debug, PartialEq, Eq, Structural)]
pub struct IPv4Address(u32);

impl View for IPv4Address {
    type V = u32;

    /// The 32 bits of the address.
    closed spec fn view(&self) -> u32 {
        self.0
    }
}

impl IPv4Address {
    /// The address with the bits `bits`.
    pub fn new(bits: u32) -> (address: IPv4Address)
        ensures
            address@ == bits,
    {
        IPv4Address(bits)
    }

    /// The 32 bits of the address.
    pub fn bits(&self) -> (bits: u32)
        ensures
            bits == self@,
    {
        self.0
    }

    /// Reads an address in dotted-decimal notation.
    pub fn parse(s: &str) -> (address: Option<IPv4Address>)
        ensures
            match address {
                Some(a) => dotted_value(s@) == Some(a@),
                None => dotted_value(s@) is None,
            },
    {
        let addr = match parse_octets(s) {
            Some(x) => x,
            None => return None,
        };
        Some(IPv4Address(addr))
    }

    /// The address in dotted-decimal notation: four numerals without
    /// leading zeros, the most significant byte first.
    pub fn to_string(&self) -> (s: String)
        ensures
            s@ == dotted_text(self@),
    {
        dotted_string(self.0)
    }
}

} // verus!
