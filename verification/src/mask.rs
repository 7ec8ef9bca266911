//! Subnet masks, held as prefix lengths.
//!
//! A mask of prefix length `n`, from 0 to 32, has its `n` most significant
//! bits set and the other bits clear. It can be written as a prefix length
//! (`24`) or in dotted-decimal notation (`255.255.255.0`).

use crate::decimal::{
    bounded_value, decimal_digits, decimal_string, lemma_decimal_digits, parse_bounded,
};
use crate::error::RouteError;
use crate::octets::{
    dotted_text, dotted_value, lemma_digits_hold_no_dot, lemma_dotted_text_chars,
    lemma_parse_rendered, parse_octet_fields,
};
use crate::text::{chars_of, contains_char};
use vstd::prelude::*;
use vstd::std_specs::bits::{
    axiom_u32_leading_ones, axiom_u32_trailing_zeros, u32_leading_ones, u32_trailing_zeros,
};

verus! {

/// The 32-bit value whose `len` most significant bits are set and whose
/// other bits are clear, for `len` up to 32. This is `prefix_mask` over
/// machine integers, the form that bit-vector reasoning takes.
pub open spec fn ones_prefix(len: u32) -> u32 {
    if len >= 32 {
        0xffff_ffffu32
    } else {
        !(0xffff_ffffu32 >> len)
    }
}

/// The bit mask of the prefix length `len`: `len` ones followed by
/// `32 - len` zeros.
pub open spec fn prefix_mask(len: nat) -> u32 {
    if len >= 32 {
        0xffff_ffffu32
    } else {
        ones_prefix(len as u32)
    }
}

/// Whether the bit of `bits` at `index` is set, index 0 being the least
/// significant bit.
pub open spec fn bit_set(bits: u32, index: u32) -> bool {
    (bits >> index) & 1u32 == 1u32
}

/// The prefix length of the mask `bits`: 32 less the number of its trailing
/// zeros, provided that the mask of that length is `bits`. `None` where the
/// ones of `bits` are not one run from the top.
pub open spec fn mask_prefix_len(bits: u32) -> Option<nat> {
    let len = (32 - u32_trailing_zeros(bits)) as nat;
    if prefix_mask(len) == bits {
        Some(len)
    } else {
        None
    }
}

/// What the text `s` of a mask denotes. Text with a dot in it is
/// dotted-decimal notation and must hold a mask's bits; any other text must
/// be a numeral of at most 32.
pub open spec fn mask_value(s: Seq<char>) -> Result<nat, RouteError> {
    if s.contains('.') {
        match dotted_value(s) {
            None => Err(RouteError::MalformedOctetList),
            Some(bits) => match mask_prefix_len(bits) {
                None => Err(RouteError::NonContiguousMask),
                Some(len) => Ok(len),
            },
        }
    } else {
        match bounded_value(s, 32) {
            None => Err(RouteError::MalformedMaskInteger),
            Some(len) => Ok(len),
        }
    }
}

/// In the mask of length `len`, just the `len` highest bits are set.
pub proof fn lemma_prefix_mask_bits(len: nat, index: u32)
    requires
        len <= 32,
        index < 32,
    ensures
        bit_set(prefix_mask(len), index) <==> index >= 32 - len,
{
    let n = len as u32;
    assert(n <= 32 && index < 32 ==> (bit_set(ones_prefix(n), index) <==> index + n >= 32))
        by (bit_vector);
}

/// The mask of length `len` has exactly `len` leading ones and `32 - len`
/// trailing zeros.
pub proof fn lemma_prefix_mask_shape(len: nat)
    requires
        len <= 32,
    ensures
        u32_leading_ones(prefix_mask(len)) == len,
        u32_trailing_zeros(prefix_mask(len)) == 32 - len,
{
    let mask = prefix_mask(len);
    let n = len as u32;
    axiom_u32_trailing_zeros(mask);
    axiom_u32_leading_ones(mask);
    let zeros = u32_trailing_zeros(mask);
    let ones = u32_leading_ones(mask);
    assert(ones_prefix(0) == 0) by (bit_vector);
    assert(ones_prefix(32) == 0xffff_ffffu32) by (bit_vector);
    assert(n < 32 ==> ones_prefix(n) != 0xffff_ffffu32) by (bit_vector);
    assert(0 < n <= 32 ==> ones_prefix(n) != 0) by (bit_vector);
    if 0 < len {
        lemma_prefix_mask_bits(len, zeros);
        lemma_prefix_mask_bits(len, (32 - len) as u32);
        assert(bit_set(mask, (32 - len) as u32));
    }
    if len < 32 {
        // the bit just below the leading ones is clear, so it lies below the prefix
        let below = (31 - ones) as u32;
        assert(!bit_set(mask, below));
        lemma_prefix_mask_bits(len, below);
        assert(ones >= len);
        // the bit just below the prefix is clear, so the leading ones end above it
        let next = (31 - len) as u32;
        lemma_prefix_mask_bits(len, next);
        assert(!bit_set(mask, next));
        assert(ones <= len);
    }
}

/// Masks of different lengths differ: the prefix length of a mask is its
/// only length.
pub proof fn lemma_mask_prefix_len(bits: u32, len: nat)
    ensures
        mask_prefix_len(bits) == Some(len) <==> len <= 32 && prefix_mask(len) == bits,
{
    axiom_u32_trailing_zeros(bits);
    if len <= 32 && prefix_mask(len) == bits {
        lemma_prefix_mask_shape(len);
    }
}

/// Reading the dotted-decimal text of the mask of length `len` gives `len`
/// back.
pub proof fn lemma_parse_dotted_mask(len: nat)
    requires
        len <= 32,
    ensures
        mask_value(dotted_text(prefix_mask(len))) == Ok::<nat, RouteError>(len),
{
    let bits = prefix_mask(len);
    lemma_parse_rendered(bits);
    lemma_dotted_text_chars(bits);
    lemma_mask_prefix_len(bits, len);
}

/// Reading the numeral of a prefix length `len` gives `len` back.
pub proof fn lemma_parse_prefix_len(len: nat)
    requires
        len <= 32,
    ensures
        mask_value(decimal_digits(len)) == Ok::<nat, RouteError>(len),
{
    lemma_decimal_digits(len);
    lemma_digits_hold_no_dot(decimal_digits(len));
}

/// A subnet mask, held as its prefix length, which is at most 32.
#[derive(Clone, Copy, Debug, PartialEq, Eq, Structural)]
pub struct IPv4Mask(usize);

impl View for IPv4Mask {
    type V = nat;

    /// The prefix length.
    closed spec fn view(&self) -> nat {
        self.0 as nat
    }
}

impl IPv4Mask {
    #[verifier::type_invariant]
    spec fn well_formed(self) -> bool {
        self.0 <= 32
    }

    /// The mask of the prefix length `prefix_len`, where that is at most 32.
    pub fn new(prefix_len: usize) -> (mask: Option<IPv4Mask>)
        ensures
            match mask {
                Some(m) => prefix_len <= 32 && m@ == prefix_len,
                None => prefix_len > 32,
            },
    {
        if prefix_len <= 32 {
            Some(IPv4Mask(prefix_len))
        } else {
            None
        }
    }

    /// The mask of the prefix length `prefix_len`.
    pub(crate) fn with_len(prefix_len: usize) -> (mask: IPv4Mask)
        requires
            prefix_len <= 32,
        ensures
            mask@ == prefix_len,
    {
        IPv4Mask(prefix_len)
    }

    /// The prefix length.
    pub fn prefix_len(&self) -> (len: usize)
        ensures
            len == self@,
            len <= 32,
    {
        proof {
            use_type_invariant(self);
        }
        self.0
    }

    /// The mask whose bits are `bits`, where these are a run of ones
    /// followed by a run of zeros.
    pub fn from_bits(bits: u32) -> (mask: Option<IPv4Mask>)
        ensures
            match mask {
                Some(m) => mask_prefix_len(bits) == Some(m@) && m@ <= 32,
                None => mask_prefix_len(bits) is None,
            },
    {
        proof {
            axiom_u32_trailing_zeros(bits);
        }
        let host_bits = bits.trailing_zeros();
        let candidate = IPv4Mask((32 - host_bits) as usize);
        if candidate.netid_mask() == bits {
            Some(candidate)
        } else {
            None
        }
    }

    /// Reads a mask from a prefix length or from dotted-decimal notation,
    /// and says what is wrong where it is neither.
    pub fn try_parse(s: &str) -> (mask: Result<IPv4Mask, RouteError>)
        ensures
            match mask {
                Ok(m) => mask_value(s@) == Ok::<nat, RouteError>(m@) && m@ <= 32,
                Err(e) => mask_value(s@) == Err::<nat, RouteError>(e),
            },
    {
        let chars = chars_of(s);
        IPv4Mask::parse_chars(chars.as_slice())
    }

    /// Reads a mask from the characters of a prefix length or of
    /// dotted-decimal notation.
    pub fn parse_chars(chars: &[char]) -> (mask: Result<IPv4Mask, RouteError>)
        ensures
            match mask {
                Ok(m) => mask_value(chars@) == Ok::<nat, RouteError>(m@) && m@ <= 32,
                Err(e) => mask_value(chars@) == Err::<nat, RouteError>(e),
            },
    {
        if contains_char(chars, '.') {
            match parse_octet_fields(chars) {
                None => Err(RouteError::MalformedOctetList),
                Some(bits) => match IPv4Mask::from_bits(bits) {
                    None => Err(RouteError::NonContiguousMask),
                    Some(mask) => Ok(mask),
                },
            }
        } else {
            match parse_bounded(chars, 32) {
                None => Err(RouteError::MalformedMaskInteger),
                Some(len) => Ok(IPv4Mask(len as usize)),
            }
        }
    }

    /// Reads a mask from a prefix length or from dotted-decimal notation.
    pub fn parse(s: &str) -> (mask: Option<IPv4Mask>)
        ensures
            match mask {
                Some(m) => mask_value(s@) == Ok::<nat, RouteError>(m@) && m@ <= 32,
                None => mask_value(s@) is Err,
            },
    {
        match IPv4Mask::try_parse(s) {
            Ok(mask) => Some(mask),
            Err(_) => None,
        }
    }

    /// The bits of the mask: as many leading ones as the prefix length
    /// says, then zeros.
    pub fn netid_mask(&self) -> (bits: u32)
        ensures
            bits == prefix_mask(self@),
    {
        proof {
            use_type_invariant(self);
        }
        if self.0 == 0 {
            assert(ones_prefix(0) == 0) by (bit_vector);
            return 0;
        }
        if self.0 == 32 {
            return u32::MAX;
        }
        let host_bits: u32 = 32 - self.0 as u32;
        assert(0 < host_bits < 32 ==> 0xffff_ffffu32 << host_bits == ones_prefix(
            (32 - host_bits) as u32,
        )) by (bit_vector);
        u32::MAX << host_bits
    }

    /// The prefix length as a numeral, whichever notation the mask was read
    /// from.
    pub fn to_string(&self) -> (s: String)
        ensures
            s@ == decimal_digits(self@),
    {
        proof {
            use_type_invariant(self);
        }
        decimal_string(self.0 as u32)
    }
}

} // verus!
