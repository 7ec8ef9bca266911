//! Dotted-decimal notation: four octets, each a numeral from 0 to 255,
//! separated by dots, standing for a 32-bit value whose most significant
//! byte is the first octet.

use crate::decimal::{
    all_digits, bounded_value, decimal_digits, decimal_value, is_digit, is_shortest_numeral,
    lemma_decimal_digits, lemma_shortest_numeral, parse_bounded, push_decimal, unsigned_digits,
};
use crate::text::{
    chars_of, join, lemma_join_split, lemma_split_cons, lemma_split_single, split, split_fields,
};
use vstd::arithmetic::div_mod::lemma_fundamental_div_mod_converse;
use vstd::prelude::*;
use vstd::string::*;

verus! {

/// The value whose bytes are `a`, `b`, `c` and `d`, from the most
/// significant to the least.
pub open spec fn pack_octets(a: nat, b: nat, c: nat, d: nat) -> nat {
    a * 0x100_0000 + b * 0x1_0000 + c * 0x100 + d
}

/// The byte of `value` at `index`, counted from the most significant byte,
/// which has index 0.
pub open spec fn octet(value: u32, index: nat) -> nat {
    if index == 0 {
        (value / 0x100_0000) as nat
    } else if index == 1 {
        (value / 0x1_0000 % 0x100) as nat
    } else if index == 2 {
        (value / 0x100 % 0x100) as nat
    } else {
        (value % 0x100) as nat
    }
}

/// The octet that the field `field` denotes: a numeral of at most 255.
pub open spec fn octet_value(field: Seq<char>) -> Option<nat> {
    bounded_value(field, 255)
}

/// The value that `s` denotes in dotted-decimal notation: `s` has exactly
/// four fields between dots, each of them an octet, and the first octet is
/// the most significant byte. `None` for any other string.
pub open spec fn dotted_value(s: Seq<char>) -> Option<u32> {
    let fields = split(s, '.');
    if fields.len() == 4 && octet_value(fields[0]) is Some && octet_value(fields[1]) is Some
        && octet_value(fields[2]) is Some && octet_value(fields[3]) is Some {
        Some(
            pack_octets(
                octet_value(fields[0])->0,
                octet_value(fields[1])->0,
                octet_value(fields[2])->0,
                octet_value(fields[3])->0,
            ) as u32,
        )
    } else {
        None
    }
}

/// Four fields with dots between them.
pub open spec fn dotted(a: Seq<char>, b: Seq<char>, c: Seq<char>, d: Seq<char>) -> Seq<char> {
    a + seq!['.'] + b + seq!['.'] + c + seq!['.'] + d
}

/// `value` in dotted-decimal notation: its four bytes, the most significant
/// first, each as its shortest numeral.
pub open spec fn dotted_text(value: u32) -> Seq<char> {
    dotted(
        decimal_digits(octet(value, 0)),
        decimal_digits(octet(value, 1)),
        decimal_digits(octet(value, 2)),
        decimal_digits(octet(value, 3)),
    )
}

/// The shortest numeral with the value of the numeral `field`.
pub open spec fn normalized_numeral(field: Seq<char>) -> Seq<char> {
    decimal_digits(decimal_value(unsigned_digits(field)))
}

/// The string `s` of four dotted fields with each field replaced by its
/// shortest numeral.
pub open spec fn normalized_dotted(s: Seq<char>) -> Seq<char> {
    let fields = split(s, '.');
    dotted(
        normalized_numeral(fields[0]),
        normalized_numeral(fields[1]),
        normalized_numeral(fields[2]),
        normalized_numeral(fields[3]),
    )
}

/// Whether `s` is written in the form in which values are rendered: four
/// fields, each the shortest numeral of an octet.
pub open spec fn is_normal_dotted(s: Seq<char>) -> bool {
    let fields = split(s, '.');
    &&& dotted_value(s) is Some
    &&& is_shortest_numeral(fields[0])
    &&& is_shortest_numeral(fields[1])
    &&& is_shortest_numeral(fields[2])
    &&& is_shortest_numeral(fields[3])
}

/// The bytes of a 32-bit value are octets, and packing them gives the value
/// back.
pub proof fn lemma_pack_octets_of(value: u32)
    ensures
        octet(value, 0) <= 255,
        octet(value, 1) <= 255,
        octet(value, 2) <= 255,
        octet(value, 3) <= 255,
        pack_octets(octet(value, 0), octet(value, 1), octet(value, 2), octet(value, 3)) == value,
{
}

/// Four octets packed fit in 32 bits, and each is found again at its place.
pub proof fn lemma_octets_of_pack(a: nat, b: nat, c: nat, d: nat)
    requires
        a <= 255,
        b <= 255,
        c <= 255,
        d <= 255,
    ensures
        pack_octets(a, b, c, d) <= u32::MAX,
        octet(pack_octets(a, b, c, d) as u32, 0) == a,
        octet(pack_octets(a, b, c, d) as u32, 1) == b,
        octet(pack_octets(a, b, c, d) as u32, 2) == c,
        octet(pack_octets(a, b, c, d) as u32, 3) == d,
{
    let (a, b, c, d) = (a as int, b as int, c as int, d as int);
    let p = a * 0x100_0000 + b * 0x1_0000 + c * 0x100 + d;
    lemma_fundamental_div_mod_converse(p, 0x100_0000, a, b * 0x1_0000 + c * 0x100 + d);
    lemma_fundamental_div_mod_converse(p, 0x1_0000, a * 0x100 + b, c * 0x100 + d);
    lemma_fundamental_div_mod_converse(a * 0x100 + b, 0x100, a, b);
    lemma_fundamental_div_mod_converse(p, 0x100, a * 0x1_0000 + b * 0x100 + c, d);
    lemma_fundamental_div_mod_converse(a * 0x1_0000 + b * 0x100 + c, 0x100, a * 0x100 + b, c);
}

/// A sequence of digits holds no dot.
pub proof fn lemma_digits_hold_no_dot(s: Seq<char>)
    requires
        all_digits(s),
    ensures
        !s.contains('.'),
{
    if s.contains('.') {
        let i = choose|i: int| 0 <= i < s.len() && s[i] == '.';
        assert(is_digit(s[i]));
    }
}

/// Four fields without a dot, joined by dots, split into just these fields.
pub proof fn lemma_split_dotted(a: Seq<char>, b: Seq<char>, c: Seq<char>, d: Seq<char>)
    requires
        !a.contains('.'),
        !b.contains('.'),
        !c.contains('.'),
        !d.contains('.'),
    ensures
        split(dotted(a, b, c, d), '.') == seq![a, b, c, d],
{
    let dot = seq!['.'];
    let tail_c = c + dot + d;
    let tail_b = b + dot + tail_c;
    assert(dotted(a, b, c, d) == a + dot + tail_b);
    lemma_split_cons(a, tail_b, '.');
    lemma_split_cons(b, tail_c, '.');
    lemma_split_cons(c, d, '.');
    lemma_split_single(d, '.');
    assert(seq![a] + (seq![b] + (seq![c] + seq![d])) == seq![a, b, c, d]);
}

/// A string of four fields is these fields joined by dots.
pub proof fn lemma_dotted_fields(s: Seq<char>)
    requires
        split(s, '.').len() == 4,
    ensures
        s == dotted(split(s, '.')[0], split(s, '.')[1], split(s, '.')[2], split(s, '.')[3]),
{
    let f = split(s, '.');
    lemma_join_split(s, '.');
    let f1 = f.skip(1);
    let f2 = f1.skip(1);
    let f3 = f2.skip(1);
    assert(join(f, '.') == f[0] + seq!['.'] + join(f1, '.'));
    assert(join(f1, '.') == f1[0] + seq!['.'] + join(f2, '.'));
    assert(join(f2, '.') == f2[0] + seq!['.'] + join(f3, '.'));
    assert(join(f3, '.') == f3[0]);
    assert(f[0] + seq!['.'] + (f[1] + seq!['.'] + (f[2] + seq!['.'] + f[3])) == dotted(
        f[0],
        f[1],
        f[2],
        f[3],
    ));
}

/// Dotted-decimal text is made of digits and dots, holds a dot, and begins
/// and ends with a digit.
pub proof fn lemma_dotted_text_chars(value: u32)
    ensures
        dotted_text(value).contains('.'),
        dotted_text(value).len() >= 7,
        is_digit(dotted_text(value)[0]),
        is_digit(dotted_text(value).last()),
        forall|i: int|
            0 <= i < dotted_text(value).len() ==> is_digit(#[trigger] dotted_text(value)[i])
                || dotted_text(value)[i] == '.',
{
    let a = decimal_digits(octet(value, 0));
    let b = decimal_digits(octet(value, 1));
    let c = decimal_digits(octet(value, 2));
    let d = decimal_digits(octet(value, 3));
    lemma_decimal_digits(octet(value, 0));
    lemma_decimal_digits(octet(value, 1));
    lemma_decimal_digits(octet(value, 2));
    lemma_decimal_digits(octet(value, 3));
    let t = dotted_text(value);
    assert(t[a.len() as int] == '.');
    assert(t[0] == a[0]);
    assert(t.last() == d.last());
    assert forall|i: int| 0 <= i < t.len() implies is_digit(#[trigger] t[i]) || t[i] == '.' by {
        let ab = a.len() + 1 + b.len();
        let abc = ab + 1 + c.len();
        if i < a.len() {
            assert(t[i] == a[i]);
        } else if i == a.len() {
        } else if i < ab {
            assert(t[i] == b[i - a.len() - 1]);
        } else if i == ab {
        } else if i < abc {
            assert(t[i] == c[i - ab - 1]);
        } else if i == abc {
        } else {
            assert(t[i] == d[i - abc - 1]);
        }
    }
}

/// Rendering is a right inverse of parsing: the dotted-decimal text of any
/// value denotes that value.
pub proof fn lemma_parse_rendered(value: u32)
    ensures
        dotted_value(dotted_text(value)) == Some(value),
        is_normal_dotted(dotted_text(value)),
{
    let a = decimal_digits(octet(value, 0));
    let b = decimal_digits(octet(value, 1));
    let c = decimal_digits(octet(value, 2));
    let d = decimal_digits(octet(value, 3));
    lemma_pack_octets_of(value);
    lemma_decimal_digits(octet(value, 0));
    lemma_decimal_digits(octet(value, 1));
    lemma_decimal_digits(octet(value, 2));
    lemma_decimal_digits(octet(value, 3));
    lemma_digits_hold_no_dot(a);
    lemma_digits_hold_no_dot(b);
    lemma_digits_hold_no_dot(c);
    lemma_digits_hold_no_dot(d);
    lemma_split_dotted(a, b, c, d);
    let fields = split(dotted_text(value), '.');
    assert(fields[0] == a && fields[1] == b && fields[2] == c && fields[3] == d);
}

/// Parsing then rendering normalizes: the text of the value that `s`
/// denotes is `s` with every field written as its shortest numeral.
pub proof fn lemma_render_parsed(s: Seq<char>)
    requires
        dotted_value(s) is Some,
    ensures
        dotted_text(dotted_value(s)->0) == normalized_dotted(s),
{
    let f = split(s, '.');
    lemma_octets_of_pack(
        octet_value(f[0])->0,
        octet_value(f[1])->0,
        octet_value(f[2])->0,
        octet_value(f[3])->0,
    );
}

/// On text in normal form, rendering is a left inverse of parsing: the text
/// of the value that `s` denotes is `s` itself.
pub proof fn lemma_render_parsed_normal(s: Seq<char>)
    requires
        is_normal_dotted(s),
    ensures
        dotted_text(dotted_value(s)->0) == s,
{
    let f = split(s, '.');
    lemma_render_parsed(s);
    lemma_shortest_numeral(f[0]);
    lemma_shortest_numeral(f[1]);
    lemma_shortest_numeral(f[2]);
    lemma_shortest_numeral(f[3]);
    lemma_shortest_unsigned(f[0]);
    lemma_shortest_unsigned(f[1]);
    lemma_shortest_unsigned(f[2]);
    lemma_shortest_unsigned(f[3]);
    lemma_dotted_fields(s);
}

/// A shortest numeral carries no sign.
proof fn lemma_shortest_unsigned(s: Seq<char>)
    requires
        is_shortest_numeral(s),
    ensures
        unsigned_digits(s) == s,
{
    assert(is_digit(s[0]));
}

/// Reads `chars` as dotted-decimal notation.
pub fn parse_octet_fields(chars: &[char]) -> (value: Option<u32>)
    ensures
        value == dotted_value(chars@),
{
    let fields = split_fields(chars, '.');
    if fields.len() != 4 {
        return None;
    }
    let a = match parse_bounded(fields[0], 255) {
        Some(a) => a,
        None => return None,
    };
    let b = match parse_bounded(fields[1], 255) {
        Some(b) => b,
        None => return None,
    };
    let c = match parse_bounded(fields[2], 255) {
        Some(c) => c,
        None => return None,
    };
    let d = match parse_bounded(fields[3], 255) {
        Some(d) => d,
        None => return None,
    };
    Some(a * 0x100_0000 + b * 0x1_0000 + c * 0x100 + d)
}

/// Reads `s` as dotted-decimal notation: exactly four fields between dots,
/// each a numeral from 0 to 255, the first being the most significant byte.
pub fn parse_octets(s: &str) -> (value: Option<u32>)
    ensures
        value == dotted_value(s@),
{
    let chars = chars_of(s);
    parse_octet_fields(chars.as_slice())
}

/// Writes `value` in dotted-decimal notation.
pub fn dotted_string(value: u32) -> (s: String)
    ensures
        s@ == dotted_text(value),
{
    proof {
        reveal_strlit(".");
    }
    let mut s = String::new();
    push_decimal(&mut s, value / 0x100_0000);
    s.append(".");
    push_decimal(&mut s, value / 0x1_0000 % 0x100);
    s.append(".");
    push_decimal(&mut s, value / 0x100 % 0x100);
    s.append(".");
    push_decimal(&mut s, value % 0x100);
    proof {
        assert("."@ == seq!['.']);
        assert(s@ == dotted_text(value));
    }
    s
}

} // verus!
