//! Unsigned decimal numerals: reading them with a bound, and writing them.
//!
//! A numeral is an optional `+` followed by one or more of the digits `0` to
//! `9`. Leading zeros are allowed when reading and never written.

use vstd::prelude::*;
use vstd::string::*;

verus! {

/// Whether `c` is one of the digits `0` to `9`.
pub open spec fn is_digit(c: char) -> bool {
    '0' <= c <= '9'
}

/// The number that the digit `c` stands for; `0` for any other character.
pub open spec fn digit_value(c: char) -> nat {
    if is_digit(c) {
        (c as u32 - '0' as u32) as nat
    } else {
        0
    }
}

/// The digit that stands for `d`, for `d < 10`.
pub open spec fn digit_char(d: nat) -> char {
    if d == 0 {
        '0'
    } else if d == 1 {
        '1'
    } else if d == 2 {
        '2'
    } else if d == 3 {
        '3'
    } else if d == 4 {
        '4'
    } else if d == 5 {
        '5'
    } else if d == 6 {
        '6'
    } else if d == 7 {
        '7'
    } else if d == 8 {
        '8'
    } else {
        '9'
    }
}

/// Whether `s` consists of digits only.
pub open spec fn all_digits(s: Seq<char>) -> bool {
    forall|i: int| 0 <= i < s.len() ==> is_digit(#[trigger] s[i])
}

/// The number that the digits of `s` denote in base ten, the first digit
/// being the most significant. The empty sequence denotes `0`.
pub open spec fn decimal_value(s: Seq<char>) -> nat
    decreases s.len(),
{
    if s.len() == 0 {
        0
    } else {
        10 * decimal_value(s.drop_last()) + digit_value(s.last())
    }
}

/// `s` without the `+` that may stand in front of a numeral.
pub open spec fn unsigned_digits(s: Seq<char>) -> Seq<char> {
    if s.len() > 0 && s[0] == '+' {
        s.skip(1)
    } else {
        s
    }
}

/// Whether `s` is a numeral: an optional `+`, then at least one digit and
/// nothing else.
pub open spec fn is_numeral(s: Seq<char>) -> bool {
    unsigned_digits(s).len() > 0 && all_digits(unsigned_digits(s))
}

/// The value of the numeral `s` where it is at most `limit`; `None` where
/// `s` is no numeral or denotes a larger number.
pub open spec fn bounded_value(s: Seq<char>, limit: nat) -> Option<nat> {
    if is_numeral(s) && decimal_value(unsigned_digits(s)) <= limit {
        Some(decimal_value(unsigned_digits(s)))
    } else {
        None
    }
}

/// The shortest numeral for `n`: its decimal digits without sign or leading
/// zeros.
pub open spec fn decimal_digits(n: nat) -> Seq<char>
    decreases n,
{
    if n < 10 {
        seq![digit_char(n)]
    } else {
        decimal_digits(n / 10).push(digit_char(n % 10))
    }
}

/// Whether `s` is the shortest numeral for its value: digits only, at least
/// one, and no leading zero but in `0` itself.
pub open spec fn is_shortest_numeral(s: Seq<char>) -> bool {
    &&& s.len() > 0
    &&& all_digits(s)
    &&& s.len() > 1 ==> s[0] != '0'
}

/// A digit's character and value determine each other.
pub proof fn lemma_digit_char_value(d: nat)
    requires
        d < 10,
    ensures
        is_digit(digit_char(d)),
        digit_value(digit_char(d)) == d,
{
}

/// The character of a digit's value is the digit.
pub proof fn lemma_digit_value_char(c: char)
    requires
        is_digit(c),
    ensures
        digit_value(c) < 10,
        digit_char(digit_value(c)) == c,
{
    let u = c as u32;
    assert(0x30 <= u <= 0x39);
    if u == 0x30 {
        assert(c == '0');
    } else if u == 0x31 {
        assert(c == '1');
    } else if u == 0x32 {
        assert(c == '2');
    } else if u == 0x33 {
        assert(c == '3');
    } else if u == 0x34 {
        assert(c == '4');
    } else if u == 0x35 {
        assert(c == '5');
    } else if u == 0x36 {
        assert(c == '6');
    } else if u == 0x37 {
        assert(c == '7');
    } else if u == 0x38 {
        assert(c == '8');
    } else {
        assert(c == '9');
    }
}

/// Digits that follow never lower a value: a prefix denotes at most what the
/// whole sequence denotes.
pub proof fn lemma_decimal_value_prefix(s: Seq<char>, k: int)
    requires
        0 <= k <= s.len(),
    ensures
        decimal_value(s.take(k)) <= decimal_value(s),
    decreases s.len(),
{
    if k == s.len() {
        assert(s.take(k) == s);
    } else {
        lemma_decimal_value_prefix(s.drop_last(), k);
        assert(s.drop_last().take(k) == s.take(k));
    }
}

/// The digits written for `n` are a numeral, the shortest one, and denote
/// `n`.
pub proof fn lemma_decimal_digits(n: nat)
    ensures
        is_shortest_numeral(decimal_digits(n)),
        unsigned_digits(decimal_digits(n)) == decimal_digits(n),
        is_numeral(decimal_digits(n)),
        decimal_value(decimal_digits(n)) == n,
        n > 0 ==> decimal_digits(n)[0] != '0',
    decreases n,
{
    let s = decimal_digits(n);
    if n < 10 {
        lemma_digit_char_value(n);
        assert(s.drop_last() == Seq::<char>::empty());
        assert(decimal_value(s) == 10 * decimal_value(s.drop_last()) + digit_value(s.last()));
    } else {
        lemma_decimal_digits(n / 10);
        lemma_digit_char_value(n % 10);
        let front = decimal_digits(n / 10);
        assert(s.drop_last() == front);
        assert(s[0] == front[0]);
        assert forall|i: int| 0 <= i < s.len() implies is_digit(#[trigger] s[i]) by {
            if i < front.len() {
                assert(s[i] == front[i]);
            }
        }
    }
}

/// Reading and writing again gives a shortest numeral back unchanged.
pub proof fn lemma_shortest_numeral(s: Seq<char>)
    requires
        is_shortest_numeral(s),
    ensures
        decimal_digits(decimal_value(s)) == s,
        s.len() > 1 ==> decimal_value(s) >= 10,
        s[0] != '0' ==> decimal_value(s) > 0,
    decreases s.len(),
{
    let front = s.drop_last();
    lemma_digit_value_char(s.last());
    if s.len() == 1 {
        assert(front == Seq::<char>::empty());
        assert(decimal_value(front) == 0);
        assert(decimal_digits(digit_value(s.last())) == seq![s.last()]);
        assert(seq![s.last()] == s);
        if s[0] != '0' {
            assert(s[0] as u32 != 0x30);
        }
    } else {
        assert(front[0] == s[0]);
        assert forall|i: int| 0 <= i < front.len() implies is_digit(#[trigger] front[i]) by {
            assert(front[i] == s[i]);
        }
        lemma_shortest_numeral(front);
        let v = decimal_value(s);
        assert(v == 10 * decimal_value(front) + digit_value(s.last()));
        assert(v / 10 == decimal_value(front));
        assert(v % 10 == digit_value(s.last()));
        assert(front.push(s.last()) == s);
    }
}

/// Reads the numeral `chars` and returns its value where that is at most
/// `limit`.
pub fn parse_bounded(chars: &[char], limit: u32) -> (value: Option<u32>)
    ensures
        match value {
            Some(v) => bounded_value(chars@, limit as nat) == Some(v as nat),
            None => bounded_value(chars@, limit as nat) is None,
        },
{
    let len = chars.len();
    let first: usize = if len > 0 && chars[0] == '+' {
        1
    } else {
        0
    };
    if first == len {
        return None;
    }
    let ghost digits = unsigned_digits(chars@);
    let mut value: u32 = 0;
    let mut i: usize = first;
    proof {
        assert(digits == chars@.skip(first as int));
        assert(digits.take(0) == Seq::<char>::empty());
    }
    while i < len
        invariant
            first <= i <= len,
            len == chars@.len(),
            digits == chars@.skip(first as int),
            digits == unsigned_digits(chars@),
            all_digits(digits.take(i - first)),
            value == decimal_value(digits.take(i - first)),
            value <= limit,
        decreases len - i,
    {
        let c = chars[i];
        let ghost seen = digits.take(i - first);
        let ghost next = digits.take(i - first + 1);
        proof {
            assert(digits[i - first] == c);
            assert(next.drop_last() == seen);
            assert(next.last() == c);
        }
        if !('0' <= c && c <= '9') {
            proof {
                assert(!is_digit(digits[i - first]));
            }
            return None;
        }
        let wider: u64 = value as u64 * 10 + (c as u32 - '0' as u32) as u64;
        proof {
            assert(decimal_value(next) == 10 * decimal_value(seen) + digit_value(c));
            assert(wider == decimal_value(next));
        }
        if wider > limit as u64 {
            proof {
                lemma_decimal_value_prefix(digits, i - first + 1);
            }
            return None;
        }
        proof {
            assert forall|j: int| 0 <= j < next.len() implies is_digit(#[trigger] next[j]) by {
                if j < seen.len() {
                    assert(next[j] == seen[j]);
                }
            }
        }
        value = wider as u32;
        i += 1;
    }
    proof {
        assert(digits.take(len - first) == digits);
    }
    Some(value)
}

/// The one-character string that holds the digit for `d`.
fn digit_str(d: u32) -> (s: &'static str)
    requires
        d < 10,
    ensures
        s@ == seq![digit_char(d as nat)],
{
    proof {
        reveal_strlit("0");
        reveal_strlit("1");
        reveal_strlit("2");
        reveal_strlit("3");
        reveal_strlit("4");
        reveal_strlit("5");
        reveal_strlit("6");
        reveal_strlit("7");
        reveal_strlit("8");
        reveal_strlit("9");
    }
    let s = if d == 0 {
        "0"
    } else if d == 1 {
        "1"
    } else if d == 2 {
        "2"
    } else if d == 3 {
        "3"
    } else if d == 4 {
        "4"
    } else if d == 5 {
        "5"
    } else if d == 6 {
        "6"
    } else if d == 7 {
        "7"
    } else if d == 8 {
        "8"
    } else {
        "9"
    };
    assert(s@ =~= seq![digit_char(d as nat)]);
    s
}

/// Appends the shortest numeral for `n` to `out`.
pub fn push_decimal(out: &mut String, n: u32)
    ensures
        final(out)@ == old(out)@ + decimal_digits(n as nat),
    decreases n,
{
    if n >= 10 {
        push_decimal(out, n / 10);
    }
    out.append(digit_str(n % 10));
    proof {
        if n >= 10 {
            assert(old(out)@ + decimal_digits((n / 10) as nat) + seq![digit_char((n % 10) as nat)]
                == old(out)@ + decimal_digits((n / 10) as nat).push(digit_char((n % 10) as nat)));
        }
    }
}

/// The shortest numeral for `n`.
pub fn decimal_string(n: u32) -> (s: String)
    ensures
        s@ == decimal_digits(n as nat),
{
    let mut s = String::new();
    push_decimal(&mut s, n);
    assert(Seq::<char>::empty() + decimal_digits(n as nat) == decimal_digits(n as nat));
    s
}

} // verus!
