//! Character sequences: fields between separators, and surrounding whitespace.
//!
//! Strings are modelled by their view, a `Seq<char>`. The executable
//! functions work on a slice of characters and report fields as slices of it.

use vstd::prelude::*;
use vstd::slice::slice_subrange;

verus! {

/// The position of the first occurrence of `c` in `s`, or `s.len()` when `c`
/// does not occur.
pub open spec fn first_index(s: Seq<char>, c: char) -> int
    decreases s.len(),
{
    if s.len() == 0 || s[0] == c {
        0
    } else {
        1 + first_index(s.skip(1), c)
    }
}

/// The fields of `s` between occurrences of `sep`, in order. A string
/// without separator is its own single field; `n` separators give `n + 1`
/// fields, some of which may be empty.
pub open spec fn split(s: Seq<char>, sep: char) -> Seq<Seq<char>>
    decreases s.len(),
{
    let i = first_index(s, sep);
    if 0 <= i < s.len() {
        seq![s.take(i)] + split(s.skip(i + 1), sep)
    } else {
        seq![s]
    }
}

/// The fields of `s` joined again, with `sep` between neighbours.
pub open spec fn join(fields: Seq<Seq<char>>, sep: char) -> Seq<char>
    decreases fields.len(),
{
    if fields.len() == 0 {
        Seq::empty()
    } else if fields.len() == 1 {
        fields[0]
    } else {
        fields[0] + seq![sep] + join(fields.skip(1), sep)
    }
}

/// Whether `c` is whitespace: a character with the Unicode property
/// `White_Space`.
pub open spec fn is_space(c: char) -> bool {
    let u = c as u32;
    ||| 0x09 <= u <= 0x0d
    ||| u == 0x20
    ||| u == 0x85
    ||| u == 0xa0
    ||| u == 0x1680
    ||| 0x2000 <= u <= 0x200a
    ||| u == 0x2028
    ||| u == 0x2029
    ||| u == 0x202f
    ||| u == 0x205f
    ||| u == 0x3000
}

/// `s` without its leading whitespace.
pub open spec fn trim_start(s: Seq<char>) -> Seq<char>
    decreases s.len(),
{
    if s.len() > 0 && is_space(s[0]) {
        trim_start(s.skip(1))
    } else {
        s
    }
}

/// `s` without its trailing whitespace.
pub open spec fn trim_end(s: Seq<char>) -> Seq<char>
    decreases s.len(),
{
    if s.len() > 0 && is_space(s.last()) {
        trim_end(s.drop_last())
    } else {
        s
    }
}

/// `s` without leading and trailing whitespace.
pub open spec fn trim(s: Seq<char>) -> Seq<char> {
    trim_end(trim_start(s))
}

/// `first_index` is the one position before which `c` does not occur and at
/// which, unless it is the end, `c` stands.
pub proof fn lemma_first_index(s: Seq<char>, c: char, i: int)
    requires
        0 <= i <= s.len(),
        forall|j: int| 0 <= j < i ==> s[j] != c,
        i < s.len() ==> s[i] == c,
    ensures
        first_index(s, c) == i,
    decreases s.len(),
{
    if i > 0 {
        let rest = s.skip(1);
        assert forall|j: int| 0 <= j < i - 1 implies rest[j] != c by {
            assert(rest[j] == s[j + 1]);
        }
        lemma_first_index(rest, c, i - 1);
    }
}

/// `first_index` lies within `0..=s.len()`, nothing before it is `c`, and `c`
/// stands at it unless it is the end.
pub proof fn lemma_first_index_bounds(s: Seq<char>, c: char)
    ensures
        0 <= first_index(s, c) <= s.len(),
        forall|j: int| 0 <= j < first_index(s, c) ==> s[j] != c,
        first_index(s, c) < s.len() ==> s[first_index(s, c)] == c,
        first_index(s, c) == s.len() <==> !s.contains(c),
    decreases s.len(),
{
    if s.len() == 0 || s[0] == c {
    } else {
        let rest = s.skip(1);
        lemma_first_index_bounds(rest, c);
        let i = first_index(s, c);
        assert forall|j: int| 0 <= j < i implies s[j] != c by {
            if j > 0 {
                assert(rest[j - 1] == s[j]);
            }
        }
        if i < s.len() {
            assert(rest[i - 1] == s[i]);
        }
    }
}

/// A string in which `sep` does not occur is a single field.
pub proof fn lemma_split_single(s: Seq<char>, sep: char)
    requires
        !s.contains(sep),
    ensures
        split(s, sep) == seq![s],
{
    lemma_first_index_bounds(s, sep);
}

/// Splitting `head`, a separator and `tail`, where `sep` does not occur in
/// `head`, gives `head` followed by the fields of `tail`.
pub proof fn lemma_split_cons(head: Seq<char>, tail: Seq<char>, sep: char)
    requires
        !head.contains(sep),
    ensures
        split(head + seq![sep] + tail, sep) == seq![head] + split(tail, sep),
{
    let s = head + seq![sep] + tail;
    let i = head.len() as int;
    assert forall|j: int| 0 <= j < i implies s[j] != sep by {
        assert(s[j] == head[j]);
        assert(head.contains(head[j]));
    }
    assert(s[i] == sep);
    lemma_first_index(s, sep, i);
    assert(s.take(i) == head);
    assert(s.skip(i + 1) == tail);
}

/// Every string has at least one field, and no field holds the separator.
pub proof fn lemma_split_fields(s: Seq<char>, sep: char)
    ensures
        split(s, sep).len() >= 1,
        forall|k: int| 0 <= k < split(s, sep).len() ==> !(#[trigger] split(s, sep)[k]).contains(sep),
    decreases s.len(),
{
    lemma_first_index_bounds(s, sep);
    let i = first_index(s, sep);
    if 0 <= i < s.len() {
        let rest = split(s.skip(i + 1), sep);
        lemma_split_fields(s.skip(i + 1), sep);
        assert forall|k: int| 0 <= k < split(s, sep).len() implies !(#[trigger] split(
            s,
            sep,
        )[k]).contains(sep) by {
            if k == 0 {
                lemma_no_occurrence(s.take(i), sep);
            } else {
                assert(split(s, sep)[k] == rest[k - 1]);
            }
        }
    }
}

/// A sequence none of whose elements is `c` does not contain `c`.
proof fn lemma_no_occurrence(s: Seq<char>, c: char)
    requires
        forall|j: int| 0 <= j < s.len() ==> s[j] != c,
    ensures
        !s.contains(c),
{
}

/// Joining the fields of a string gives the string back.
pub proof fn lemma_join_split(s: Seq<char>, sep: char)
    ensures
        join(split(s, sep), sep) == s,
    decreases s.len(),
{
    lemma_first_index_bounds(s, sep);
    let i = first_index(s, sep);
    if 0 <= i < s.len() {
        let tail = s.skip(i + 1);
        lemma_join_split(tail, sep);
        lemma_split_fields(tail, sep);
        let fields = split(s, sep);
        assert(fields.skip(1) == split(tail, sep));
        assert(s == s.take(i) + seq![sep] + tail);
    }
}

/// Trimming leaves alone a string that neither begins nor ends with
/// whitespace.
pub proof fn lemma_trim_unchanged(s: Seq<char>)
    requires
        s.len() > 0 ==> !is_space(s[0]) && !is_space(s.last()),
    ensures
        trim(s) == s,
{
}

/// The characters of `s`, in order.
pub fn chars_of(s: &str) -> (chars: Vec<char>)
    ensures
        chars@ == s@,
{
    let mut chars: Vec<char> = Vec::new();
    for c in it: s.chars()
        invariant
            it.seq() == s@,
            chars@ == it.seq().take(it.index()),
    {
        chars.push(c);
    }
    chars
}

/// Whether `c` occurs in `chars`.
pub fn contains_char(chars: &[char], c: char) -> (found: bool)
    ensures
        found == chars@.contains(c),
{
    let i = find_char(chars, 0, c);
    proof {
        if i < chars@.len() {
            assert(chars@.contains(chars@[i as int]));
        }
    }
    i < chars.len()
}

/// The first position at or after `from` at which `c` stands, or the length
/// of `chars` when there is none.
fn find_char(chars: &[char], from: usize, c: char) -> (at: usize)
    requires
        from <= chars@.len(),
    ensures
        from <= at <= chars@.len(),
        at - from == first_index(chars@.skip(from as int), c),
        forall|j: int| from <= j < at ==> chars@[j] != c,
        at < chars@.len() ==> chars@[at as int] == c,
{
    let mut at: usize = from;
    while at < chars.len() && chars[at] != c
        invariant
            from <= at <= chars@.len(),
            forall|j: int| from <= j < at ==> chars@[j] != c,
        decreases chars@.len() - at,
    {
        at += 1;
    }
    proof {
        let rest = chars@.skip(from as int);
        assert forall|j: int| 0 <= j < at - from implies rest[j] != c by {
            assert(rest[j] == chars@[from + j]);
        }
        lemma_first_index(rest, c, at - from);
    }
    at
}

/// The fields of `chars` between occurrences of `sep`, each as a slice of
/// `chars`.
pub fn split_fields<'a>(chars: &'a [char], sep: char) -> (fields: Vec<&'a [char]>)
    ensures
        fields@.len() == split(chars@, sep).len(),
        forall|k: int| 0 <= k < fields@.len() ==> (#[trigger] fields@[k])@ == split(chars@, sep)[k],
{
    let mut fields: Vec<&'a [char]> = Vec::new();
    let mut start: usize = 0;
    proof {
        assert(chars@.skip(0) == chars@);
        assert(Seq::new(0, |k: int| fields@[k]@) + split(chars@, sep) == split(chars@, sep));
    }
    loop
        invariant_except_break
            start <= chars@.len(),
            split(chars@, sep) == Seq::new(fields@.len(), |k: int| fields@[k]@) + split(
                chars@.skip(start as int),
                sep,
            ),
        ensures
            split(chars@, sep) == Seq::new(fields@.len(), |k: int| fields@[k]@),
        decreases chars@.len() - start,
    {
        let ghost before = Seq::new(fields@.len(), |k: int| fields@[k]@);
        let ghost rest = chars@.skip(start as int);
        let end = find_char(chars, start, sep);
        let field = slice_subrange(chars, start, end);
        fields.push(field);
        proof {
            assert(rest.take(end - start) == chars@.subrange(start as int, end as int));
            assert(Seq::new(fields@.len(), |k: int| fields@[k]@) == before + seq![field@]);
        }
        if end == chars.len() {
            proof {
                assert(rest.take(end - start) == rest);
            }
            break ;
        }
        proof {
            assert(rest.skip(end - start + 1) == chars@.skip(end + 1));
        }
        start = end + 1;
    }
    fields
}

/// Whether `c` is whitespace.
pub fn char_is_space(c: char) -> (space: bool)
    ensures
        space == is_space(c),
{
    let u = c as u32;
    (0x09 <= u && u <= 0x0d) || u == 0x20 || u == 0x85 || u == 0xa0 || u == 0x1680 || (0x2000 <= u
        && u <= 0x200a) || u == 0x2028 || u == 0x2029 || u == 0x202f || u == 0x205f || u == 0x3000
}

/// The part of `chars` between its leading and its trailing whitespace.
pub fn trim_slice<'a>(chars: &'a [char]) -> (trimmed: &'a [char])
    ensures
        trimmed@ == trim(chars@),
{
    let mut start: usize = 0;
    proof {
        assert(chars@.skip(0) == chars@);
    }
    while start < chars.len() && char_is_space(chars[start])
        invariant
            start <= chars@.len(),
            trim_start(chars@) == trim_start(chars@.skip(start as int)),
        decreases chars@.len() - start,
    {
        proof {
            assert(chars@.skip(start as int).skip(1) == chars@.skip(start + 1));
        }
        start += 1;
    }
    let mut end: usize = chars.len();
    while end > start && char_is_space(chars[end - 1])
        invariant
            start <= end <= chars@.len(),
            trim_start(chars@) == chars@.skip(start as int),
            trim(chars@) == trim_end(chars@.subrange(start as int, end as int)),
        decreases end - start,
    {
        proof {
            assert(chars@.subrange(start as int, end as int).drop_last() == chars@.subrange(
                start as int,
                end - 1,
            ));
        }
        end -= 1;
    }
    slice_subrange(chars, start, end)
}

} // verus!
