//! Characters and strings: the plain sequences that the rest of the library works on.

use vstd::prelude::*;

verus! {

/// What `str::to_lowercase` returns for a string of these characters.
pub uninterp spec fn lowercased(s: Seq<char>) -> Seq<char>;

/// Whether `char::is_whitespace` holds of a character.
pub uninterp spec fn is_whitespace(c: char) -> bool;

/// Whether `char::is_control` holds of a character.
pub uninterp spec fn is_control(c: char) -> bool;

/// Calls `str::to_lowercase`: the lowercase equivalent of `s` as a new string, by
/// the Unicode rules that the standard library follows. The contract only names
/// the result.
#[verifier::external_body]
pub(crate) fn to_lowercase(s: &str) -> (out: String)
    ensures
        out@ == lowercased(s@),
{
    s.to_lowercase()
}

/// Calls `char::is_whitespace`: whether `c` has the Unicode property White_Space.
/// The contract only names the result.
#[verifier::external_body]
pub(crate) fn char_is_whitespace(c: char) -> (out: bool)
    ensures
        out == is_whitespace(c),
{
    c.is_whitespace()
}

/// Calls `String::push`: appends one character to the end of `s`.
#[verifier::external_body]
pub(crate) fn push_char(s: &mut String, c: char)
    ensures
        final(s)@ == old(s)@.push(c),
{
    s.push(c)
}

/// Calls `char::is_control`: whether `c` has the general category of control
/// codes. The contract only names the result.
#[verifier::external_body]
pub(crate) fn char_is_control(c: char) -> (out: bool)
    ensures
        out == is_control(c),
{
    c.is_control()
}

/// Calls `String::pop`: removes the last character of `s` and returns it, or
/// returns `None` and leaves `s` empty where it was empty.
#[verifier::external_body]
pub(crate) fn pop_char(s: &mut String) -> (out: Option<char>)
    ensures
        match out {
            Some(c) => old(s)@.len() > 0 && c == old(s)@.last() && final(s)@ == old(s)@.drop_last(),
            None => old(s)@.len() == 0 && final(s)@ == old(s)@,
        },
{
    s.pop()
}

/// The characters of `s`, in order.
pub fn chars_of(s: &str) -> (v: Vec<char>)
    ensures
        v@ == s@,
{
    let mut v: Vec<char> = Vec::new();
    for c in it: s.chars()
        invariant
            it.seq() == s@,
            v@ == it.seq().take(it.index() as int),
    {
        v.push(c);
    }
    v
}

/// The string made of the characters `chars[from..to]`.
pub fn string_of(chars: &[char], from: usize, to: usize) -> (s: String)
    requires
        from <= to <= chars@.len(),
    ensures
        s@ == chars@.subrange(from as int, to as int),
{
    let mut s = String::new();
    let mut i: usize = from;
    while i < to
        invariant
            from <= i <= to <= chars@.len(),
            s@ == chars@.subrange(from as int, i as int),
        decreases to - i,
    {
        push_char(&mut s, chars[i]);
        i += 1;
        assert(chars@.subrange(from as int, i as int) == chars@.subrange(from as int, i - 1).push(
            chars@[i - 1],
        ));
    }
    s
}

/// `s` without the whitespace at its start.
pub open spec fn trim_start(s: Seq<char>) -> Seq<char>
    decreases s.len(),
{
    if s.len() > 0 && is_whitespace(s[0]) {
        trim_start(s.drop_first())
    } else {
        s
    }
}

/// `s` without the whitespace at its end.
pub open spec fn trim_end(s: Seq<char>) -> Seq<char>
    decreases s.len(),
{
    if s.len() > 0 && is_whitespace(s.last()) {
        trim_end(s.drop_last())
    } else {
        s
    }
}

/// `s` without the whitespace at its start and at its end.
pub open spec fn trimmed(s: Seq<char>) -> Seq<char> {
    trim_end(trim_start(s))
}

/// Index of the first `c` in `s`, or the length of `s` where it holds none.
pub open spec fn find(s: Seq<char>, c: char) -> int
    decreases s.len(),
{
    if s.len() == 0 || s[0] == c {
        0
    } else {
        1 + find(s.drop_first(), c)
    }
}

/// A position before which `c` does not occur, and at which it does or the
/// sequence ends, is where `find` points.
proof fn lemma_find_is(s: Seq<char>, c: char, at: int)
    requires
        0 <= at <= s.len(),
        forall|j: int| 0 <= j < at ==> s[j] != c,
        at == s.len() || s[at] == c,
    ensures
        find(s, c) == at,
    decreases s.len(),
{
    if at > 0 {
        assert(s[0] != c);
        assert forall|j: int| 0 <= j < at - 1 implies s.drop_first()[j] != c by {
            assert(s.drop_first()[j] == s[j + 1]);
        }
        lemma_find_is(s.drop_first(), c, at - 1);
    }
}

/// The first `c` in `chars[from..to]`, or `to`.
pub(crate) fn find_char(chars: &Vec<char>, from: usize, to: usize, c: char) -> (at: usize)
    requires
        from <= to <= chars@.len(),
    ensures
        from <= at <= to,
        at - from == find(chars@.subrange(from as int, to as int), c),
{
    let mut at: usize = from;
    while at < to && chars[at] != c
        invariant
            from <= at <= to <= chars@.len(),
            forall|j: int| from <= j < at ==> chars@[j] != c,
        decreases to - at,
    {
        at += 1;
    }
    proof {
        lemma_find_is(chars@.subrange(from as int, to as int), c, at - from);
    }
    at
}

/// The part of `chars[from..to]` that is left when the whitespace at both ends
/// is taken off.
pub(crate) fn trim_range(chars: &Vec<char>, from: usize, to: usize) -> (part: (usize, usize))
    requires
        from <= to <= chars@.len(),
    ensures
        from <= part.0 <= part.1 <= to,
        chars@.subrange(part.0 as int, part.1 as int) == trimmed(
            chars@.subrange(from as int, to as int),
        ),
{
    let mut a: usize = from;
    while a < to && char_is_whitespace(chars[a])
        invariant
            from <= a <= to <= chars@.len(),
            trim_start(chars@.subrange(from as int, to as int)) == trim_start(
                chars@.subrange(a as int, to as int),
            ),
        decreases to - a,
    {
        assert(chars@.subrange(a as int, to as int).drop_first() == chars@.subrange(
            a + 1,
            to as int,
        ));
        a += 1;
    }
    let mut b: usize = to;
    while b > a && char_is_whitespace(chars[b - 1])
        invariant
            a <= b <= to <= chars@.len(),
            trim_end(chars@.subrange(a as int, to as int)) == trim_end(
                chars@.subrange(a as int, b as int),
            ),
        decreases b,
    {
        assert(chars@.subrange(a as int, b as int).drop_last() == chars@.subrange(
            a as int,
            b - 1,
        ));
        b -= 1;
    }
    (a, b)
}

/// Whether `chars[from..to]` is the text `word`.
pub(crate) fn range_is(chars: &Vec<char>, from: usize, to: usize, word: &str) -> (same: bool)
    requires
        from <= to <= chars@.len(),
    ensures
        same == (chars@.subrange(from as int, to as int) == word@),
{
    let w = chars_of(word);
    if w.len() != to - from {
        return false;
    }
    let mut i: usize = 0;
    while i < w.len()
        invariant
            i <= w.len(),
            w.len() == to - from,
            from <= to <= chars@.len(),
            w@ == word@,
            forall|j: int| 0 <= j < i ==> chars@[from + j] == w@[j],
        decreases w.len() - i,
    {
        if chars[from + i] != w[i] {
            assert(chars@.subrange(from as int, to as int)[i as int] != w@[i as int]);
            return false;
        }
        i += 1;
    }
    assert(chars@.subrange(from as int, to as int) =~= w@);
    true
}

} // verus!
