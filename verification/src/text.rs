//! Character-level helpers shared by the command parser: conversion between
//! strings and character vectors, searching, and the removal of spaces.
use vstd::prelude::*;

verus! {

broadcast use vstd::string::group_string_axioms;

/// `String::push` appends one character to the end of the string.
pub assume_specification[ String::push ](s: &mut String, ch: char)
    ensures
        final(s)@ == old(s)@.push(ch),
;

/// Position of the first occurrence of `c` in `s`, or the length of `s`
/// when `c` does not occur.
pub open spec fn first_pos(s: Seq<char>, c: char) -> nat
    decreases s.len(),
{
    if s.len() == 0 {
        0
    } else if s[0] == c {
        0
    } else {
        1 + first_pos(s.drop_first(), c)
    }
}

/// `s` with every space character removed, the other characters kept in order.
pub open spec fn without_spaces(s: Seq<char>) -> Seq<char>
    decreases s.len(),
{
    if s.len() == 0 {
        Seq::empty()
    } else if s.last() == ' ' {
        without_spaces(s.drop_last())
    } else {
        without_spaces(s.drop_last()).push(s.last())
    }
}

/// A character of the 7-bit ASCII range, which UTF-8 stores in one byte.
pub open spec fn is_ascii_char(c: char) -> bool {
    (c as u32) < 128
}

/// `first_pos` is the least position holding `c`.
pub proof fn lemma_first_pos(s: Seq<char>, c: char)
    ensures
        first_pos(s, c) <= s.len(),
        first_pos(s, c) < s.len() ==> s[first_pos(s, c) as int] == c,
        forall|j: int| 0 <= j < first_pos(s, c) ==> s[j] != c,
    decreases s.len(),
{
    if s.len() > 0 && s[0] != c {
        lemma_first_pos(s.drop_first(), c);
        assert forall|j: int| 0 <= j < first_pos(s, c) implies s[j] != c by {
            if j > 0 {
                assert(s[j] == s.drop_first()[j - 1]);
            }
        }
    }
}

/// Any position that holds `c` and has no `c` before it (or that is the
/// length of a sequence without `c`) is `first_pos`.
pub proof fn lemma_first_pos_unique(s: Seq<char>, c: char, k: int)
    requires
        0 <= k <= s.len(),
        k < s.len() ==> s[k] == c,
        forall|j: int| 0 <= j < k ==> s[j] != c,
    ensures
        first_pos(s, c) == k,
    decreases s.len(),
{
    if s.len() > 0 && k > 0 {
        assert(s[0] != c);
        assert forall|j: int| 0 <= j < k - 1 implies s.drop_first()[j] != c by {
            assert(s.drop_first()[j] == s[j + 1]);
        }
        lemma_first_pos_unique(s.drop_first(), c, k - 1);
    }
}

/// The characters of `s`, in order.
pub fn chars_of(s: &str) -> (v: Vec<char>)
    ensures
        v@ == s@,
{
    let mut v: Vec<char> = Vec::new();
    for c in it: s.chars()
        invariant
            it.seq() == s@,
            v@ == it.seq().take(it.index() as int),
    {
        v.push(c);
    }
    v
}

/// The characters `v[from..to]` as a new string.
pub fn string_from_chars(v: &Vec<char>, from: usize, to: usize) -> (s: String)
    requires
        from <= to <= v@.len(),
    ensures
        s@ == v@.subrange(from as int, to as int),
{
    let mut s = String::new();
    let mut i = from;
    while i < to
        invariant
            from <= i <= to <= v@.len(),
            s@ == v@.subrange(from as int, i as int),
        decreases to - i,
    {
        s.push(v[i]);
        i = i + 1;
    }
    s
}

/// Position of the first `c` in `v`, or `v.len()` when there is none.
pub fn find_char(v: &Vec<char>, c: char) -> (k: usize)
    ensures
        k == first_pos(v@, c),
{
    let mut i: usize = 0;
    while i < v.len()
        invariant
            i <= v@.len(),
            forall|j: int| 0 <= j < i ==> v@[j] != c,
        decreases v.len() - i,
    {
        if v[i] == c {
            proof {
                lemma_first_pos_unique(v@, c, i as int);
            }
            return i;
        }
        i = i + 1;
    }
    proof {
        lemma_first_pos_unique(v@, c, i as int);
    }
    i
}

/// Whether the characters of `v` are exactly those of `text`.
pub fn chars_equal_str(v: &Vec<char>, text: &str) -> (b: bool)
    ensures
        b == (v@ == text@),
{
    let w = chars_of(text);
    if v.len() != w.len() {
        return false;
    }
    let mut i: usize = 0;
    while i < v.len()
        invariant
            i <= v@.len(),
            v@.len() == w@.len(),
            w@ == text@,
            forall|j: int| 0 <= j < i ==> v@[j] == w@[j],
        decreases v.len() - i,
    {
        if v[i] != w[i] {
            return false;
        }
        i = i + 1;
    }
    assert(v@ =~= w@);
    true
}

/// Copy of `in_str` with every space character removed.
pub fn filter_spaces(in_str: &str) -> (result: String)
    ensures
        result@ == without_spaces(in_str@),
{
    let chars = chars_of(in_str);
    let mut result = String::new();
    let mut i: usize = 0;
    while i < chars.len()
        invariant
            i <= chars@.len(),
            chars@ == in_str@,
            result@ == without_spaces(chars@.take(i as int)),
        decreases chars.len() - i,
    {
        let c = chars[i];
        assert(chars@.take(i + 1).drop_last() =~= chars@.take(i as int));
        if c != ' ' {
            result.push(c);
        }
        i = i + 1;
    }
    assert(chars@.take(chars@.len() as int) =~= chars@);
    result
}

/// Removing spaces leaves no space behind and never lengthens the text.
pub proof fn lemma_without_spaces_has_no_space(s: Seq<char>)
    ensures
        without_spaces(s).len() <= s.len(),
        forall|j: int| 0 <= j < without_spaces(s).len() ==> without_spaces(s)[j] != ' ',
    decreases s.len(),
{
    if s.len() > 0 {
        lemma_without_spaces_has_no_space(s.drop_last());
    }
}

/// A text without spaces is left unchanged by removing spaces.
pub proof fn lemma_without_spaces_keeps_spaceless(s: Seq<char>)
    requires
        forall|j: int| 0 <= j < s.len() ==> s[j] != ' ',
    ensures
        without_spaces(s) == s,
    decreases s.len(),
{
    if s.len() > 0 {
        lemma_without_spaces_keeps_spaceless(s.drop_last());
        assert(s.drop_last().push(s.last()) =~= s);
    }
}

/// Removing spaces twice gives the same text as removing them once.
pub proof fn lemma_without_spaces_idempotent(s: Seq<char>)
    ensures
        without_spaces(without_spaces(s)) == without_spaces(s),
{
    lemma_without_spaces_has_no_space(s);
    lemma_without_spaces_keeps_spaceless(without_spaces(s));
}

/// Removing spaces keeps exactly the characters other than `' '`, in their
/// order: nothing comes of nothing, a single character is dropped if and
/// only if it is a space, and a text written after another loses its spaces
/// independently of it.
pub proof fn lemma_without_spaces_filters(a: Seq<char>, b: Seq<char>, c: char)
    ensures
        without_spaces(Seq::empty()) == Seq::<char>::empty(),
        without_spaces(seq![c]) == (if c == ' ' {
            Seq::<char>::empty()
        } else {
            seq![c]
        }),
        without_spaces(a + b) == without_spaces(a) + without_spaces(b),
    decreases b.len(),
{
    assert(seq![c].drop_last() =~= Seq::<char>::empty());
    assert(seq![c].last() == c);
    assert(without_spaces(Seq::<char>::empty()) == Seq::<char>::empty());
    assert(Seq::<char>::empty().push(c) =~= seq![c]);
    if b.len() == 0 {
        assert(a + b =~= a);
        assert(without_spaces(a) + without_spaces(b) =~= without_spaces(a));
    } else {
        lemma_without_spaces_filters(a, b.drop_last(), c);
        assert((a + b).drop_last() =~= a + b.drop_last());
        assert((a + b).last() == b.last());
        if b.last() != ' ' {
            assert(without_spaces(a) + without_spaces(b.drop_last()).push(b.last()) =~= (
            without_spaces(a) + without_spaces(b.drop_last())).push(b.last()));
        }
    }
}

} // verus!
