//! Text as sequences of characters: conversions between `str`, `String` and
//! `Vec<char>`, scanning for delimiters, and ASCII case folding.

use vstd::prelude::*;

verus! {

/// The position of the first `stop` in `s` at or after `pos`, or the length
/// of `s` when there is none.
pub open spec fn scan_to(s: Seq<char>, pos: int, stop: char) -> int
    decreases s.len() - pos,
{
    if pos < 0 || pos >= s.len() {
        s.len() as int
    } else if s[pos] == stop {
        pos
    } else {
        scan_to(s, pos + 1, stop)
    }
}

/// `scan_to` stops at the first `stop` and skips nothing else.
pub proof fn lemma_scan_to(s: Seq<char>, pos: int, stop: char)
    requires
        0 <= pos <= s.len(),
    ensures
        pos <= scan_to(s, pos, stop) <= s.len(),
        scan_to(s, pos, stop) < s.len() ==> s[scan_to(s, pos, stop)] == stop,
        forall|i: int| pos <= i < scan_to(s, pos, stop) ==> s[i] != stop,
    decreases s.len() - pos,
{
    if pos < s.len() && s[pos] != stop {
        lemma_scan_to(s, pos + 1, stop);
    }
}

/// The lower-case form of an ASCII capital letter; every other character is
/// its own folded form.
pub open spec fn fold_case(c: char) -> char {
    if 'A' <= c && c <= 'Z' {
        ((c as u8) + 32) as char
    } else {
        c
    }
}

/// Whether two characters are the same, with or without regard to ASCII case.
pub open spec fn same_char(a: char, b: char, case_insensitive: bool) -> bool {
    if case_insensitive {
        fold_case(a) == fold_case(b)
    } else {
        a == b
    }
}

/// Whether two texts have the same length and the same characters, with or
/// without regard to ASCII case.
pub open spec fn same_text(a: Seq<char>, b: Seq<char>, case_insensitive: bool) -> bool {
    &&& a.len() == b.len()
    &&& forall|i: int| 0 <= i < a.len() ==> same_char(#[trigger] a[i], b[i], case_insensitive)
}

/// Whether `lit` stands in `s` at `pos`, with or without regard to ASCII case.
pub open spec fn occurs_at(s: Seq<char>, pos: int, lit: Seq<char>, case_insensitive: bool) -> bool {
    &&& 0 <= pos
    &&& pos + lit.len() <= s.len()
    &&& same_text(s.subrange(pos, pos + lit.len()), lit, case_insensitive)
}

/// The characters of `s`, in order.
pub fn chars_of(s: &str) -> (v: Vec<char>)
    ensures
        v@ == s@,
{
    let mut v: Vec<char> = Vec::new();
    for c in it: s.chars()
        invariant
            v@ == it.seq().take(it.index() as int),
            it.seq() == s@,
    {
        v.push(c);
    }
    v
}

/// `String::push`: the text grows by exactly the one character `c`, at its end.
#[verifier::external_body]
pub(crate) fn push_char(s: &mut String, c: char)
    ensures
        final(s)@ == old(s)@.push(c),
{
    s.push(c)
}

/// The text of `chars` from `from` up to, not including, `to`.
pub(crate) fn string_of(chars: &Vec<char>, from: usize, to: usize) -> (s: String)
    requires
        from <= to <= chars.len(),
    ensures
        s@ == chars@.subrange(from as int, to as int),
{
    let mut s = String::new();
    let mut i: usize = from;
    while i < to
        invariant
            from <= i <= to <= chars.len(),
            s@ == chars@.subrange(from as int, i as int),
        decreases to - i,
    {
        push_char(&mut s, chars[i]);
        i += 1;
    }
    s
}

/// The first position at or after `pos` that holds `stop`, or the length.
pub(crate) fn find_char(chars: &Vec<char>, pos: usize, stop: char) -> (end: usize)
    requires
        pos <= chars.len(),
    ensures
        end == scan_to(chars@, pos as int, stop),
        pos <= end <= chars.len(),
{
    let mut i: usize = pos;
    while i < chars.len() && chars[i] != stop
        invariant
            pos <= i <= chars.len(),
            scan_to(chars@, pos as int, stop) == scan_to(chars@, i as int, stop),
        decreases chars.len() - i,
    {
        i += 1;
    }
    i
}

/// Folds an ASCII capital letter to lower case.
pub fn fold(c: char) -> (r: char)
    ensures
        r == fold_case(c),
{
    if 'A' <= c && c <= 'Z' {
        ((c as u8) + 32) as char
    } else {
        c
    }
}

/// Whether `lit` stands in `chars` at `pos`.
pub(crate) fn starts_with_at(chars: &Vec<char>, pos: usize, lit: &Vec<char>, case_insensitive: bool) -> (r: bool)
    requires
        pos <= chars.len(),
    ensures
        r == occurs_at(chars@, pos as int, lit@, case_insensitive),
{
    if lit.len() > chars.len() - pos {
        return false;
    }
    let ghost window = chars@.subrange(pos as int, pos + lit.len());
    let mut i: usize = 0;
    while i < lit.len()
        invariant
            i <= lit.len(),
            pos + lit.len() <= chars.len(),
            window == chars@.subrange(pos as int, pos + lit.len()),
            forall|j: int| 0 <= j < i ==> same_char(#[trigger] window[j], lit@[j], case_insensitive),
        decreases lit.len() - i,
    {
        let a = chars[pos + i];
        let b = lit[i];
        let same = if case_insensitive {
            fold(a) == fold(b)
        } else {
            a == b
        };
        assert(a == window[i as int]);
        if !same {
            return false;
        }
        i += 1;
    }
    true
}

} // verus!
