//! Character classes and elementary string scans shared by the lexical
//! components: conversion of a `&str` to an indexable character vector,
//! prefix tests and substring search, all specified over `Seq<char>`.

use vstd::prelude::*;

verus! {

/// ASCII whitespace, as the lexical scans understand it: space, tab,
/// line feed, carriage return, vertical tab and form feed.
pub open spec fn is_space_char(c: char) -> bool {
    c == ' ' || c == '\t' || c == '\n' || c == '\r' || c == '\u{b}' || c == '\u{c}'
}

/// Decimal digit.
pub open spec fn is_digit_char(c: char) -> bool {
    48 <= c as u32 && c as u32 <= 57
}

/// Identifier character: ASCII letter, decimal digit or underscore.
pub open spec fn is_word_char(c: char) -> bool {
    (97 <= c as u32 && c as u32 <= 122)  // 'a' ..= 'z'
    || (65 <= c as u32 && c as u32 <= 90)  // 'A' ..= 'Z'
    || is_digit_char(c)
    || c == '_'
}

pub fn space_char(c: char) -> (r: bool)
    ensures
        r == is_space_char(c),
{
    c == ' ' || c == '\t' || c == '\n' || c == '\r' || c == '\u{b}' || c == '\u{c}'
}

pub fn digit_char(c: char) -> (r: bool)
    ensures
        r == is_digit_char(c),
{
    let u: u32 = c as u32;
    48 <= u && u <= 57
}

pub fn word_char(c: char) -> (r: bool)
    ensures
        r == is_word_char(c),
{
    let u: u32 = c as u32;
    (97 <= u && u <= 122) || (65 <= u && u <= 90) || (48 <= u && u <= 57) || c == '_'
}

/// The characters of `s`, in order, as a vector indexable in constant time.
pub fn chars_of(s: &str) -> (v: Vec<char>)
    ensures
        v@ == s@,
{
    let n: usize = s.unicode_len();
    let mut v: Vec<char> = Vec::new();
    let mut i: usize = 0;
    while i < n
        invariant
            i <= n,
            n == s@.len(),
            v@ == s@.subrange(0, i as int),
        decreases n - i,
    {
        v.push(s.get_char(i));
        proof {
            assert(v@ =~= s@.subrange(0, i + 1 as int));
        }
        i = i + 1;
    }
    proof {
        assert(v@ =~= s@);
    }
    v
}

/// `pre` occurs in `s` starting at position `k`.
pub open spec fn matches_at(s: Seq<char>, k: int, pre: Seq<char>) -> bool {
    0 <= k && k + pre.len() <= s.len() && s.subrange(k, k + pre.len()) == pre
}

/// `s` begins with `pre`.
pub open spec fn spec_starts_with(s: Seq<char>, pre: Seq<char>) -> bool {
    matches_at(s, 0, pre)
}

/// `sub` occurs somewhere in `s`.
pub open spec fn spec_has_substring(s: Seq<char>, sub: Seq<char>) -> bool {
    exists|k: int| matches_at(s, k, sub)
}

/// Whether the characters of `sub` stand in `sv` at position `k`.
pub fn chars_match_at(sv: &Vec<char>, k: usize, sub: &Vec<char>) -> (r: bool)
    requires
        k + sub@.len() <= sv@.len(),
    ensures
        r == matches_at(sv@, k as int, sub@),
{
    let m: usize = sub.len();
    let n: usize = sv.len();
    let mut i: usize = 0;
    while i < m
        invariant
            i <= m,
            m == sub@.len(),
            n == sv@.len(),
            k + m <= n,
            forall|j: int| 0 <= j < i ==> sv@[k + j] == sub@[j],
        decreases m - i,
    {
        if sv[k + i] != sub[i] {
            proof {
                assert(sv@.subrange(k as int, k + sub@.len())[i as int] == sv@[k + i]);
            }
            return false;
        }
        i = i + 1;
    }
    proof {
        assert(sv@.subrange(k as int, k + sub@.len()) =~= sub@);
    }
    true
}

/// `s` ends with `suffix`.
pub open spec fn spec_ends_with(s: Seq<char>, suffix: Seq<char>) -> bool {
    matches_at(s, s.len() - suffix.len(), suffix)
}

/// Whether `s` ends with `suffix`.
pub fn str_ends_with(s: &str, suffix: &str) -> (r: bool)
    ensures
        r == spec_ends_with(s@, suffix@),
{
    let sv: Vec<char> = chars_of(s);
    let xv: Vec<char> = chars_of(suffix);
    if xv.len() > sv.len() {
        return false;
    }
    chars_match_at(&sv, sv.len() - xv.len(), &xv)
}

/// Whether `s` begins with `pre`.
pub fn str_starts_with(s: &str, pre: &str) -> (r: bool)
    ensures
        r == spec_starts_with(s@, pre@),
{
    let sv: Vec<char> = chars_of(s);
    let pv: Vec<char> = chars_of(pre);
    if pv.len() > sv.len() {
        return false;
    }
    chars_match_at(&sv, 0, &pv)
}

/// Whether `sub` occurs somewhere in `s`.
pub fn str_contains(s: &str, sub: &str) -> (r: bool)
    ensures
        r == spec_has_substring(s@, sub@),
{
    let sv: Vec<char> = chars_of(s);
    let subv: Vec<char> = chars_of(sub);
    if subv.len() > sv.len() {
        proof {
            assert(forall|k: int| !matches_at(s@, k, sub@));
        }
        return false;
    }
    if subv.len() == 0 {
        proof {
            assert(s@.subrange(0, 0) =~= sub@);
            assert(matches_at(s@, 0, sub@));
        }
        return true;
    }
    let n: usize = sv.len();
    let last: usize = n - subv.len();
    let mut k: usize = 0;
    while k <= last
        invariant
            k <= last + 1,
            n == sv@.len(),
            last < n,
            last == sv@.len() - subv@.len(),
            subv@.len() >= 1,
            sv@ == s@,
            subv@ == sub@,
            forall|j: int| 0 <= j < k ==> !matches_at(s@, j, sub@),
        decreases last + 1 - k,
    {
        if chars_match_at(&sv, k, &subv) {
            return true;
        }
        k = k + 1;
    }
    proof {
        assert(forall|j: int| !matches_at(s@, j, sub@));
    }
    false
}

} // verus!
