//! Character classification and scanning over sequences of characters.
//!
//! The parser treats whitespace characters as field separators — the
//! characters with the Unicode `White_Space` property, the set
//! `char::is_whitespace` accepts; these spec functions fix where a colon, a
//! token or a run of whitespace begins and ends in a line, and what
//! trimming and splitting a line means.

use vstd::prelude::*;

verus! {

/// The character sequences of a list of strings, in order.
pub open spec fn views_of(v: Seq<String>) -> Seq<Seq<char>> {
    v.map_values(|s: String| s@)
}

/// Whether `c` separates fields: a character with the Unicode `White_Space`
/// property, exactly the set `char::is_whitespace` accepts.
pub open spec fn spec_is_space(c: char) -> bool {
    c == '\t' || c == '\n' || c == '\u{b}' || c == '\u{c}' || c == '\r' || c == ' ' || c
        == '\u{85}' || c == '\u{a0}' || c == '\u{1680}' || (0x2000 <= c as u32 && c as u32
        <= 0x200a) || c == '\u{2028}' || c == '\u{2029}' || c == '\u{202f}' || c == '\u{205f}'
        || c == '\u{3000}'
}

/// Runtime check matching `spec_is_space`.
#[verifier::when_used_as_spec(spec_is_space)]
pub fn is_space(c: char) -> (r: bool)
    ensures
        r == spec_is_space(c),
{
    let u = c as u32;
    u == 0x9 || u == 0xa || u == 0xb || u == 0xc || u == 0xd || u == 0x20 || u == 0x85 || u
        == 0xa0 || u == 0x1680 || (0x2000 <= u && u <= 0x200a) || u == 0x2028 || u == 0x2029 || u
        == 0x202f || u == 0x205f || u == 0x3000
}

/// Index of the first colon at or after `i`, or `s.len()` if there is none.
pub open spec fn find_colon(s: Seq<char>, i: int) -> int
    decreases s.len() - i,
{
    if i < 0 || i >= s.len() {
        s.len() as int
    } else if s[i] == ':' {
        i
    } else {
        find_colon(s, i + 1)
    }
}

pub proof fn lemma_find_colon_is(s: Seq<char>, i: int, r: int)
    requires
        0 <= i <= r <= s.len(),
        forall|k: int| i <= k < r ==> s[k] != ':',
        r < s.len() ==> s[r] == ':',
    ensures
        find_colon(s, i) == r,
    decreases s.len() - i,
{
    if i < s.len() && s[i] != ':' {
        lemma_find_colon_is(s, i + 1, r);
    }
}

/// Index of the first non-whitespace character at or after `i`, or `s.len()`.
pub open spec fn skip_spaces(s: Seq<char>, i: int) -> int
    decreases s.len() - i,
{
    if i < 0 || i >= s.len() {
        s.len() as int
    } else if !spec_is_space(s[i]) {
        i
    } else {
        skip_spaces(s, i + 1)
    }
}

pub proof fn lemma_skip_spaces_is(s: Seq<char>, i: int, r: int)
    requires
        0 <= i <= r <= s.len(),
        forall|k: int| i <= k < r ==> spec_is_space(s[k]),
        r < s.len() ==> !spec_is_space(s[r]),
    ensures
        skip_spaces(s, i) == r,
    decreases s.len() - i,
{
    if i < s.len() && spec_is_space(s[i]) {
        lemma_skip_spaces_is(s, i + 1, r);
    }
}

/// Index just past the token starting at `i`: the first whitespace character
/// at or after `i`, or `s.len()`.
pub open spec fn token_end(s: Seq<char>, i: int) -> int
    decreases s.len() - i,
{
    if i < 0 || i >= s.len() {
        s.len() as int
    } else if spec_is_space(s[i]) {
        i
    } else {
        token_end(s, i + 1)
    }
}

pub proof fn lemma_token_end(s: Seq<char>, i: int)
    requires
        0 <= i <= s.len(),
    ensures
        i <= token_end(s, i) <= s.len(),
        forall|k: int| i <= k < token_end(s, i) ==> !spec_is_space(s[k]),
        token_end(s, i) < s.len() ==> spec_is_space(s[token_end(s, i)]),
    decreases s.len() - i,
{
    if i < s.len() && !spec_is_space(s[i]) {
        lemma_token_end(s, i + 1);
    }
}

pub proof fn lemma_token_end_is(s: Seq<char>, i: int, r: int)
    requires
        0 <= i <= r <= s.len(),
        forall|k: int| i <= k < r ==> !spec_is_space(s[k]),
        r < s.len() ==> spec_is_space(s[r]),
    ensures
        token_end(s, i) == r,
    decreases s.len() - i,
{
    if i < s.len() && !spec_is_space(s[i]) {
        lemma_token_end_is(s, i + 1, r);
    }
}

/// Index after which only trailing whitespace follows: `0` if `s` is all
/// whitespace, else one past the last non-whitespace character.
pub open spec fn trim_end(s: Seq<char>) -> int
    decreases s.len(),
{
    if s.len() == 0 {
        0
    } else if spec_is_space(s.last()) {
        trim_end(s.drop_last())
    } else {
        s.len() as int
    }
}

pub proof fn lemma_trim_end_is(s: Seq<char>, r: int)
    requires
        0 <= r <= s.len(),
        forall|k: int| r <= k < s.len() ==> spec_is_space(s[k]),
        r > 0 ==> !spec_is_space(s[r - 1]),
    ensures
        trim_end(s) == r,
    decreases s.len(),
{
    if s.len() > 0 && spec_is_space(s.last()) {
        lemma_trim_end_is(s.drop_last(), r);
    }
}

/// `s` with leading and trailing whitespace removed.
pub open spec fn spec_trim(s: Seq<char>) -> Seq<char> {
    if skip_spaces(s, 0) == s.len() {
        Seq::empty()
    } else {
        s.subrange(skip_spaces(s, 0), trim_end(s))
    }
}

/// The whitespace-separated tokens of `s` from index `i` on, in order.
pub open spec fn split_fields(s: Seq<char>, i: int) -> Seq<Seq<char>>
    decreases s.len() - i,
        when 0 <= i
    via split_fields_decreases
{
    if i >= s.len() {
        Seq::empty()
    } else if spec_is_space(s[i]) {
        split_fields(s, i + 1)
    } else {
        seq![s.subrange(i, token_end(s, i))] + split_fields(s, token_end(s, i))
    }
}

#[via_fn]
proof fn split_fields_decreases(s: Seq<char>, i: int) {
    if 0 <= i && i < s.len() && !spec_is_space(s[i]) {
        lemma_token_end(s, i);
    }
}

} // verus!
