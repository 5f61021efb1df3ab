//! The label under which a record is shown, and the way back from a label to
//! the record's identity.
//!
//! A label is the name, a fixed phrase, and the username. Reading it back
//! takes the first and the fourth word, which is why neither name nor
//! username may hold a separator.

use crate::text::{chars_of, is_separator, is_space, valid_field};
use vstd::prelude::*;
use vstd::string::*;

verus! {

/// The phrase between name and username.
pub open spec fn infix() -> Seq<char> {
    " with username/email "@
}

/// The phrase after the username, with the sign of an open or a closed lock.
pub open spec fn suffix(unlocked: bool) -> Seq<char> {
    if unlocked {
        " has password \u{1F513}"@
    } else {
        " has password \u{1F510}"@
    }
}

/// The label of a record in a list to delete from.
pub open spec fn label_of(name: Seq<char>, username: Seq<char>) -> Seq<char> {
    name + infix() + username
}

/// The label of a record in a list to reveal from.
pub open spec fn display_label_of(name: Seq<char>, username: Seq<char>, unlocked: bool) -> Seq<
    char,
> {
    label_of(name, username) + suffix(unlocked)
}

/// The first position from `i` on that holds no separator.
pub open spec fn skip_spaces(s: Seq<char>, i: int) -> int
    decreases s.len() - i,
{
    if 0 <= i < s.len() && is_space(s[i]) {
        skip_spaces(s, i + 1)
    } else {
        i
    }
}

/// The first position from `i` on that holds a separator, or the end.
pub open spec fn skip_word(s: Seq<char>, i: int) -> int
    decreases s.len() - i,
{
    if 0 <= i < s.len() && !is_space(s[i]) {
        skip_word(s, i + 1)
    } else {
        i
    }
}

/// Where word number `k` of `s` begins, counting from 0; the length of `s`
/// where there is no such word.
pub open spec fn word_start(s: Seq<char>, k: nat) -> int
    decreases k,
{
    if k == 0 {
        skip_spaces(s, 0)
    } else {
        skip_spaces(s, skip_word(s, word_start(s, (k - 1) as nat)))
    }
}

/// Word number `k` of `s`.
pub open spec fn word(s: Seq<char>, k: nat) -> Seq<char> {
    s.subrange(word_start(s, k), skip_word(s, word_start(s, k)))
}

/// The identity that a label names: its first and its fourth word, where it
/// has four.
pub open spec fn parsed(label: Seq<char>) -> Option<(Seq<char>, Seq<char>)> {
    if word_start(label, 3) < label.len() {
        Some((word(label, 0), word(label, 3)))
    } else {
        None
    }
}

/// The label of a record in a list to delete from.
pub fn service_label(name: &str, username: &str) -> (label: String)
    ensures
        label@ == label_of(name@, username@),
{
    let mut label = String::from_str(name);
    label.append(" with username/email ");
    label.append(username);
    label
}

/// The label of a record in a list to reveal from.
pub fn display_label(name: &str, username: &str, unlocked: bool) -> (label: String)
    ensures
        label@ == display_label_of(name@, username@, unlocked),
{
    let mut label = service_label(name, username);
    if unlocked {
        label.append(" has password \u{1F513}");
    } else {
        label.append(" has password \u{1F510}");
    }
    label
}

fn spaces_end(v: &Vec<char>, from: usize) -> (to: usize)
    requires
        from <= v@.len(),
    ensures
        to == skip_spaces(v@, from as int),
        from <= to <= v@.len(),
{
    let mut j: usize = from;
    while j < v.len() && is_separator(v[j])
        invariant
            from <= j <= v@.len(),
            skip_spaces(v@, j as int) == skip_spaces(v@, from as int),
        decreases v@.len() - j,
    {
        j += 1;
    }
    j
}

fn word_end(v: &Vec<char>, from: usize) -> (to: usize)
    requires
        from <= v@.len(),
    ensures
        to == skip_word(v@, from as int),
        from <= to <= v@.len(),
{
    let mut j: usize = from;
    while j < v.len() && !is_separator(v[j])
        invariant
            from <= j <= v@.len(),
            skip_word(v@, j as int) == skip_word(v@, from as int),
        decreases v@.len() - j,
    {
        j += 1;
    }
    j
}

/// Reads the identity back from a label: the first and the fourth word.
/// A label of fewer than four words names nothing.
pub fn parse_label(label: &str) -> (identity: Option<(String, String)>)
    ensures
        match identity {
            Some((name, username)) => parsed(label@) == Some((name@, username@)),
            None => parsed(label@).is_none(),
        },
{
    let v = chars_of(label);
    proof {
        reveal_with_fuel(word_start, 4);
    }
    let s0 = spaces_end(&v, 0);
    let e0 = word_end(&v, s0);
    let s1 = spaces_end(&v, e0);
    let e1 = word_end(&v, s1);
    let s2 = spaces_end(&v, e1);
    let e2 = word_end(&v, s2);
    let s3 = spaces_end(&v, e2);
    if s3 >= v.len() {
        return None;
    }
    let e3 = word_end(&v, s3);
    let name = String::from_str(label.substring_char(s0, e0));
    let username = String::from_str(label.substring_char(s3, e3));
    Some((name, username))
}

/// From `i` to `j` there is no separator, and the word ends at `j`.
proof fn lemma_word_run(s: Seq<char>, i: int, j: int)
    requires
        0 <= i <= j <= s.len(),
        forall|k: int| i <= k < j ==> !is_space(#[trigger] s[k]),
        j == s.len() || is_space(s[j]),
    ensures
        skip_word(s, i) == j,
    decreases j - i,
{
    if i < j {
        lemma_word_run(s, i + 1, j);
    }
}

/// From `i` to `j` there are only separators, and they end at `j`.
proof fn lemma_space_run(s: Seq<char>, i: int, j: int)
    requires
        0 <= i <= j <= s.len(),
        forall|k: int| i <= k < j ==> is_space(#[trigger] s[k]),
        j == s.len() || !is_space(s[j]),
    ensures
        skip_spaces(s, i) == j,
    decreases j - i,
{
    if i < j {
        lemma_space_run(s, i + 1, j);
    }
}

/// The phrase between name and username is two words between single spaces.
proof fn lemma_infix_shape()
    ensures
        infix().len() == 21,
        is_space(infix()[0]),
        is_space(infix()[5]),
        is_space(infix()[20]),
        forall|k: int| 1 <= k < 5 ==> !is_space(#[trigger] infix()[k]),
        forall|k: int| 6 <= k < 20 ==> !is_space(#[trigger] infix()[k]),
{
    reveal_strlit(" with username/email ");
}

/// A name and a username without separators, put between the fixed phrase and
/// followed by nothing or by a separator, are read back as they were.
proof fn lemma_reads_back(name: Seq<char>, username: Seq<char>, rest: Seq<char>)
    requires
        valid_field(name),
        valid_field(username),
        rest.len() == 0 || is_space(rest[0]),
    ensures
        parsed(name + infix() + username + rest) == Some((name, username)),
{
    let s = name + infix() + username + rest;
    let n = name.len() as int;
    let m = username.len() as int;
    lemma_infix_shape();
    reveal_with_fuel(word_start, 4);
    assert forall|k: int| 0 <= k < n implies s[k] == name[k] by {}
    assert forall|k: int| 0 <= k < 21 implies s[n + k] == infix()[k] by {}
    assert forall|k: int| 0 <= k < m implies s[n + 21 + k] == username[k] by {}
    assert(rest.len() > 0 ==> s[n + 21 + m] == rest[0]);
    assert(s.len() == n + 21 + m + rest.len());
    lemma_space_run(s, 0, 0);
    assert forall|k: int| 0 <= k < n implies !is_space(#[trigger] s[k]) by {
        assert(s[k] == name[k]);
    }
    assert(s[n] == infix()[0]);
    lemma_word_run(s, 0, n);
    assert forall|k: int| n + 1 <= k < n + 5 implies !is_space(#[trigger] s[k]) by {
        assert(s[n + (k - n)] == infix()[k - n]);
    }
    assert(s[n + 5] == infix()[5]);
    assert(s[n + 1] == infix()[1]);
    lemma_space_run(s, n, n + 1);
    lemma_word_run(s, n + 1, n + 5);
    assert forall|k: int| n + 6 <= k < n + 20 implies !is_space(#[trigger] s[k]) by {
        assert(s[n + (k - n)] == infix()[k - n]);
    }
    assert(s[n + 6] == infix()[6]);
    assert(s[n + 20] == infix()[20]);
    lemma_space_run(s, n + 5, n + 6);
    lemma_word_run(s, n + 6, n + 20);
    assert forall|k: int| n + 21 <= k < n + 21 + m implies !is_space(#[trigger] s[k]) by {
        assert(s[n + 21 + (k - n - 21)] == username[k - n - 21]);
    }
    assert(s[n + 21] == username[0]);
    lemma_space_run(s, n + 20, n + 21);
    lemma_word_run(s, n + 21, n + 21 + m);
    assert(word_start(s, 0) == 0);
    assert(word_start(s, 1) == n + 1);
    assert(word_start(s, 2) == n + 6);
    assert(word_start(s, 3) == n + 21);
    assert(s.subrange(0, n) =~= name);
    assert(s.subrange(n + 21, n + 21 + m) =~= username);
}

/// A label names the record it was made of: where name and username are
/// valid, reading either form of the label gives back exactly that pair.
pub proof fn lemma_label_round_trip(name: Seq<char>, username: Seq<char>, unlocked: bool)
    requires
        valid_field(name),
        valid_field(username),
    ensures
        parsed(label_of(name, username)) == Some((name, username)),
        parsed(display_label_of(name, username, unlocked)) == Some((name, username)),
{
    lemma_reads_back(name, username, Seq::empty());
    assert(name + infix() + username + Seq::<char>::empty() =~= label_of(name, username));
    reveal_strlit(" has password \u{1F513}");
    reveal_strlit(" has password \u{1F510}");
    lemma_reads_back(name, username, suffix(unlocked));
}

} // verus!
