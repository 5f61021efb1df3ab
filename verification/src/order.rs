//! The order in which labels are presented.
//!
//! Storage gives its rows in no particular order, so a listing is sorted: by
//! the characters of the label, the first difference deciding, a prefix
//! before what continues it.

use crate::text::chars_of;
use vstd::prelude::*;
use vstd::relations::{sorted_by, total_ordering};
use vstd::seq_lib::{lemma_sorted_unique, to_multiset_build, to_multiset_remove};

verus! {

/// `a` stands before `b` or equals it: at the first position where they
/// differ `a` has the smaller character, or `a` ends first.
pub open spec fn lex_le(a: Seq<char>, b: Seq<char>) -> bool
    decreases a.len(),
{
    if a.len() == 0 {
        true
    } else if b.len() == 0 {
        false
    } else if a[0] != b[0] {
        (a[0] as int) < (b[0] as int)
    } else {
        lex_le(a.drop_first(), b.drop_first())
    }
}

/// The texts never step down from one position to a later one.
pub open spec fn ascending(s: Seq<Seq<char>>) -> bool {
    forall|i: int, j: int| 0 <= i < j < s.len() ==> lex_le(#[trigger] s[i], #[trigger] s[j])
}

/// The characters of each text of a list.
pub open spec fn texts(v: Seq<String>) -> Seq<Seq<char>> {
    v.map_values(|t: String| t@)
}

/// Every text stands before or at itself.
pub proof fn lemma_lex_reflexive(a: Seq<char>)
    ensures
        lex_le(a, a),
    decreases a.len(),
{
    if a.len() > 0 {
        lemma_lex_reflexive(a.drop_first());
    }
}

/// Two texts that each stand before or at the other are one text.
pub proof fn lemma_lex_antisymmetric(a: Seq<char>, b: Seq<char>)
    requires
        lex_le(a, b),
        lex_le(b, a),
    ensures
        a == b,
    decreases a.len(),
{
    if a.len() == 0 {
        assert(a =~= b);
    } else {
        lemma_lex_antisymmetric(a.drop_first(), b.drop_first());
        assert(a =~= seq![a[0]] + a.drop_first());
        assert(b =~= seq![b[0]] + b.drop_first());
    }
}

/// Before-or-at carries over a text in the middle.
pub proof fn lemma_lex_transitive(a: Seq<char>, b: Seq<char>, c: Seq<char>)
    requires
        lex_le(a, b),
        lex_le(b, c),
    ensures
        lex_le(a, c),
    decreases a.len(),
{
    if a.len() > 0 && a[0] == b[0] && b[0] == c[0] {
        lemma_lex_transitive(a.drop_first(), b.drop_first(), c.drop_first());
    }
}

/// Of two texts one stands before or at the other.
pub proof fn lemma_lex_total(a: Seq<char>, b: Seq<char>)
    ensures
        lex_le(a, b) || lex_le(b, a),
    decreases a.len(),
{
    if a.len() > 0 && b.len() > 0 {
        if a[0] == b[0] {
            lemma_lex_total(a.drop_first(), b.drop_first());
        }
    }
}

/// Every character of the text stands above the space.
pub open spec fn above_space(s: Seq<char>) -> bool {
    forall|i: int| 0 <= i < s.len() ==> (#[trigger] s[i] as int) > 32
}

/// A common beginning does not decide the order of two texts.
pub proof fn lemma_lex_common_start(p: Seq<char>, x: Seq<char>, y: Seq<char>)
    ensures
        lex_le(p + x, p + y) == lex_le(x, y),
    decreases p.len(),
{
    if p.len() == 0 {
        assert(p + x =~= x);
        assert(p + y =~= y);
    } else {
        assert((p + x).drop_first() =~= p.drop_first() + x);
        assert((p + y).drop_first() =~= p.drop_first() + y);
        lemma_lex_common_start(p.drop_first(), x, y);
    }
}

/// Of two texts that are each a word above the space followed by a space
/// and more, the words decide the order where they differ.
pub proof fn lemma_lex_first_word_decides(
    m: Seq<char>,
    x: Seq<char>,
    n: Seq<char>,
    y: Seq<char>,
)
    requires
        above_space(m),
        above_space(n),
        m != n,
        x.len() > 0 && x[0] == ' ',
        y.len() > 0 && y[0] == ' ',
    ensures
        lex_le(m + x, n + y) == lex_le(m, n),
    decreases m.len(),
{
    if m.len() == 0 {
        assert(m + x =~= x);
        if n.len() == 0 {
            assert(m =~= n);
        } else {
            assert((n + y)[0] == n[0]);
        }
    } else if n.len() == 0 {
        assert(n + y =~= y);
        assert((m + x)[0] == m[0]);
    } else {
        assert((m + x)[0] == m[0]);
        assert((n + y)[0] == n[0]);
        if m[0] == n[0] {
            assert((m + x).drop_first() =~= m.drop_first() + x);
            assert((n + y).drop_first() =~= n.drop_first() + y);
            if m.drop_first() == n.drop_first() {
                assert(m =~= seq![m[0]] + m.drop_first());
                assert(n =~= seq![n[0]] + n.drop_first());
            }
            lemma_lex_first_word_decides(m.drop_first(), x, n.drop_first(), y);
        }
    }
}

/// Whether `a` stands before `b` or equals it.
pub fn text_le(a: &str, b: &str) -> (r: bool)
    ensures
        r == lex_le(a@, b@),
{
    let x = chars_of(a);
    let y = chars_of(b);
    let mut i: usize = 0;
    assert(a@.skip(0) =~= a@ && b@.skip(0) =~= b@);
    loop
        invariant
            x@ == a@,
            y@ == b@,
            i <= x@.len(),
            i <= y@.len(),
            lex_le(a@, b@) == lex_le(a@.skip(i as int), b@.skip(i as int)),
        decreases x@.len() - i,
    {
        if i == x.len() {
            return true;
        }
        if i == y.len() {
            return false;
        }
        let c: char = x[i];
        let d: char = y[i];
        if c != d {
            return c < d;
        }
        proof {
            assert(a@.skip(i as int).drop_first() =~= a@.skip(i + 1));
            assert(b@.skip(i as int).drop_first() =~= b@.skip(i + 1));
        }
        i += 1;
    }
}

/// The same texts, each as often as before, in ascending order.
pub fn sort_texts(v: &Vec<String>) -> (out: Vec<String>)
    ensures
        texts(out@).to_multiset() == texts(v@).to_multiset(),
        ascending(texts(out@)),
{
    let mut out: Vec<String> = Vec::new();
    let mut i: usize = 0;
    assert(texts(out@) =~= texts(v@).take(0));
    while i < v.len()
        invariant
            i <= v@.len(),
            texts(out@).to_multiset() == texts(v@).take(i as int).to_multiset(),
            ascending(texts(out@)),
        decreases v@.len() - i,
    {
        let item = v[i].clone();
        let ghost before = texts(out@);
        let mut at: usize = 0;
        while at < out.len() && text_le(out[at].as_str(), item.as_str())
            invariant
                at <= out@.len(),
                before == texts(out@),
                forall|j: int| 0 <= j < at ==> lex_le(#[trigger] before[j], item@),
            decreases out@.len() - at,
        {
            at += 1;
        }
        proof {
            assert forall|j: int| at <= j < before.len() implies lex_le(
                item@,
                #[trigger] before[j],
            ) by {
                lemma_lex_total(before[at as int], item@);
                if at < j {
                    lemma_lex_transitive(item@, before[at as int], before[j]);
                }
            }
        }
        out.insert(at, item);
        proof {
            let after = texts(out@);
            assert(after =~= before.insert(at as int, item@));
            assert(after.remove(at as int) =~= before);
            assert(after[at as int] == item@);
            to_multiset_remove(after, at as int);
            after.to_multiset_ensures();
            assert(after.contains(item@));
            assert(after.to_multiset() =~= before.to_multiset().insert(item@));
            let seen = texts(v@).take(i as int);
            assert(texts(v@).take(i + 1) =~= seen.push(item@));
            to_multiset_build(seen, item@);
        }
        i += 1;
    }
    assert(texts(v@).take(i as int) =~= texts(v@));
    out
}

/// However the rows came out of storage, their listing is the same: two
/// ascending arrangements of the same labels are equal, position by position.
pub proof fn lemma_listing_is_stable(
    labels: Seq<Seq<char>>,
    first: Seq<Seq<char>>,
    second: Seq<Seq<char>>,
)
    requires
        ascending(first),
        ascending(second),
        first.to_multiset() == labels.to_multiset(),
        second.to_multiset() == labels.to_multiset(),
    ensures
        first == second,
{
    let le = |a: Seq<char>, b: Seq<char>| lex_le(a, b);
    assert forall|x: Seq<char>| #[trigger] le(x, x) by {
        lemma_lex_reflexive(x);
    }
    assert forall|x: Seq<char>, y: Seq<char>| #[trigger] le(x, y) && #[trigger] le(y, x) implies x
        == y by {
        lemma_lex_antisymmetric(x, y);
    }
    assert forall|x: Seq<char>, y: Seq<char>, z: Seq<char>| #[trigger]
        le(x, y) && #[trigger] le(y, z) implies le(x, z) by {
        lemma_lex_transitive(x, y, z);
    }
    assert forall|x: Seq<char>, y: Seq<char>| #[trigger] le(x, y) || #[trigger] le(y, x) by {
        lemma_lex_total(x, y);
    }
    assert(total_ordering(le));
    assert(sorted_by(first, le));
    assert(sorted_by(second, le));
    lemma_sorted_unique(first, second, le);
}

} // verus!
