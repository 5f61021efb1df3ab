//! The operations of the vault: creating a record, listing records for a
//! choice, revealing the chosen secret, and deleting chosen records.
//!
//! Each takes what the user and the key file supplied as plain values and
//! decides what happens; asking questions and showing answers is the
//! caller's part.

use crate::cipher::{decrypt_text, encrypt_text, key_accepted, sealed_for};
use crate::error::VaultError;
use crate::label::{
    display_label, display_label_of, infix, label_of, parse_label, parsed, service_label, suffix,
};
use crate::order::{
    above_space, ascending, lemma_lex_common_start, lemma_lex_first_word_decides,
    lemma_lex_reflexive, lemma_listing_is_stable, lex_le, sort_texts, texts,
};
use crate::record::{all_well_formed, entries, same_identity, well_formed, Entry, Service};
use crate::store::{delete_record, get_services, name_holds, other_than, purge_database, Vault};
use crate::text::{is_valid_field, valid_field};
use vstd::prelude::*;
use vstd::seq_lib::to_multiset_remove;

verus! {

/// Why a record of these inputs is not created, if it is not: without a key
/// nothing is sealed; then name and username must be valid; then the cipher
/// must take the key.
pub open spec fn refusal(key: Option<&str>, name: Seq<char>, username: Seq<char>) -> Option<
    VaultError,
> {
    match key {
        None => Some(VaultError::KeyAbsent),
        Some(k) => if !valid_field(name) || !valid_field(username) {
            Some(VaultError::ValidationError)
        } else if !key_accepted(k@) {
            Some(VaultError::KeyRejected)
        } else {
            None
        },
    }
}

/// Seals `secret` under the key and appends a record of it. A refusal leaves
/// the vault as it was; an existing record of the same identity is no
/// obstacle.
pub fn create_service(
    vault: &mut Vault,
    key: Option<&str>,
    name: &str,
    username: &str,
    secret: &str,
) -> (r: Result<(), VaultError>)
    ensures
        match r {
            Ok(_) => {
                &&& refusal(key, name@, username@).is_none()
                &&& final(vault)@.len() == old(vault)@.len() + 1
                &&& final(vault)@.drop_last() == old(vault)@
                &&& same_identity(final(vault)@.last(), name@, username@)
                &&& sealed_for(final(vault)@.last().password, secret@)
                &&& final(vault)@.last().password != secret@
                &&& all_well_formed(old(vault)@) ==> all_well_formed(final(vault)@)
            },
            Err(e) => {
                &&& refusal(key, name@, username@) == Some(e)
                &&& final(vault)@ == old(vault)@
            },
        },
{
    let k = match key {
        Some(k) => k,
        None => {
            return Err(VaultError::KeyAbsent);
        },
    };
    if !is_valid_field(name) || !is_valid_field(username) {
        return Err(VaultError::ValidationError);
    }
    match encrypt_text(secret, k) {
        Some(token) => {
            let record = Service::new(String::from_str(name), token, String::from_str(username));
            vault.insert(record);
            assert(vault@.drop_last() =~= old(vault)@);
            Ok(())
        },
        None => Err(VaultError::KeyRejected),
    }
}

/// The label of one record: for a list to reveal from with the sign of the
/// lock, for a list to delete from without.
pub open spec fn shown_as(e: Entry, lock: Option<bool>) -> Seq<char> {
    match lock {
        Some(unlocked) => display_label_of(e.name, e.username, unlocked),
        None => label_of(e.name, e.username),
    }
}

/// The labels of the records, in the records' order.
pub open spec fn shown(rows: Seq<Entry>, lock: Option<bool>) -> Seq<Seq<char>> {
    rows.map_values(|e: Entry| shown_as(e, lock))
}

/// The labels of the records in ascending order, one for each record.
/// With `lock` the labels are those of a list to reveal from and say whether
/// the key is there; without, those of a list to delete from.
pub fn sorted_labels(rows: &Vec<Service>, lock: Option<bool>) -> (labels: Vec<String>)
    ensures
        texts(labels@).to_multiset() == shown(entries(rows@), lock).to_multiset(),
        ascending(texts(labels@)),
{
    let mut labels: Vec<String> = Vec::new();
    let mut i: usize = 0;
    while i < rows.len()
        invariant
            i <= rows@.len(),
            labels@.len() == i,
            forall|j: int| 0 <= j < i ==> (#[trigger] labels@[j])@ == shown_as(rows@[j]@, lock),
        decreases rows@.len() - i,
    {
        let row = &rows[i];
        let label = match lock {
            Some(unlocked) => display_label(row.name(), row.username(), unlocked),
            None => service_label(row.name(), row.username()),
        };
        labels.push(label);
        i += 1;
    }
    assert(texts(labels@) =~= shown(entries(rows@), lock));
    sort_texts(&labels)
}

/// The records that a listing shows: all of them, or those whose name holds
/// the search term.
pub open spec fn listed(all: Seq<Entry>, term: Option<&str>) -> Seq<Entry> {
    match term {
        Some(t) => all.filter(name_holds(t@)),
        None => all,
    }
}

/// What is put before the user to choose from: the records, all or those of a
/// search, and their labels in ascending order. An empty vault and a search
/// without a hit are told apart.
pub fn display_services(vault: &Vault, term: Option<&str>, unlocked: bool) -> (r: Result<
    (Vec<Service>, Vec<String>),
    VaultError,
>)
    ensures
        match r {
            Ok((rows, labels)) => {
                &&& listed(vault@, term).len() > 0
                &&& entries(rows@) == listed(vault@, term)
                &&& texts(labels@).to_multiset() == shown(
                    listed(vault@, term),
                    Some(unlocked),
                ).to_multiset()
                &&& ascending(texts(labels@))
            },
            Err(e) => if vault@.len() == 0 {
                e == VaultError::EmptyVault
            } else {
                e == VaultError::EmptyResult && listed(vault@, term).len() == 0
            },
        },
{
    if vault.len() == 0 {
        return Err(VaultError::EmptyVault);
    }
    let rows = get_services(vault, term);
    if rows.len() == 0 {
        return Err(VaultError::EmptyResult);
    }
    let labels = sorted_labels(&rows, Some(unlocked));
    Ok((rows, labels))
}

/// Row `i` is the first that the pair `(name, username)` addresses.
pub open spec fn first_match(rows: Seq<Entry>, name: Seq<char>, username: Seq<char>, i: int) -> bool {
    &&& 0 <= i < rows.len()
    &&& same_identity(rows[i], name, username)
    &&& forall|j: int| 0 <= j < i ==> !same_identity(#[trigger] rows[j], name, username)
}

/// The label names a record of the list.
pub open spec fn names_a_row(rows: Seq<Entry>, label: Seq<char>) -> bool {
    match parsed(label) {
        Some((name, username)) => exists|i: int|
            0 <= i < rows.len() && same_identity(#[trigger] rows[i], name, username),
        None => false,
    }
}

/// The record that a chosen label stands for: the first of the list with the
/// name and username that the label reads back to.
pub fn select_service(rows: &Vec<Service>, label: &str) -> (at: Option<usize>)
    ensures
        match at {
            Some(i) => parsed(label@) matches Some((name, username)) && first_match(
                entries(rows@),
                name,
                username,
                i as int,
            ),
            None => !names_a_row(entries(rows@), label@),
        },
{
    let (name, username) = match parse_label(label) {
        Some(pair) => pair,
        None => {
            return None;
        },
    };
    let mut i: usize = 0;
    while i < rows.len()
        invariant
            i <= rows@.len(),
            parsed(label@) == Some((name@, username@)),
            forall|j: int|
                0 <= j < i ==> !same_identity(#[trigger] entries(rows@)[j], name@, username@),
        decreases rows@.len() - i,
    {
        assert(entries(rows@)[i as int] == rows@[i as int]@);
        if rows[i].has_identity(name.as_str(), username.as_str()) {
            return Some(i);
        }
        i += 1;
    }
    None
}

/// The token that a reveal hands to the cipher: the password of the first
/// record of the list with the name and username that the chosen label reads
/// back to. Without a key there is nothing to hand over, whatever was chosen;
/// a label that names no record of the list is `EmptyResult`.
pub fn token_to_open<'a>(rows: &'a Vec<Service>, label: &str, key: Option<&str>) -> (r: Result<
    &'a str,
    VaultError,
>)
    ensures
        match r {
            Ok(token) => {
                &&& key.is_some()
                &&& parsed(label@) matches Some((name, username)) && exists|i: int|
                    first_match(entries(rows@), name, username, i) && token@ == (
                    #[trigger] entries(rows@)[i]).password
            },
            Err(e) => if key.is_none() {
                e == VaultError::KeyAbsent
            } else {
                e == VaultError::EmptyResult && !names_a_row(entries(rows@), label@)
            },
        },
{
    if key.is_none() {
        return Err(VaultError::KeyAbsent);
    }
    match select_service(rows, label) {
        Some(i) => {
            assert(entries(rows@)[i as int] == rows@[i as int]@);
            Ok(rows[i].password())
        },
        None => Err(VaultError::EmptyResult),
    }
}

/// Opens the secret of the record that the chosen label stands for: the
/// token of that record is handed to the cipher with the key. Without a key
/// nothing is opened, whatever was chosen; a label that names no record of
/// the list is `EmptyResult`; what the cipher refuses is `DecryptError`.
/// The records are not touched.
pub fn reveal_service(rows: &Vec<Service>, label: &str, key: Option<&str>) -> (r: Result<
    Vec<u8>,
    VaultError,
>)
    ensures
        key.is_none() ==> r == Err::<Vec<u8>, VaultError>(VaultError::KeyAbsent),
        key.is_some() && !names_a_row(entries(rows@), label@) ==> r == Err::<Vec<u8>, VaultError>(
            VaultError::EmptyResult,
        ),
        match key {
            Some(k) => names_a_row(entries(rows@), label@) ==> {
                &&& !key_accepted(k@) ==> r is Err
                &&& r matches Err(e) ==> e == VaultError::DecryptError
            },
            None => true,
        },
{
    match token_to_open(rows, label, key) {
        Ok(token) => match key {
            Some(k) => decrypt_text(token, k),
            None => Err(VaultError::KeyAbsent),
        },
        Err(e) => Err(e),
    }
}

/// A label reads back to the identity of the record it was made of, so
/// choosing it selects a record of that very name and username: the first
/// such record of the list.
pub proof fn lemma_label_selects_its_record(rows: Seq<Entry>, i: int, lock: Option<bool>)
    requires
        0 <= i < rows.len(),
        valid_field(rows[i].name),
        valid_field(rows[i].username),
    ensures
        parsed(shown_as(rows[i], lock)) == Some((rows[i].name, rows[i].username)),
        names_a_row(rows, shown_as(rows[i], lock)),
{
    crate::label::lemma_label_round_trip(rows[i].name, rows[i].username, lock == Some(true));
    assert(same_identity(rows[i], rows[i].name, rows[i].username));
}

/// Two well-formed records with the same label have the same name and the
/// same username: a label addresses one identity only.
pub proof fn lemma_label_tells_identities_apart(a: Entry, b: Entry, lock: Option<bool>)
    requires
        well_formed(a),
        well_formed(b),
        shown_as(a, lock) == shown_as(b, lock),
    ensures
        a.name == b.name,
        a.username == b.username,
{
    crate::label::lemma_label_round_trip(a.name, a.username, lock == Some(true));
    crate::label::lemma_label_round_trip(b.name, b.username, lock == Some(true));
}

/// One record stands before another or at it by the pair of name and
/// username: the names decide where they differ, else the usernames.
pub open spec fn pair_le(a: Entry, b: Entry) -> bool {
    if a.name == b.name {
        lex_le(a.username, b.username)
    } else {
        lex_le(a.name, b.name)
    }
}

/// Labels are ordered as the pairs of name and username are, for records
/// whose names and usernames hold only characters above the space.
pub proof fn lemma_label_order_is_pair_order(a: Entry, b: Entry, lock: Option<bool>)
    requires
        above_space(a.name),
        above_space(a.username),
        above_space(b.name),
        above_space(b.username),
    ensures
        lex_le(shown_as(a, lock), shown_as(b, lock)) == pair_le(a, b),
{
    reveal_strlit(" with username/email ");
    reveal_strlit(" has password \u{1F513}");
    reveal_strlit(" has password \u{1F510}");
    let tail = match lock {
        Some(unlocked) => suffix(unlocked),
        None => Seq::<char>::empty(),
    };
    let ra = infix() + a.username + tail;
    let rb = infix() + b.username + tail;
    assert(shown_as(a, lock) =~= a.name + ra);
    assert(shown_as(b, lock) =~= b.name + rb);
    assert(ra[0] == ' ' && rb[0] == ' ');
    if a.name != b.name {
        lemma_lex_first_word_decides(a.name, ra, b.name, rb);
    } else {
        let start = a.name + infix();
        assert(a.name + ra =~= start + (a.username + tail));
        assert(b.name + rb =~= start + (b.username + tail));
        lemma_lex_common_start(start, a.username + tail, b.username + tail);
        if a.username == b.username {
            lemma_lex_reflexive(a.username);
            lemma_lex_reflexive(a.username + tail);
        } else if tail.len() == 0 {
            assert(a.username + tail =~= a.username);
            assert(b.username + tail =~= b.username);
        } else {
            assert(tail[0] == ' ');
            lemma_lex_first_word_decides(a.username, tail, b.username, tail);
        }
    }
}

/// A listing of records whose names and usernames hold only characters above
/// the space is in the order of the pairs: where the labels of the records
/// ascend, so do the records by name and then username.
pub proof fn lemma_listing_is_in_pair_order(rows: Seq<Entry>, lock: Option<bool>)
    requires
        ascending(shown(rows, lock)),
        forall|i: int|
            0 <= i < rows.len() ==> above_space((#[trigger] rows[i]).name) && above_space(
                rows[i].username,
            ),
    ensures
        forall|i: int, j: int|
            0 <= i < j < rows.len() ==> pair_le(#[trigger] rows[i], #[trigger] rows[j]),
{
    assert forall|i: int, j: int| 0 <= i < j < rows.len() implies pair_le(
        #[trigger] rows[i],
        #[trigger] rows[j],
    ) by {
        lemma_label_order_is_pair_order(rows[i], rows[j], lock);
        assert(lex_le(shown(rows, lock)[i], shown(rows, lock)[j]));
    }
}

/// The same records in another order have the same labels, each as often.
pub proof fn lemma_labels_ignore_order(a: Seq<Entry>, b: Seq<Entry>, lock: Option<bool>)
    requires
        a.to_multiset() == b.to_multiset(),
    ensures
        shown(a, lock).to_multiset() == shown(b, lock).to_multiset(),
    decreases a.len(),
{
    a.to_multiset_ensures();
    b.to_multiset_ensures();
    if a.len() == 0 {
        assert(shown(a, lock) =~= shown(b, lock));
    } else {
        let x = a.last();
        assert(a.contains(x));
        assert(a.to_multiset().count(x) > 0);
        assert(b.to_multiset().count(x) > 0);
        let j = choose|j: int| 0 <= j < b.len() && b[j] == x;
        let a1 = a.drop_last();
        let b1 = b.remove(j);
        assert(a1 =~= a.remove(a.len() - 1));
        to_multiset_remove(a, a.len() - 1);
        to_multiset_remove(b, j);
        lemma_labels_ignore_order(a1, b1, lock);
        let la = shown(a, lock);
        let lb = shown(b, lock);
        assert(shown(a1, lock) =~= la.remove(la.len() - 1));
        assert(shown(b1, lock) =~= lb.remove(j));
        to_multiset_remove(la, la.len() - 1);
        to_multiset_remove(lb, j);
        la.to_multiset_ensures();
        lb.to_multiset_ensures();
        assert(la[la.len() - 1] == shown_as(x, lock));
        assert(lb[j] == shown_as(x, lock));
        assert(la.contains(shown_as(x, lock)));
        assert(lb.contains(shown_as(x, lock)));
        assert(la.to_multiset().count(shown_as(x, lock)) > 0);
        assert(lb.to_multiset().count(shown_as(x, lock)) > 0);
        assert(la.to_multiset() =~= shown(a1, lock).to_multiset().insert(shown_as(x, lock)));
        assert(lb.to_multiset() =~= shown(b1, lock).to_multiset().insert(shown_as(x, lock)));
    }
}

/// A listing does not depend on the order in which storage gave the
/// records: two ascending listings of the same records, however ordered,
/// are equal label by label.
pub proof fn lemma_listing_ignores_storage_order(
    a: Seq<Entry>,
    b: Seq<Entry>,
    lock: Option<bool>,
    first: Seq<Seq<char>>,
    second: Seq<Seq<char>>,
)
    requires
        a.to_multiset() == b.to_multiset(),
        first.to_multiset() == shown(a, lock).to_multiset(),
        second.to_multiset() == shown(b, lock).to_multiset(),
        ascending(first),
        ascending(second),
    ensures
        first == second,
{
    lemma_labels_ignore_order(a, b, lock);
    lemma_listing_is_stable(shown(a, lock), first, second);
}

/// How a request to delete records ended.
#[derive(Debug, Clone, Copy, PartialEq, Eq, Structural)]
pub enum Deletion {
    /// The user chose no record: nothing was deleted.
    NothingSelected,
    /// The user did not confirm: nothing was deleted.
    Declined,
    /// This many records were deleted.
    Deleted(usize),
}

/// One of the chosen labels reads back to the identity of `e`.
pub open spec fn named_by(chosen: Seq<Seq<char>>, e: Entry) -> bool {
    exists|k: int| 0 <= k < chosen.len() && parsed(#[trigger] chosen[k]) == Some((e.name, e.username))
}

/// The records that none of the chosen labels names.
pub open spec fn spared(chosen: Seq<Seq<char>>) -> spec_fn(Entry) -> bool {
    |e: Entry| !named_by(chosen, e)
}

/// What is left of the records after a request to delete: with no selection
/// the request is for all of them, with one for every record that a chosen
/// label names. Nothing goes without confirmation.
pub open spec fn after_deletion(
    all: Seq<Entry>,
    selection: Option<&Vec<String>>,
    confirmed: bool,
) -> Seq<Entry> {
    if !confirmed {
        all
    } else {
        match selection {
            None => Seq::empty(),
            Some(chosen) => all.filter(spared(texts(chosen@))),
        }
    }
}

/// Filtering twice is filtering once by both conditions.
proof fn lemma_filter_twice(
    s: Seq<Entry>,
    p: spec_fn(Entry) -> bool,
    q: spec_fn(Entry) -> bool,
    both: spec_fn(Entry) -> bool,
)
    requires
        forall|e: Entry| #[trigger] both(e) == (p(e) && q(e)),
    ensures
        s.filter(p).filter(q) == s.filter(both),
    decreases s.len(),
{
    reveal(Seq::filter);
    if s.len() > 0 {
        lemma_filter_twice(s.drop_last(), p, q, both);
        if p(s.last()) {
            assert(s.drop_last().filter(p).push(s.last()).drop_last() =~= s.drop_last().filter(p));
        }
    }
}

/// Two conditions that agree on every record filter alike.
proof fn lemma_filter_alike(s: Seq<Entry>, p: spec_fn(Entry) -> bool, r: spec_fn(Entry) -> bool)
    requires
        forall|e: Entry| #[trigger] p(e) == r(e),
    ensures
        s.filter(p) == s.filter(r),
    decreases s.len(),
{
    reveal(Seq::filter);
    if s.len() > 0 {
        lemma_filter_alike(s.drop_last(), p, r);
    }
}

/// Deletes on request: every record where `selection` is `None`, else every
/// record that one of the chosen labels names, all records of a shared
/// identity together. An empty vault is reported; an empty selection and a
/// request that was not confirmed delete nothing and say so.
pub fn delete_services(vault: &mut Vault, selection: Option<&Vec<String>>, confirmed: bool) -> (r:
    Result<Deletion, VaultError>)
    ensures
        match r {
            Err(e) => e == VaultError::EmptyVault && old(vault)@.len() == 0 && final(vault)@ == old(
                vault,
            )@,
            Ok(Deletion::NothingSelected) => {
                &&& old(vault)@.len() > 0
                &&& selection matches Some(chosen) && chosen@.len() == 0
                &&& final(vault)@ == old(vault)@
            },
            Ok(Deletion::Declined) => {
                &&& old(vault)@.len() > 0
                &&& !(selection matches Some(chosen) && chosen@.len() == 0)
                &&& !confirmed
                &&& final(vault)@ == old(vault)@
            },
            Ok(Deletion::Deleted(n)) => {
                &&& old(vault)@.len() > 0
                &&& !(selection matches Some(chosen) && chosen@.len() == 0)
                &&& confirmed
                &&& final(vault)@ == after_deletion(old(vault)@, selection, confirmed)
                &&& n == old(vault)@.len() - final(vault)@.len()
            },
        },
{
    let before: usize = vault.len();
    if before == 0 {
        return Err(VaultError::EmptyVault);
    }
    let chosen = match selection {
        None => {
            if !confirmed {
                return Ok(Deletion::Declined);
            }
            purge_database(vault, true);
            return Ok(Deletion::Deleted(before));
        },
        Some(chosen) => chosen,
    };
    if chosen.len() == 0 {
        return Ok(Deletion::NothingSelected);
    }
    if !confirmed {
        return Ok(Deletion::Declined);
    }
    let ghost all = vault@;
    let ghost picks = texts(chosen@);
    let mut k: usize = 0;
    proof {
        lemma_filter_alike(all, spared(picks.take(0)), |e: Entry| true);
        assert(all.filter(|e: Entry| true) =~= all) by {
            lemma_keeps_all(all);
        }
    }
    while k < chosen.len()
        invariant
            k <= chosen@.len(),
            picks == texts(chosen@),
            all == old(vault)@,
            vault@ == all.filter(spared(picks.take(k as int))),
        decreases chosen@.len() - k,
    {
        let ghost p = spared(picks.take(k as int));
        let ghost both = spared(picks.take(k + 1));
        proof {
            assert(picks.take(k + 1) =~= picks.take(k as int).push(picks[k as int]));
            assert(picks[k as int] == chosen@[k as int]@);
        }
        match parse_label(chosen[k].as_str()) {
            Some((name, username)) => {
                let probe = Service::new(name, String::new(), username);
                let ghost q = other_than(probe@.name, probe@.username);
                delete_record(vault, &probe);
                proof {
                    assert forall|e: Entry| #[trigger] both(e) == (p(e) && q(e)) by {
                        lemma_named_by_one_more(picks.take(k as int), picks[k as int], e);
                    }
                    lemma_filter_twice(all, p, q, both);
                }
            },
            None => {
                proof {
                    assert forall|e: Entry| #[trigger] p(e) == both(e) by {
                        lemma_named_by_one_more(picks.take(k as int), picks[k as int], e);
                    }
                    lemma_filter_alike(all, p, both);
                }
            },
        }
        k += 1;
    }
    proof {
        assert(picks.take(k as int) =~= picks);
        all.lemma_filter_len(spared(picks));
    }
    let left: usize = vault.len();
    Ok(Deletion::Deleted(before - left))
}

/// A condition that holds of every record keeps them all.
proof fn lemma_keeps_all(s: Seq<Entry>)
    ensures
        s.filter(|e: Entry| true) =~= s,
    decreases s.len(),
{
    reveal(Seq::filter);
    if s.len() > 0 {
        lemma_keeps_all(s.drop_last());
        assert(s.drop_last().push(s.last()) =~= s);
    }
}

/// With one more label chosen, a record is named when it was before or when
/// the new label reads back to its identity.
proof fn lemma_named_by_one_more(chosen: Seq<Seq<char>>, next: Seq<char>, e: Entry)
    ensures
        named_by(chosen.push(next), e) == (named_by(chosen, e) || parsed(next) == Some(
            (e.name, e.username),
        )),
{
    let more = chosen.push(next);
    if named_by(chosen, e) {
        let k = choose|k: int|
            0 <= k < chosen.len() && parsed(#[trigger] chosen[k]) == Some((e.name, e.username));
        assert(more[k] == chosen[k]);
    }
    if parsed(next) == Some((e.name, e.username)) {
        assert(more[chosen.len() as int] == next);
    }
    if named_by(more, e) {
        let k = choose|k: int|
            0 <= k < more.len() && parsed(#[trigger] more[k]) == Some((e.name, e.username));
        if k < chosen.len() {
            assert(more[k] == chosen[k]);
        }
    }
}

} // verus!
