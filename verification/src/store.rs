//! The table of records.
//!
//! A vault holds its records in the order in which they were inserted and
//! enforces no uniqueness: two records may share name and username, and an
//! operation that goes by identity takes all of them.

use crate::record::{all_well_formed, entries, same_identity, Entry, Service};
use crate::text::{contains, str_contains};
use vstd::prelude::*;

verus! {

/// The table of records.
pub struct Vault {
    rows: Vec<Service>,
}

impl View for Vault {
    type V = Seq<Entry>;

    closed spec fn view(&self) -> Seq<Entry> {
        entries(self.rows@)
    }
}

/// The records whose name holds `term`.
pub open spec fn name_holds(term: Seq<char>) -> spec_fn(Entry) -> bool {
    |e: Entry| contains(e.name, term)
}

/// The records that the pair `(name, username)` addresses.
pub open spec fn addressed_by(name: Seq<char>, username: Seq<char>) -> spec_fn(Entry) -> bool {
    |e: Entry| same_identity(e, name, username)
}

/// The records that the pair `(name, username)` does not address.
pub open spec fn other_than(name: Seq<char>, username: Seq<char>) -> spec_fn(Entry) -> bool {
    |e: Entry| !same_identity(e, name, username)
}

impl Vault {
    /// How many records the vault holds.
    pub fn len(&self) -> (n: usize)
        ensures
            n == self@.len(),
    {
        self.rows.len()
    }

    /// Appends one record. Nothing is checked: a record of the same identity
    /// may be there already.
    pub fn insert(&mut self, record: Service)
        ensures
            final(self)@ == old(self)@.push(record@),
    {
        self.rows.push(record);
        assert(entries(self.rows@) =~= entries(old(self).rows@).push(record@));
    }
}

/// An empty table.
pub fn create_database() -> (vault: Vault)
    ensures
        vault@ == Seq::<Entry>::empty(),
{
    let vault = Vault { rows: Vec::new() };
    assert(entries(vault.rows@) =~= Seq::<Entry>::empty());
    vault
}

/// The records of the vault in the order in which they were inserted: all of
/// them, or with a search term those whose name holds the term, character
/// for character.
pub fn get_services(vault: &Vault, term: Option<&str>) -> (found: Vec<Service>)
    ensures
        entries(found@) == match term {
            Some(t) => vault@.filter(name_holds(t@)),
            None => vault@,
        },
{
    let ghost all = vault@;
    let ghost keep = match term {
        Some(t) => name_holds(t@),
        None => |e: Entry| true,
    };
    let mut found: Vec<Service> = Vec::new();
    let mut i: usize = 0;
    assert(all.take(0).filter(keep) =~= Seq::<Entry>::empty()) by {
        reveal(Seq::filter);
    }
    assert(entries(found@) =~= Seq::<Entry>::empty());
    while i < vault.rows.len()
        invariant
            i <= vault.rows@.len(),
            all == entries(vault.rows@),
            keep == match term {
                Some(t) => name_holds(t@),
                None => |e: Entry| true,
            },
            entries(found@) == all.take(i as int).filter(keep),
            term.is_none() ==> entries(found@) == all.take(i as int),
        decreases vault.rows@.len() - i,
    {
        let row = &vault.rows[i];
        let wanted = match term {
            Some(t) => str_contains(row.name(), t),
            None => true,
        };
        proof {
            reveal(Seq::filter);
            assert(all.take(i + 1).drop_last() =~= all.take(i as int));
            assert(all.take(i + 1).last() == row@);
            assert(wanted == keep(row@));
            assert(all.take(i + 1) =~= all.take(i as int).push(row@));
        }
        if wanted {
            let ghost before = found@;
            found.push(row.clone());
            assert(entries(found@) =~= entries(before).push(row@));
        }
        i += 1;
    }
    assert(all.take(i as int) =~= all);
    found
}

/// Deletes every record that `service` shares its name and username with,
/// and says how many there were. None at all is no failure.
pub fn delete_record(vault: &mut Vault, service: &Service) -> (removed: usize)
    ensures
        final(vault)@ == old(vault)@.filter(other_than(service@.name, service@.username)),
        removed == old(vault)@.len() - final(vault)@.len(),
{
    let ghost all = vault@;
    let ghost keep = other_than(service@.name, service@.username);
    let mut kept: Vec<Service> = Vec::new();
    let mut i: usize = 0;
    assert(all.take(0).filter(keep) =~= Seq::<Entry>::empty()) by {
        reveal(Seq::filter);
    }
    assert(entries(kept@) =~= Seq::<Entry>::empty());
    while i < vault.rows.len()
        invariant
            i <= vault.rows@.len(),
            all == entries(vault.rows@),
            keep == other_than(service@.name, service@.username),
            entries(kept@) == all.take(i as int).filter(keep),
            kept@.len() <= i,
        decreases vault.rows@.len() - i,
    {
        let row = &vault.rows[i];
        let hit = row.has_identity(service.name(), service.username());
        proof {
            reveal(Seq::filter);
            assert(all.take(i + 1).drop_last() =~= all.take(i as int));
            assert(all.take(i + 1).last() == row@);
            assert(hit == !keep(row@));
        }
        if !hit {
            let ghost before = kept@;
            kept.push(row.clone());
            assert(entries(kept@) =~= entries(before).push(row@));
        }
        i += 1;
    }
    assert(all.take(i as int) =~= all);
    let removed: usize = vault.rows.len() - kept.len();
    vault.rows = kept;
    removed
}

/// Deletes every record where the user has confirmed, and none where not.
pub fn purge_database(vault: &mut Vault, confirmed: bool)
    ensures
        final(vault)@ == if confirmed {
            Seq::<Entry>::empty()
        } else {
            old(vault)@
        },
{
    if confirmed {
        vault.rows = Vec::new();
        assert(entries(vault.rows@) =~= Seq::<Entry>::empty());
    }
}

/// A search finds exactly the records whose name holds the term: every
/// record found holds it and was in the vault, and every record of the vault
/// that holds it is found.
pub proof fn lemma_search_is_exact(rows: Seq<Entry>, term: Seq<char>)
    ensures
        forall|i: int|
            0 <= i < rows.filter(name_holds(term)).len() ==> contains(
                (#[trigger] rows.filter(name_holds(term))[i]).name,
                term,
            ) && rows.contains(rows.filter(name_holds(term))[i]),
        forall|j: int|
            0 <= j < rows.len() && contains(rows[j].name, term) ==> rows.filter(
                name_holds(term),
            ).contains(#[trigger] rows[j]),
{
    let hit = name_holds(term);
    let found = rows.filter(hit);
    assert forall|i: int| 0 <= i < found.len() implies contains((#[trigger] found[i]).name, term)
        && rows.contains(found[i]) by {
        rows.lemma_filter_pred(hit, i);
        assert(found.contains(found[i]));
        rows.lemma_filter_contains_rev(hit, found[i]);
    }
    assert forall|j: int| 0 <= j < rows.len() && contains(rows[j].name, term) implies found.contains(
        #[trigger] rows[j],
    ) by {
        rows.lemma_filter_contains(hit, j);
    }
}

/// A search and a deletion hand on records that were there: of well-formed
/// records only well-formed ones are kept, whatever the condition.
pub proof fn lemma_kept_are_well_formed(rows: Seq<Entry>, keep: spec_fn(Entry) -> bool)
    requires
        all_well_formed(rows),
    ensures
        all_well_formed(rows.filter(keep)),
    decreases rows.len(),
{
    reveal(Seq::filter);
    if rows.len() > 0 {
        lemma_kept_are_well_formed(rows.drop_last(), keep);
    }
}

/// Deleting by identity takes every record of that identity and no other:
/// none of them is left, the others stay, and the count goes down by exactly
/// the number of records that the pair addressed.
pub proof fn lemma_delete_takes_every_match(rows: Seq<Entry>, name: Seq<char>, username: Seq<char>)
    ensures
        forall|i: int|
            0 <= i < rows.filter(other_than(name, username)).len() ==> !same_identity(
                #[trigger] rows.filter(other_than(name, username))[i],
                name,
                username,
            ),
        rows.filter(other_than(name, username)).len() + rows.filter(
            addressed_by(name, username),
        ).len() == rows.len(),
    decreases rows.len(),
{
    reveal(Seq::filter);
    let keep = other_than(name, username);
    assert forall|i: int| 0 <= i < rows.filter(keep).len() implies !same_identity(
        #[trigger] rows.filter(keep)[i],
        name,
        username,
    ) by {
        rows.lemma_filter_pred(keep, i);
    }
    if rows.len() > 0 {
        lemma_delete_takes_every_match(rows.drop_last(), name, username);
    }
}

} // verus!
