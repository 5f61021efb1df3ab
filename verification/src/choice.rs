//! What the user entered or picked, turned into what the vault works on.

use crate::error::VaultError;
use crate::order::texts;
use crate::text::{is_valid_field, valid_field};
use vstd::prelude::*;
use vstd::string::*;

verus! {

/// The text that the user entered, where it is acceptable: any text where
/// spaces are allowed, else a text that is not empty and holds no separator.
/// Nothing is trimmed or replaced.
pub fn get_user_input(entered: &str, allow_spaces: bool) -> (r: Result<String, VaultError>)
    ensures
        match r {
            Ok(text) => text@ == entered@ && (allow_spaces || valid_field(entered@)),
            Err(e) => e == VaultError::ValidationError && !allow_spaces && !valid_field(entered@),
        },
{
    if allow_spaces || is_valid_field(entered) {
        Ok(String::from_str(entered))
    } else {
        Err(VaultError::ValidationError)
    }
}

/// The item at the position that the user picked, with the position; nothing
/// where the list has no such position.
pub fn get_user_selection(items: &Vec<String>, selection: usize) -> (picked: Option<(String, usize)>)
    ensures
        match picked {
            Some((text, at)) => at == selection && selection < items@.len() && text@
                == items@[selection as int]@,
            None => selection >= items@.len(),
        },
{
    if selection < items.len() {
        Some((items[selection].clone(), selection))
    } else {
        None
    }
}

/// The positions that lie within a list of `len` items.
pub open spec fn within(len: nat) -> spec_fn(usize) -> bool {
    |at: usize| at < len
}

/// The items at the given positions, in the positions' order; a position
/// beyond the list gives no item.
pub open spec fn items_at(items: Seq<Seq<char>>, chosen: Seq<usize>) -> Seq<Seq<char>> {
    chosen.filter(within(items.len())).map_values(|at: usize| items[at as int])
}

/// The items at the positions that the user ticked, in the order of the
/// ticks. A position beyond the list is passed over.
pub fn get_user_multi(items: &Vec<String>, chosen: &Vec<usize>) -> (picked: Vec<String>)
    ensures
        texts(picked@) == items_at(texts(items@), chosen@),
{
    let ghost list = texts(items@);
    let mut picked: Vec<String> = Vec::new();
    let mut k: usize = 0;
    proof {
        reveal(Seq::filter);
        assert(chosen@.take(0).filter(within(list.len())) =~= Seq::<usize>::empty());
        assert(texts(picked@) =~= items_at(list, chosen@.take(0)));
    }
    while k < chosen.len()
        invariant
            k <= chosen@.len(),
            list == texts(items@),
            texts(picked@) == items_at(list, chosen@.take(k as int)),
        decreases chosen@.len() - k,
    {
        let at: usize = chosen[k];
        let ghost before = picked@;
        let ghost sofar = chosen@.take(k as int).filter(within(list.len()));
        proof {
            reveal(Seq::filter);
            assert(chosen@.take(k + 1).drop_last() =~= chosen@.take(k as int));
            assert(chosen@.take(k + 1).last() == at);
        }
        if at < items.len() {
            picked.push(items[at].clone());
            proof {
                assert(chosen@.take(k + 1).filter(within(list.len())) == sofar.push(at));
                assert(texts(picked@) =~= texts(before).push(list[at as int]));
                assert(items_at(list, chosen@.take(k + 1)) =~= items_at(
                    list,
                    chosen@.take(k as int),
                ).push(list[at as int]));
            }
        }
        k += 1;
    }
    assert(chosen@.take(k as int) =~= chosen@);
    picked
}

} // verus!
