//! One stored credential.

use crate::text::{is_valid_field, valid_field};
use vstd::prelude::*;
use vstd::string::*;

verus! {

/// What a record holds, as plain sequences of characters.
pub struct Entry {
    pub name: Seq<char>,
    pub password: Seq<char>,
    pub username: Seq<char>,
}

/// One stored credential: the service's name, the account's username, and
/// the password as a sealed token.
#[derive(Debug)]
pub struct Service {
    name: String,
    password: String,
    username: String,
}

impl View for Service {
    type V = Entry;

    closed spec fn view(&self) -> Entry {
        Entry { name: self.name@, password: self.password@, username: self.username@ }
    }
}

impl Service {
    /// A record of the three texts as given.
    pub fn new(name: String, password: String, username: String) -> (s: Service)
        ensures
            s@ == (Entry { name: name@, password: password@, username: username@ }),
    {
        Service { name, password, username }
    }

    /// The service's name.
    pub fn name(&self) -> (r: &str)
        ensures
            r@ == self@.name,
    {
        self.name.as_str()
    }

    /// The sealed password.
    pub fn password(&self) -> (r: &str)
        ensures
            r@ == self@.password,
    {
        self.password.as_str()
    }

    /// The account's username.
    pub fn username(&self) -> (r: &str)
        ensures
            r@ == self@.username,
    {
        self.username.as_str()
    }

    /// Whether name and username of this record are valid.
    pub fn is_well_formed(&self) -> (b: bool)
        ensures
            b == well_formed(self@),
    {
        is_valid_field(self.name.as_str()) && is_valid_field(self.username.as_str())
    }

    /// Whether this record is addressed by the pair `(name, username)`.
    pub fn has_identity(&self, name: &str, username: &str) -> (b: bool)
        ensures
            b == same_identity(self@, name@, username@),
    {
        str_eq(self.name.as_str(), name) && str_eq(self.username.as_str(), username)
    }
}

impl Clone for Service {
    fn clone(&self) -> (s: Service)
        ensures
            s@ == self@,
    {
        Service {
            name: self.name.clone(),
            password: self.password.clone(),
            username: self.username.clone(),
        }
    }
}

/// A record is well formed when its name and its username are valid, so that
/// its label reads back to it.
pub open spec fn well_formed(e: Entry) -> bool {
    valid_field(e.name) && valid_field(e.username)
}

/// Every record of the list is well formed.
pub open spec fn all_well_formed(rows: Seq<Entry>) -> bool {
    forall|i: int| 0 <= i < rows.len() ==> well_formed(#[trigger] rows[i])
}

/// A record is addressed by its name and username together.
pub open spec fn same_identity(e: Entry, name: Seq<char>, username: Seq<char>) -> bool {
    e.name == name && e.username == username
}

/// The records of a list, as plain values.
pub open spec fn entries(rows: Seq<Service>) -> Seq<Entry> {
    rows.map_values(|s: Service| s@)
}

/// Whether two texts hold the same characters.
pub fn str_eq(a: &str, b: &str) -> (r: bool)
    ensures
        r == (a@ == b@),
{
    let x = String::from_str(a);
    let y = String::from_str(b);
    x == y
}

} // verus!
