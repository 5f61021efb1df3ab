//! Where the key and the table are kept: two files of fixed names in the
//! user's home directory.

use vstd::prelude::*;
use vstd::string::*;

verus! {

/// The key file's path below `home`.
pub open spec fn key_file_in(home: Seq<char>) -> Seq<char> {
    home + "/safepass.key"@
}

/// The table file's path below `home`.
pub open spec fn database_in(home: Seq<char>) -> Seq<char> {
    home + "/safepass.db3"@
}

/// The path of the key file for a user whose home directory is `home`.
pub fn get_key_file_path(home: &str) -> (path: String)
    ensures
        path@ == key_file_in(home@),
{
    let mut path = String::from_str(home);
    path.append("/safepass.key");
    path
}

/// The path of the table file for a user whose home directory is `home`.
pub fn get_database_path(home: &str) -> (path: String)
    ensures
        path@ == database_in(home@),
{
    let mut path = String::from_str(home);
    path.append("/safepass.db3");
    path
}

} // verus!
