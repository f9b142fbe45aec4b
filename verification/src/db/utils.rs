//! Where the database file lies.

use vstd::prelude::*;

verus! {

/// The path of the database file: the one that the environment names, if it
/// names one, else the default.
pub fn get_db_path(default_path: String, named: Option<String>) -> (r: String)
    ensures
        r == match named {
            Some(path) => path,
            None => default_path,
        },
{
    match named {
        Some(path) => path,
        None => default_path,
    }
}

} // verus!
