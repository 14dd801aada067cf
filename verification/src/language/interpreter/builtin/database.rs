use vstd::prelude::*;
use crate::language::error::Error;
use crate::language::text::text;

verus! {

/// The built-in database object (a stand-in with fixed answers).
pub struct Database {}

impl Database {
    /// All users, as JSON.
    pub fn get_all() -> (r: Result<String, Error>)
        ensures
            r matches Ok(s) && s@ == "[{\"id\": 1, \"name\": \"User1\"}, {\"id\": 2, \"name\": \"User2\"}]"@,
    {
        Ok(text("[{\"id\": 1, \"name\": \"User1\"}, {\"id\": 2, \"name\": \"User2\"}]"))
    }

    /// Whether the database is reachable: always.
    pub fn check() -> (r: Result<bool, Error>)
        ensures
            r matches Ok(b) && b,
    {
        Ok(true)
    }
}

} // verus!
