//! Names under which passwords are kept in the operating system's credential
//! store. Reading and writing the store is the application's part.

use vstd::prelude::*;
use crate::text::{chars_of, concat, string_of};

verus! {

/// The service every password is filed under.
pub const SERVICE: &'static str = "LeagueAccounts";

/// The user name of an account's password: `region:account_id`.
pub open spec fn credential_user(region: Seq<char>, account_id: Seq<char>) -> Seq<char> {
    region + ":"@ + account_id
}

/// The target name of a password entry: `user@service`.
pub open spec fn credential_target_name(user: Seq<char>, service: Seq<char>) -> Seq<char> {
    user + "@"@ + service
}

/// The user name of an account's password: `region:account_id`.
pub fn credential_username(region: &str, account_id: &str) -> (r: String)
    ensures
        r@ == credential_user(region@, account_id@),
{
    string_of(&concat(&concat(&chars_of(region), &chars_of(":")), &chars_of(account_id)))
}

/// The target name of a password entry: `user@service`.
pub fn credential_target(user: &str, service: &str) -> (r: String)
    ensures
        r@ == credential_target_name(user@, service@),
{
    string_of(&concat(&concat(&chars_of(user), &chars_of("@")), &chars_of(service)))
}

/// Whether the entry filed under the service alone, as older versions of the
/// application kept it, is the password of `username`: its `username`
/// attribute (`attribute`, where it has one) names that user.
pub fn legacy_entry_is_for(attribute: Option<&str>, username: &str) -> (b: bool)
    ensures
        b == (attribute matches Some(a) && a@ == username@),
{
    match attribute {
        Some(a) => crate::text::str_equal(a, username),
        None => false,
    }
}

/// The user whose entry filed under the service alone must first be copied
/// to its own target, before the password of `username` is written: the
/// user that the entry's `username` attribute names, where that is another.
pub fn legacy_user_to_migrate(attribute: Option<&str>, username: &str) -> (r: Option<String>)
    ensures
        match attribute {
            Some(a) => if a@ == username@ {
                r is None
            } else {
                r matches Some(u) && u@ == a@
            },
            None => r is None,
        },
{
    match attribute {
        Some(a) => {
            if crate::text::str_equal(a, username) {
                None
            } else {
                Some(a.to_owned())
            }
        },
        None => None,
    }
}

} // verus!
