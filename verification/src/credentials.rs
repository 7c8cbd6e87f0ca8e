//! What the desktop shell does with the PUBG API key that the user enters or
//! that the keyring holds.
use vstd::prelude::*;
use crate::text::{is_blank, str_is_blank, trim, trim_str};

verus! {

/// What saving an API key does to the keyring entry.
#[derive(Debug, Clone, PartialEq, Eq)]
pub enum ApiKeyUpdate {
    /// The entry is deleted.
    Delete,
    /// The entry is set to this key.
    Store(String),
}

/// A blank key deletes the stored key; any other key is
/// stored without its surrounding white space.
pub fn api_key_update(api_key: &str) -> (r: ApiKeyUpdate)
    ensures
        is_blank(api_key@) <==> r == ApiKeyUpdate::Delete,
        r matches ApiKeyUpdate::Store(key) ==> key@ == trim(api_key@),
{
    let trimmed = trim_str(api_key);
    if trimmed.unicode_len() == 0 {
        return ApiKeyUpdate::Delete;
    }
    ApiKeyUpdate::Store(String::from_str(trimmed))
}

/// Whether an API key is configured: the keyring holds a key that is not
/// blank.
pub fn api_key_configured(stored: Option<&str>) -> (r: bool)
    ensures
        r == (stored matches Some(key) && !is_blank(key@)),
{
    match stored {
        Some(key) => !str_is_blank(key),
        None => false,
    }
}

} // verus!
