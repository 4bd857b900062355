//! Where the preferences come from: the stored ones when a preferences file
//! exists, the product defaults otherwise. Reading and writing the file is
//! the application's.
use vstd::prelude::*;

use crate::domain::Preferences;

verus! {

/// The preferences to use: what reading the stored file gave (`None` when
/// there is no file), or the product defaults.
pub fn load_or_default_from(stored: Option<Result<Preferences, String>>) -> (r: Result<Preferences, String>)
    ensures
        match stored {
            Some(s) => r == s,
            None => r matches Ok(p) && !p.onboarding_complete && p.party_size == 2
                && p.favorite_venue_ids@.len() == 0 && p.city is None && p.accepted_languages@.len() == 0
                && p.accepted_formats@.len() == 0 && p.accepted_room_types@.len() == 0,
        },
{
    match stored {
        Some(s) => s,
        None => Ok(Preferences::defaults()),
    }
}

} // verus!
