//! Command-line requests, and the validation of their numeric arguments.
use vstd::prelude::*;

use crate::text::{owned, parse_unsigned, parse_unsigned_spec};

verus! {

/// A command line: an optional subcommand.
#[derive(Debug)]
pub struct Cli {
    pub command: Option<Command>,
}

#[derive(Debug)]
pub enum Command {
    /// Starts the interactive terminal application.
    Tui,
    /// Writes recommendations as JSON.
    Recommend(Box<RecommendArgs>),
    /// Revalidates a recommendation and opens the guest checkout.
    Checkout(Box<CheckoutArgs>),
}

#[derive(Debug, Clone)]
pub struct CheckoutArgs {
    pub recommend: RecommendArgs,
    /// The exact identifier returned by `recommend`.
    pub recommendation_id: String,
    /// Confirms that the seats may be held.
    pub yes: bool,
}

/// The query of the `recommend` subcommand. Exactly one of `movie_id` and
/// `movie_title` is given.
#[derive(Debug, Clone)]
pub struct RecommendArgs {
    pub movie_id: Option<String>,
    pub movie_title: Option<String>,
    pub city: String,
    pub party_size: usize,
    pub dates: Vec<String>,
    pub venues: Vec<String>,
    pub languages: Vec<String>,
    pub formats: Vec<String>,
    pub room_types: Vec<String>,
    pub favorite_venues: Vec<String>,
    pub limit: usize,
}

/// Reads a party size: a whole number from 1 to 5.
pub fn parse_party_size(value: &str) -> (r: Result<usize, String>)
    ensures
        r matches Ok(v) ==> parse_unsigned_spec(value@, usize::MAX as nat) == Some(v as nat) && 1 <= v
            <= 5,
        r matches Err(e) ==> (parse_unsigned_spec(value@, usize::MAX as nat) is None && e@
            == "debe ser un entero entre 1 y 5"@) || (parse_unsigned_spec(value@, usize::MAX as nat)
            matches Some(v) && !(1 <= v <= 5) && e@ == "debe estar entre 1 y 5"@),
{
    let parsed = parse_unsigned(value, usize::MAX as u64);
    match parsed {
        None => Err(owned("debe ser un entero entre 1 y 5")),
        Some(v) => {
            if 1 <= v && v <= 5 {
                Ok(v as usize)
            } else {
                Err(owned("debe estar entre 1 y 5"))
            }
        },
    }
}

/// Reads a positive whole number.
pub fn parse_positive(value: &str) -> (r: Result<usize, String>)
    ensures
        r matches Ok(v) ==> parse_unsigned_spec(value@, usize::MAX as nat) == Some(v as nat) && v > 0,
        r matches Err(e) ==> (parse_unsigned_spec(value@, usize::MAX as nat) is None && e@
            == "debe ser un entero positivo"@) || (parse_unsigned_spec(value@, usize::MAX as nat)
            == Some(0nat) && e@ == "debe ser mayor que cero"@),
{
    let parsed = parse_unsigned(value, usize::MAX as u64);
    match parsed {
        None => Err(owned("debe ser un entero positivo")),
        Some(v) => {
            if v > 0 {
                Ok(v as usize)
            } else {
                Err(owned("debe ser mayor que cero"))
            }
        },
    }
}

} // verus!
