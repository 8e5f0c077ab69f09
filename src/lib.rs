//! ISBN-13 parsing and validation, together with a few small verified
//! utilities: card-hand scoring, a Morse mapper, deduplication, a
//! case-insensitive name sort, summing partially missing data, and whole
//! weeks between calendar dates.
use vstd::prelude::*;

pub mod cards;
pub mod collections;
pub mod dates;
pub mod isbn;
pub mod missing;
pub mod morse;
pub mod usernames;

verus! {

} // verus!
