//! The one error surfaced by this crate: a configuration failure of the
//! value-scaling helper. Lookup misses and blank images are empty results,
//! not errors.

use vstd::prelude::*;

verus! {

#[derive(Debug)]
pub enum KanjitomoError {
    /// An inverted scale range was supplied: the minimum of the source
    /// range lies above its maximum.
    ScaleError { min_source_value: i64, max_source_value: i64 },
    /// A failure reported by a collaborator outside this crate, carried as
    /// plain text.
    Custom(String),
}

} // verus!
