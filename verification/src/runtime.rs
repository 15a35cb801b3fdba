//! The tensor cache of a runtime that owns a data source and a budget.

use vstd::prelude::*;
use vstd::string::*;

use crate::scaling;
use crate::text;

verus! {

/// One mebibyte: the smallest cache, and what the budget keeps beside it.
pub const CACHE_MARGIN_BYTES: u64 = 1048576;

/// The cache capacity is a hard bound: 80% of the budget, at least the margin, but
/// never so large that the budget keeps less than the margin beside it.
pub fn bounded_cache_capacity(ram_budget_bytes: u64) -> (capacity: u64)
    ensures
        ({
            let share = scaling::eighty_percent(ram_budget_bytes as nat) as int;
            let wanted = if share >= CACHE_MARGIN_BYTES {
                share
            } else {
                CACHE_MARGIN_BYTES as int
            };
            let most = if ram_budget_bytes >= CACHE_MARGIN_BYTES {
                ram_budget_bytes - CACHE_MARGIN_BYTES
            } else {
                0
            };
            capacity == if wanted <= most {
                wanted
            } else {
                most
            }
        }),
{
    let share: u64 = scaling::eighty_percent_of(ram_budget_bytes);
    let wanted: u64 = if share >= CACHE_MARGIN_BYTES {
        share
    } else {
        CACHE_MARGIN_BYTES
    };
    let most: u64 = ram_budget_bytes.saturating_sub(CACHE_MARGIN_BYTES);
    if wanted <= most {
        wanted
    } else {
        most
    }
}

/// Why a tensor could not be put into the cache.
#[derive(Debug, Clone, PartialEq, Eq)]
pub enum InsertFailure {
    /// The tensor is larger than the whole cache.
    TooLarge,
    Failed { message: String },
}

/// What a failed insert means for the caller who asked for the tensor: one that
/// is too large is simply not cached, and the caller still gets the data.
pub fn settle_cache_insert(inserted: Result<bool, InsertFailure>) -> (result: Result<(), String>)
    ensures
        text::text_result(result) == (match inserted {
            Err(InsertFailure::Failed { message }) => Err::<(), Seq<char>>(
                "cache insert failed: "@ + message@,
            ),
            _ => Ok(()),
        }),
{
    match inserted {
        Ok(_) => Ok(()),
        Err(InsertFailure::TooLarge) => Ok(()),
        Err(InsertFailure::Failed { message }) => {
            let mut error = "cache insert failed: ".to_owned();
            error.append(message.as_str());
            Err(error)
        },
    }
}

} // verus!
