//! Read and write operations.
pub mod byte_reader;
pub mod byte_writer;
pub mod error;
pub mod ring;
pub mod string_writer;
pub mod writer;

use vstd::prelude::*;

verus! {

/// How many of the latest bytes (or chars) a reader or writer remembers.
pub const HISTORY_LIMIT: usize = 1024;

/// The last `limit` items of `items`, or all of them when there are fewer.
pub open spec fn recent<T>(items: Seq<T>, limit: nat) -> Seq<T> {
    if items.len() <= limit {
        items
    } else {
        items.skip(items.len() - limit)
    }
}

/// Remembering one more item is what a ring buffer does on a push.
pub proof fn lemma_recent_push<T>(items: Seq<T>, limit: nat, item: T)
    requires
        limit > 0,
    ensures
        recent(items.push(item), limit) == ring::ring_after_push(
            recent(items, limit),
            limit,
            item,
        ),
{
}

} // verus!
