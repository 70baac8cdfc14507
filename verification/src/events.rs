//! Handler identifiers for the host's event bridge.
//!
//! The surrounding application maps rendered-element handlers to script
//! callbacks by numeric id; ids come from one counter so that no two
//! handlers ever share one while the counter has not wrapped.

use vstd::prelude::*;

verus! {

/// The source of handler ids: a counter starting at 1.
pub struct HandlerIds {
    pub counter: u64,
}

impl HandlerIds {
    /// A fresh counter; the first id handed out is 1.
    pub fn new() -> (r: HandlerIds)
        ensures
            r.counter == 1,
    {
        HandlerIds { counter: 1 }
    }
}

/// Hands out the next handler id and steps the counter, wrapping at the
/// numeric limit.
pub fn next_handler_id(ids: &mut HandlerIds) -> (r: u64)
    ensures
        r == old(ids).counter,
        final(ids).counter == if old(ids).counter == u64::MAX {
            0u64
        } else {
            (old(ids).counter + 1) as u64
        },
{
    let id = ids.counter;
    ids.counter = if ids.counter == u64::MAX {
        0
    } else {
        ids.counter + 1
    };
    id
}

} // verus!
