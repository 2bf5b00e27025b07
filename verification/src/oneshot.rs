//! A single-use reply slot. A slot is created empty, is consumed when
//! it is fulfilled, and carries exactly the one reply written into it.

use vstd::prelude::*;
use crate::types::ExecutionResult;

verus! {

/// A one-shot reply slot for an application-state query. Fulfilling
/// consumes the slot, so the driver releases each waiter exactly once.
pub struct OneShotSlot {
    value: Option<ExecutionResult>,
}

impl OneShotSlot {
    /// The reply written into the slot, if any.
    pub closed spec fn reply(&self) -> Option<ExecutionResult> {
        self.value
    }

    /// Creates an empty slot.
    pub fn new() -> (s: Self)
        ensures
            s.reply() is None,
    {
        OneShotSlot { value: None }
    }

    /// Writes the reply, consuming the slot.
    pub fn fulfill(self, result: ExecutionResult) -> (s: Self)
        ensures
            s.reply() == Some(result),
    {
        OneShotSlot { value: Some(result) }
    }

    /// Reads the slot out, consuming it.
    pub fn take(self) -> (r: Option<ExecutionResult>)
        ensures
            r == self.reply(),
    {
        self.value
    }
}

} // verus!
