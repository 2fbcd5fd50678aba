//! Request/response bookkeeping for remotely evaluated scripts: a set
//! of pending request identifiers awaiting results, and a result table
//! that callers poll. The evaluation itself happens outside the core.

use vstd::prelude::*;
use crate::table::Table;

verus! {

/// The set of request identifiers whose results are still awaited.
pub struct McpPending {
    /// Pending identifiers; the unit value carries nothing.
    pub waiting: Table<()>,
}

impl McpPending {
    /// No requests pending.
    pub fn new() -> (r: McpPending)
        ensures
            r.waiting.wf(),
            r.waiting.entries@ =~= Seq::<(String, ())>::empty(),
    {
        McpPending { waiting: Table::new() }
    }

    /// Registers a request awaiting a result.
    pub fn register(&mut self, request_id: String)
        requires
            old(self).waiting.wf(),
        ensures
            final(self).waiting.wf(),
            final(self).waiting.has(request_id@),
            forall|k: Seq<char>|
                k != request_id@ ==> final(self).waiting.spec_get(k) == old(
                    self,
                ).waiting.spec_get(k),
    {
        self.waiting.upsert(request_id, ());
    }
}

/// Delivers a result for a pending request: consumes the pending entry
/// and hands the result back for delivery exactly when the request was
/// awaited; a result for an unknown request is dropped.
pub fn resolve_mcp_request(pending: &mut McpPending, request_id: String, result: String) -> (r:
    Option<String>)
    requires
        old(pending).waiting.wf(),
    ensures
        final(pending).waiting.wf(),
        !final(pending).waiting.has(request_id@),
        forall|k: Seq<char>|
            k != request_id@ ==> final(pending).waiting.spec_get(k) == old(
                pending,
            ).waiting.spec_get(k),
        match r {
            Some(delivered) => old(pending).waiting.has(request_id@) && delivered == result,
            None => !old(pending).waiting.has(request_id@),
        },
{
    if pending.waiting.contains(request_id.as_str()) {
        pending.waiting.remove(request_id.as_str());
        Some(result)
    } else {
        proof {
            crate::registry::lemma_has_iff_some(pending.waiting, request_id@);
        }
        pending.waiting.remove(request_id.as_str());
        None
    }
}

/// The table of script-evaluation results callers poll over the wire:
/// a registered request holds nothing until its result arrives.
pub struct McpResults {
    /// Result slots by request identifier.
    pub slots: Table<Option<String>>,
}

impl McpResults {
    /// No slots.
    pub fn new() -> (r: McpResults)
        ensures
            r.slots.wf(),
            r.slots.entries@ =~= Seq::<(String, Option<String>)>::empty(),
    {
        McpResults { slots: Table::new() }
    }

    /// Opens an empty slot for a request about to be evaluated.
    pub fn open_slot(&mut self, request_id: String)
        requires
            old(self).slots.wf(),
        ensures
            final(self).slots.wf(),
            final(self).slots.spec_get(request_id@) == Some(None::<String>),
            forall|k: Seq<char>|
                k != request_id@ ==> final(self).slots.spec_get(k) == old(self).slots.spec_get(
                    k,
                ),
    {
        self.slots.upsert(request_id, None);
    }

    /// Stores a result: succeeds exactly when the slot exists.
    pub fn deliver(&mut self, request_id: &str, result: String) -> (r: bool)
        requires
            old(self).slots.wf(),
        ensures
            final(self).slots.wf(),
            r == old(self).slots.has(request_id@),
            r ==> final(self).slots.spec_get(request_id@) == Some(Some(result)),
            !r ==> final(self).slots.entries@ == old(self).slots.entries@,
            forall|k: Seq<char>|
                k != request_id@ ==> final(self).slots.spec_get(k) == old(self).slots.spec_get(
                    k,
                ),
    {
        if self.slots.contains(request_id) {
            self.slots.upsert(request_id.to_owned(), Some(result));
            true
        } else {
            false
        }
    }

    /// Takes a finished result, closing the slot; an unfinished or
    /// unknown slot yields nothing and is left as it is.
    pub fn take(&mut self, request_id: &str) -> (r: Option<String>)
        requires
            old(self).slots.wf(),
        ensures
            final(self).slots.wf(),
            match r {
                Some(res) => old(self).slots.spec_get(request_id@) == Some(Some(res))
                    && !final(self).slots.has(request_id@),
                None => final(self).slots.entries@ == old(self).slots.entries@ && !(old(
                    self,
                ).slots.spec_get(request_id@) matches Some(slot) && slot is Some),
            },
            forall|k: Seq<char>|
                k != request_id@ ==> final(self).slots.spec_get(k) == old(self).slots.spec_get(
                    k,
                ),
    {
        let finished = match self.slots.get(request_id) {
            Some(slot) => slot.is_some(),
            None => false,
        };
        if !finished {
            return None;
        }
        let taken = match self.slots.get(request_id) {
            Some(slot) => match slot {
                Some(res) => Some(res.clone()),
                None => None,
            },
            None => None,
        };
        self.slots.remove(request_id);
        taken
    }

    /// Abandons a slot, finished or not: the caller timed out.
    pub fn abandon(&mut self, request_id: &str)
        requires
            old(self).slots.wf(),
        ensures
            final(self).slots.wf(),
            !final(self).slots.has(request_id@),
            forall|k: Seq<char>|
                k != request_id@ ==> final(self).slots.spec_get(k) == old(self).slots.spec_get(
                    k,
                ),
    {
        self.slots.remove(request_id);
    }
}

} // verus!
