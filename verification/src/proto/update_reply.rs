//! Reading and writing the detail words of an `UpdateModesReply`.
use vstd::prelude::*;

use crate::proto::err;
use crate::proto::messages::{UpdateModesReply, UPDATE_MODES_REPLY_SIZE};
use crate::proto::update_status;

verus! {

/// `first_rejected` when nothing was rejected.
pub const NO_REJECTED_INDEX: u32 = 0xFFFF_FFFF;

/// `blocking_mode_idx` when nothing blocks the request.
pub const NO_MODE_INDEX: u32 = 0xFFFF_FFFF;

pub broadcast proof fn lemma_update_reply_len(r: UpdateModesReply)
    ensures
        #[trigger] r.wire().len() == UPDATE_MODES_REPLY_SIZE,
{
    broadcast use crate::proto::wire::group_le_len;

}

impl UpdateModesReply {
    /// The reply before anything is known: success, no modes, nothing rejected.
    pub open spec fn initial(session_id: u64) -> UpdateModesReply {
        UpdateModesReply {
            session_id,
            result: err::OK,
            mode_count: 0,
            accepted_count: 0,
            requested_count: 0,
            status_flags: 0,
            rejected_count: 0,
            first_rejected_index: NO_REJECTED_INDEX,
            blocking_index: 0,
        }
    }

    /// Whether the status word carries `bit`.
    pub open spec fn has_status(&self, bit: u32) -> bool {
        self.status_flags & bit != 0
    }

    pub fn new(session_id: u64) -> (r: Self)
        ensures
            r == UpdateModesReply::initial(session_id),
    {
        UpdateModesReply {
            session_id,
            result: err::OK,
            mode_count: 0,
            accepted_count: 0,
            requested_count: 0,
            status_flags: 0,
            rejected_count: 0,
            first_rejected_index: NO_REJECTED_INDEX,
            blocking_index: 0,
        }
    }

    /// Record how many of the requested modes were accepted, and the status word.
    pub fn set_detail(&mut self, accepted: u32, requested: u32, flags: u32)
        ensures
            *final(self) == (UpdateModesReply {
                accepted_count: accepted,
                requested_count: requested,
                status_flags: flags,
                ..*old(self)
            }),
    {
        self.accepted_count = accepted;
        self.requested_count = requested;
        self.status_flags = flags;
    }

    /// Record how many modes were rejected, and the first of them.
    pub fn set_rejected(&mut self, count: u32, first: Option<u32>)
        ensures
            *final(self) == (UpdateModesReply {
                rejected_count: count,
                first_rejected_index: match first {
                    Some(i) => i,
                    None => NO_REJECTED_INDEX,
                },
                ..*old(self)
            }),
    {
        self.rejected_count = count;
        self.first_rejected_index = match first {
            Some(i) => i,
            None => NO_REJECTED_INDEX,
        };
    }

    /// Mark the request as blocked by the mode at `mode_idx`.
    pub fn set_blocked(&mut self, mode_idx: u32)
        ensures
            *final(self) == (UpdateModesReply {
                status_flags: old(self).status_flags | update_status::BLOCKED,
                blocking_index: mode_idx,
                ..*old(self)
            }),
            final(self).has_status(update_status::BLOCKED),
    {
        let flags: u32 = self.status_flags;
        assert((flags | 4u32) & 4u32 != 0) by (bit_vector);
        self.status_flags = flags | update_status::BLOCKED;
        self.blocking_index = mode_idx;
    }

    pub fn accepted(&self) -> (r: u32)
        ensures
            r == self.accepted_count,
    {
        self.accepted_count
    }

    pub fn requested(&self) -> (r: u32)
        ensures
            r == self.requested_count,
    {
        self.requested_count
    }

    pub fn rejected(&self) -> (r: u32)
        ensures
            r == self.rejected_count,
    {
        self.rejected_count
    }

    pub fn first_rejected(&self) -> (r: u32)
        ensures
            r == self.first_rejected_index,
    {
        self.first_rejected_index
    }

    pub fn flags(&self) -> (r: u32)
        ensures
            r == self.status_flags,
    {
        self.status_flags
    }

    pub fn is_pending(&self) -> (r: bool)
        ensures
            r == self.has_status(update_status::PENDING),
    {
        self.status_flags & update_status::PENDING != 0
    }

    pub fn is_partial(&self) -> (r: bool)
        ensures
            r == self.has_status(update_status::PARTIAL),
    {
        self.status_flags & update_status::PARTIAL != 0
    }

    pub fn is_blocked(&self) -> (r: bool)
        ensures
            r == self.has_status(update_status::BLOCKED),
    {
        self.status_flags & update_status::BLOCKED != 0
    }

    /// The create-time index of the mode that blocks the request.
    pub fn blocking_mode_idx(&self) -> (r: u32)
        ensures
            r == (if self.has_status(update_status::BLOCKED) {
                self.blocking_index
            } else {
                NO_MODE_INDEX
            }),
    {
        if self.is_blocked() {
            self.blocking_index
        } else {
            NO_MODE_INDEX
        }
    }

    /// Everything asked for is what the monitor publishes now.
    pub fn fully_in_force(&self) -> (r: bool)
        ensures
            r == (self.result == err::OK && self.status_flags == 0),
    {
        self.result == err::OK && self.status_flags == 0
    }

    /// Whether sending the same request again can change the answer.
    pub fn worth_retrying(&self) -> (r: bool)
        ensures
            r == !self.has_status(update_status::BLOCKED),
    {
        !self.is_blocked()
    }
}

} // verus!
