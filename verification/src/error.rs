//! Why a request is refused, one-to-one with the wire codes in `proto::err`.
use vstd::prelude::*;

use crate::proto::err;

verus! {

#[derive(Clone, Copy, Debug, PartialEq, Eq, Structural)]
pub enum CoreError {
    ProtoMismatch,
    MaxMonitors,
    BadMode,
    BadBitDepth,
    HdrUnsupported,
    NoAdapter,
    DuplicateSession,
    NoSuchSession,
    RingAlloc,
    NotHandshaken,
    IdentityInUse,
    BadPool,
    Internal,
}

impl CoreError {
    /// The code carried in reply `result` fields.
    pub open spec fn wire_code(self) -> i32 {
        match self {
            CoreError::ProtoMismatch => err::PROTO_MISMATCH,
            CoreError::MaxMonitors => err::MAX_MONITORS,
            CoreError::BadMode => err::BAD_MODE,
            CoreError::BadBitDepth => err::BAD_BIT_DEPTH,
            CoreError::HdrUnsupported => err::HDR_UNSUPPORTED,
            CoreError::NoAdapter => err::NO_ADAPTER,
            CoreError::DuplicateSession => err::DUPLICATE_SESSION,
            CoreError::NoSuchSession => err::NO_SUCH_SESSION,
            CoreError::RingAlloc => err::RING_ALLOC,
            CoreError::NotHandshaken => err::NOT_HANDSHAKEN,
            CoreError::IdentityInUse => err::IDENTITY_IN_USE,
            CoreError::BadPool => err::BAD_POOL,
            CoreError::Internal => err::INTERNAL,
        }
    }

    pub fn code(self) -> (r: i32)
        ensures
            r == self.wire_code(),
    {
        match self {
            CoreError::ProtoMismatch => err::PROTO_MISMATCH,
            CoreError::MaxMonitors => err::MAX_MONITORS,
            CoreError::BadMode => err::BAD_MODE,
            CoreError::BadBitDepth => err::BAD_BIT_DEPTH,
            CoreError::HdrUnsupported => err::HDR_UNSUPPORTED,
            CoreError::NoAdapter => err::NO_ADAPTER,
            CoreError::DuplicateSession => err::DUPLICATE_SESSION,
            CoreError::NoSuchSession => err::NO_SUCH_SESSION,
            CoreError::RingAlloc => err::RING_ALLOC,
            CoreError::NotHandshaken => err::NOT_HANDSHAKEN,
            CoreError::IdentityInUse => err::IDENTITY_IN_USE,
            CoreError::BadPool => err::BAD_POOL,
            CoreError::Internal => err::INTERNAL,
        }
    }
}

/// No two errors share a wire code, and none is mistaken for success.
pub proof fn law_codes_distinct(a: CoreError, b: CoreError)
    ensures
        a.wire_code() == b.wire_code() ==> a == b,
        a.wire_code() < err::OK,
{
}

/// The codes as hosts know them.
pub proof fn law_code_values()
    ensures
        CoreError::ProtoMismatch.wire_code() == -1,
        CoreError::MaxMonitors.wire_code() == -2,
        CoreError::BadMode.wire_code() == -3,
        CoreError::BadBitDepth.wire_code() == -4,
        CoreError::HdrUnsupported.wire_code() == -5,
        CoreError::NoAdapter.wire_code() == -6,
        CoreError::DuplicateSession.wire_code() == -7,
        CoreError::NoSuchSession.wire_code() == -8,
        CoreError::RingAlloc.wire_code() == -9,
        CoreError::NotHandshaken.wire_code() == -10,
        CoreError::IdentityInUse.wire_code() == -11,
        CoreError::BadPool.wire_code() == -12,
        CoreError::Internal.wire_code() == -100,
{
}

} // verus!
