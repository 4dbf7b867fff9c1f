//! Where the fields of each message stand, byte by byte, and that messages are read as
//! they were written.
use vstd::prelude::*;

use crate::proto::messages::{
    law_create_monitor_reply_round_trip, law_create_monitor_request_round_trip,
    law_destroy_monitor_request_round_trip, law_get_status_reply_round_trip,
    law_handshake_reply_round_trip, law_handshake_request_round_trip, law_mode_spec_round_trip,
    law_monitor_status_round_trip, law_permanent_pool_config_round_trip,
    law_ping_request_round_trip, law_query_lease_reply_round_trip,
    law_query_lease_request_round_trip, law_query_permanent_pool_reply_round_trip,
    law_set_render_adapter_request_round_trip, law_update_modes_reply_round_trip,
    law_update_modes_request_round_trip, mode_specs_wire, monitor_statuses_wire,
};
use crate::proto::wire::{
    i32_at, i32_le, law_i32_reads_back, law_u16_reads_back, law_u16s_read_back, law_u32_reads_back,
    law_u32s_read_back, law_u64_reads_back, u16_at, u16_le, u16s_le, u32_at, u32_le, u32s_le, u64_at,
    u64_le,
};
use crate::proto::{
    CreateMonitorReply, CreateMonitorRequest, CursorHeader, DestroyMonitorRequest, GetStatusReply,
    HandshakeReply, HandshakeRequest, Hdr10StaticMetadata, ModeSpec, MonitorStatus,
    PermanentPoolConfig, PingRequest, QueryLeaseReply, QueryLeaseRequest, QueryPermanentPoolReply,
    RectU32, RingHeader, SetRenderAdapterRequest, SlotMetadata, UpdateModesReply,
    UpdateModesRequest,
};

verus! {

broadcast use crate::proto::wire::group_le_len;

/// The bytes of `part` stand in `w` from `at` on.
pub open spec fn stands_at(w: Seq<u8>, at: int, part: Seq<u8>) -> bool {
    &&& 0 <= at
    &&& at + part.len() <= w.len()
    &&& forall|i: int| 0 <= i < part.len() ==> w[at + i] == #[trigger] part[i]
}

/// Where a reader finds each field of an encoded [`HandshakeRequest`].
pub proof fn law_handshake_request_layout(x: HandshakeRequest)
    ensures
        ({
            let w = x.wire();
            &&& w.len() == 4
            &&& u16_at(w, 0) == x.host_proto_major
            &&& u16_at(w, 2) == x.host_proto_minor
        }),
{
    let w = x.wire();
    law_u16_reads_back(x.host_proto_major);
    assert(stands_at(w, 0, u16_le(x.host_proto_major)));
    law_u16_reads_back(x.host_proto_minor);
    assert(stands_at(w, 2, u16_le(x.host_proto_minor)));
}

/// A [`HandshakeRequest`] at the front of a buffer is read as it was written, whatever
/// follows; a buffer of less than 4 bytes holds none.
pub proof fn law_handshake_request_is_read_back(x: HandshakeRequest, tail: Seq<u8>, short: Seq<u8>)
    requires
        short.len() < 4,
    ensures
        HandshakeRequest::decoded(x.wire() + tail) == Some(x),
        HandshakeRequest::decoded(short) is None,
{
    law_handshake_request_layout(x);
    assert((x.wire() + tail).take(4) =~= x.wire());
    law_handshake_request_round_trip(HandshakeRequest::decoded(x.wire() + tail)->0, x);
}

/// Where a reader finds each field of an encoded [`HandshakeReply`].
pub proof fn law_handshake_reply_layout(x: HandshakeReply)
    ensures
        ({
            let w = x.wire();
            &&& w.len() == 20
            &&& u16_at(w, 0) == x.driver_proto_major
            &&& u16_at(w, 2) == x.driver_proto_minor
            &&& u32_at(w, 4) == x.driver_build
            &&& u32_at(w, 8) == x.caps
            &&& u32_at(w, 12) == x.max_monitors
            &&& u32_at(w, 16) == x.watchdog_secs
        }),
{
    let w = x.wire();
    law_u16_reads_back(x.driver_proto_major);
    assert(stands_at(w, 0, u16_le(x.driver_proto_major)));
    law_u16_reads_back(x.driver_proto_minor);
    assert(stands_at(w, 2, u16_le(x.driver_proto_minor)));
    law_u32_reads_back(x.driver_build);
    assert(stands_at(w, 4, u32_le(x.driver_build)));
    law_u32_reads_back(x.caps);
    assert(stands_at(w, 8, u32_le(x.caps)));
    law_u32_reads_back(x.max_monitors);
    assert(stands_at(w, 12, u32_le(x.max_monitors)));
    law_u32_reads_back(x.watchdog_secs);
    assert(stands_at(w, 16, u32_le(x.watchdog_secs)));
}

/// A [`HandshakeReply`] at the front of a buffer is read as it was written, whatever
/// follows; a buffer of less than 20 bytes holds none.
pub proof fn law_handshake_reply_is_read_back(x: HandshakeReply, tail: Seq<u8>, short: Seq<u8>)
    requires
        short.len() < 20,
    ensures
        HandshakeReply::decoded(x.wire() + tail) == Some(x),
        HandshakeReply::decoded(short) is None,
{
    law_handshake_reply_layout(x);
    assert((x.wire() + tail).take(20) =~= x.wire());
    law_handshake_reply_round_trip(HandshakeReply::decoded(x.wire() + tail)->0, x);
}

/// Where a reader finds each field of an encoded [`ModeSpec`].
pub proof fn law_mode_spec_layout(x: ModeSpec)
    ensures
        ({
            let w = x.wire();
            &&& w.len() == 12
            &&& u32_at(w, 0) == x.width
            &&& u32_at(w, 4) == x.height
            &&& u32_at(w, 8) == x.refresh_millihz
        }),
{
    let w = x.wire();
    law_u32_reads_back(x.width);
    assert(stands_at(w, 0, u32_le(x.width)));
    law_u32_reads_back(x.height);
    assert(stands_at(w, 4, u32_le(x.height)));
    law_u32_reads_back(x.refresh_millihz);
    assert(stands_at(w, 8, u32_le(x.refresh_millihz)));
}

/// A [`ModeSpec`] at the front of a buffer is read as it was written, whatever
/// follows; a buffer of less than 12 bytes holds none.
pub proof fn law_mode_spec_is_read_back(x: ModeSpec, tail: Seq<u8>, short: Seq<u8>)
    requires
        short.len() < 12,
    ensures
        ModeSpec::decoded(x.wire() + tail) == Some(x),
        ModeSpec::decoded(short) is None,
{
    law_mode_spec_layout(x);
    assert((x.wire() + tail).take(12) =~= x.wire());
    law_mode_spec_round_trip(ModeSpec::decoded(x.wire() + tail)->0, x);
}

/// Where a reader finds each field of an encoded [`CreateMonitorRequest`].
pub proof fn law_create_monitor_request_layout(x: CreateMonitorRequest)
    ensures
        ({
            let w = x.wire();
            &&& w.len() == 176
            &&& u64_at(w, 0) == x.session_id
            &&& u64_at(w, 8) == x.display_id
            &&& u64_at(w, 16) == x.adapter_luid
            &&& u32_at(w, 24) == x.lease_timeout_ms
            &&& u32_at(w, 28) == x.bit_depth
            &&& u32_at(w, 32) == x.hdr
            &&& u32_at(w, 36) == x.edid_serial
            &&& u32_at(w, 40) == x.flags
            &&& u32_at(w, 44) == x.mode_count
            &&& forall|i: int|
                0 <= i < 4 ==> {
                    &&& u32_at(w, 48 + 12 * i) == (#[trigger] x.modes@[i]).width
                    &&& u32_at(w, 52 + 12 * i) == x.modes@[i].height
                    &&& u32_at(w, 56 + 12 * i) == x.modes@[i].refresh_millihz
                }
            &&& u32_at(w, 96) == x.physical_width_mm
            &&& u32_at(w, 100) == x.physical_height_mm
            &&& forall|i: int|
                0 <= i < 32 ==> u16_at(w, 104 + 2 * i) == #[trigger] x.friendly_name@[i]
            &&& u32_at(w, 168) == x.max_nits
            &&& u32_at(w, 172) == x.reserved0
        }),
{
    let w = x.wire();
    law_u64_reads_back(x.session_id);
    assert(stands_at(w, 0, u64_le(x.session_id)));
    law_u64_reads_back(x.display_id);
    assert(stands_at(w, 8, u64_le(x.display_id)));
    law_u64_reads_back(x.adapter_luid);
    assert(stands_at(w, 16, u64_le(x.adapter_luid)));
    law_u32_reads_back(x.lease_timeout_ms);
    assert(stands_at(w, 24, u32_le(x.lease_timeout_ms)));
    law_u32_reads_back(x.bit_depth);
    assert(stands_at(w, 28, u32_le(x.bit_depth)));
    law_u32_reads_back(x.hdr);
    assert(stands_at(w, 32, u32_le(x.hdr)));
    law_u32_reads_back(x.edid_serial);
    assert(stands_at(w, 36, u32_le(x.edid_serial)));
    law_u32_reads_back(x.flags);
    assert(stands_at(w, 40, u32_le(x.flags)));
    law_u32_reads_back(x.mode_count);
    assert(stands_at(w, 44, u32_le(x.mode_count)));
    lemma_mode_specs_stand(x.modes@);
    assert(stands_at(w, 48, mode_specs_wire(x.modes@)));
    assert forall|i: int| 0 <= i < 4 implies u32_at(w, 48 + 12 * i) == (
    #[trigger] x.modes@[i]).width && u32_at(w, 52 + 12 * i) == x.modes@[i].height && u32_at(
        w,
        56 + 12 * i,
    ) == x.modes@[i].refresh_millihz by {
        law_mode_spec_layout(x.modes@[i]);
        assert(stands_at(mode_specs_wire(x.modes@), 12 * i, x.modes@[i].wire()));
    }
    law_u32_reads_back(x.physical_width_mm);
    assert(stands_at(w, 96, u32_le(x.physical_width_mm)));
    law_u32_reads_back(x.physical_height_mm);
    assert(stands_at(w, 100, u32_le(x.physical_height_mm)));
    law_u16s_read_back(x.friendly_name@);
    assert(stands_at(w, 104, u16s_le(x.friendly_name@)));
    assert forall|i: int| 0 <= i < 32 implies u16_at(w, 104 + 2 * i) == #[trigger] x.friendly_name@[i] by {
        assert(u16_at(u16s_le(x.friendly_name@), 2 * i) == x.friendly_name@[i]);
    }
    law_u32_reads_back(x.max_nits);
    assert(stands_at(w, 168, u32_le(x.max_nits)));
    law_u32_reads_back(x.reserved0);
    assert(stands_at(w, 172, u32_le(x.reserved0)));
}

/// A [`CreateMonitorRequest`] at the front of a buffer is read as it was written, whatever
/// follows; a buffer of less than 176 bytes holds none.
pub proof fn law_create_monitor_request_is_read_back(x: CreateMonitorRequest, tail: Seq<u8>, short: Seq<u8>)
    requires
        short.len() < 176,
    ensures
        CreateMonitorRequest::decoded(x.wire() + tail) == Some(x),
        CreateMonitorRequest::decoded(short) is None,
{
    law_create_monitor_request_layout(x);
    assert((x.wire() + tail).take(176) =~= x.wire());
    law_create_monitor_request_round_trip(CreateMonitorRequest::decoded(x.wire() + tail)->0, x);
}

/// Where a reader finds each field of an encoded [`CreateMonitorReply`].
pub proof fn law_create_monitor_reply_layout(x: CreateMonitorReply)
    ensures
        ({
            let w = x.wire();
            &&& w.len() == 160
            &&& u64_at(w, 0) == x.session_id
            &&& u64_at(w, 8) == x.display_id
            &&& i32_at(w, 16) == x.result
            &&& u32_at(w, 20) == x.ring_slots
            &&& u32_at(w, 24) == x.connector_index
            &&& u32_at(w, 28) == x.reserved
            &&& forall|i: int|
                0 <= i < 64 ==> u16_at(w, 32 + 2 * i) == #[trigger] x.ring_section_name@[i]
        }),
{
    let w = x.wire();
    law_u64_reads_back(x.session_id);
    assert(stands_at(w, 0, u64_le(x.session_id)));
    law_u64_reads_back(x.display_id);
    assert(stands_at(w, 8, u64_le(x.display_id)));
    law_i32_reads_back(x.result);
    assert(stands_at(w, 16, i32_le(x.result)));
    law_u32_reads_back(x.ring_slots);
    assert(stands_at(w, 20, u32_le(x.ring_slots)));
    law_u32_reads_back(x.connector_index);
    assert(stands_at(w, 24, u32_le(x.connector_index)));
    law_u32_reads_back(x.reserved);
    assert(stands_at(w, 28, u32_le(x.reserved)));
    law_u16s_read_back(x.ring_section_name@);
    assert(stands_at(w, 32, u16s_le(x.ring_section_name@)));
    assert forall|i: int| 0 <= i < 64 implies u16_at(w, 32 + 2 * i) == #[trigger] x.ring_section_name@[i] by {
        assert(u16_at(u16s_le(x.ring_section_name@), 2 * i) == x.ring_section_name@[i]);
    }
}

/// A [`CreateMonitorReply`] at the front of a buffer is read as it was written, whatever
/// follows; a buffer of less than 160 bytes holds none.
pub proof fn law_create_monitor_reply_is_read_back(x: CreateMonitorReply, tail: Seq<u8>, short: Seq<u8>)
    requires
        short.len() < 160,
    ensures
        CreateMonitorReply::decoded(x.wire() + tail) == Some(x),
        CreateMonitorReply::decoded(short) is None,
{
    law_create_monitor_reply_layout(x);
    assert((x.wire() + tail).take(160) =~= x.wire());
    law_create_monitor_reply_round_trip(CreateMonitorReply::decoded(x.wire() + tail)->0, x);
}

/// Where a reader finds each field of an encoded [`DestroyMonitorRequest`].
pub proof fn law_destroy_monitor_request_layout(x: DestroyMonitorRequest)
    ensures
        ({
            let w = x.wire();
            &&& w.len() == 8
            &&& u64_at(w, 0) == x.session_id
        }),
{
    let w = x.wire();
    law_u64_reads_back(x.session_id);
    assert(stands_at(w, 0, u64_le(x.session_id)));
}

/// A [`DestroyMonitorRequest`] at the front of a buffer is read as it was written, whatever
/// follows; a buffer of less than 8 bytes holds none.
pub proof fn law_destroy_monitor_request_is_read_back(x: DestroyMonitorRequest, tail: Seq<u8>, short: Seq<u8>)
    requires
        short.len() < 8,
    ensures
        DestroyMonitorRequest::decoded(x.wire() + tail) == Some(x),
        DestroyMonitorRequest::decoded(short) is None,
{
    law_destroy_monitor_request_layout(x);
    assert((x.wire() + tail).take(8) =~= x.wire());
    law_destroy_monitor_request_round_trip(DestroyMonitorRequest::decoded(x.wire() + tail)->0, x);
}

/// Where a reader finds each field of an encoded [`PingRequest`].
pub proof fn law_ping_request_layout(x: PingRequest)
    ensures
        ({
            let w = x.wire();
            &&& w.len() == 8
            &&& u64_at(w, 0) == x.session_id
        }),
{
    let w = x.wire();
    law_u64_reads_back(x.session_id);
    assert(stands_at(w, 0, u64_le(x.session_id)));
}

/// A [`PingRequest`] at the front of a buffer is read as it was written, whatever
/// follows; a buffer of less than 8 bytes holds none.
pub proof fn law_ping_request_is_read_back(x: PingRequest, tail: Seq<u8>, short: Seq<u8>)
    requires
        short.len() < 8,
    ensures
        PingRequest::decoded(x.wire() + tail) == Some(x),
        PingRequest::decoded(short) is None,
{
    law_ping_request_layout(x);
    assert((x.wire() + tail).take(8) =~= x.wire());
    law_ping_request_round_trip(PingRequest::decoded(x.wire() + tail)->0, x);
}

/// Where a reader finds each field of an encoded [`SetRenderAdapterRequest`].
pub proof fn law_set_render_adapter_request_layout(x: SetRenderAdapterRequest)
    ensures
        ({
            let w = x.wire();
            &&& w.len() == 8
            &&& u64_at(w, 0) == x.adapter_luid
        }),
{
    let w = x.wire();
    law_u64_reads_back(x.adapter_luid);
    assert(stands_at(w, 0, u64_le(x.adapter_luid)));
}

/// A [`SetRenderAdapterRequest`] at the front of a buffer is read as it was written, whatever
/// follows; a buffer of less than 8 bytes holds none.
pub proof fn law_set_render_adapter_request_is_read_back(x: SetRenderAdapterRequest, tail: Seq<u8>, short: Seq<u8>)
    requires
        short.len() < 8,
    ensures
        SetRenderAdapterRequest::decoded(x.wire() + tail) == Some(x),
        SetRenderAdapterRequest::decoded(short) is None,
{
    law_set_render_adapter_request_layout(x);
    assert((x.wire() + tail).take(8) =~= x.wire());
    law_set_render_adapter_request_round_trip(SetRenderAdapterRequest::decoded(x.wire() + tail)->0, x);
}

/// Where a reader finds each field of an encoded [`QueryLeaseRequest`].
pub proof fn law_query_lease_request_layout(x: QueryLeaseRequest)
    ensures
        ({
            let w = x.wire();
            &&& w.len() == 8
            &&& u64_at(w, 0) == x.session_id
        }),
{
    let w = x.wire();
    law_u64_reads_back(x.session_id);
    assert(stands_at(w, 0, u64_le(x.session_id)));
}

/// A [`QueryLeaseRequest`] at the front of a buffer is read as it was written, whatever
/// follows; a buffer of less than 8 bytes holds none.
pub proof fn law_query_lease_request_is_read_back(x: QueryLeaseRequest, tail: Seq<u8>, short: Seq<u8>)
    requires
        short.len() < 8,
    ensures
        QueryLeaseRequest::decoded(x.wire() + tail) == Some(x),
        QueryLeaseRequest::decoded(short) is None,
{
    law_query_lease_request_layout(x);
    assert((x.wire() + tail).take(8) =~= x.wire());
    law_query_lease_request_round_trip(QueryLeaseRequest::decoded(x.wire() + tail)->0, x);
}

/// Where a reader finds each field of an encoded [`QueryLeaseReply`].
pub proof fn law_query_lease_reply_layout(x: QueryLeaseReply)
    ensures
        ({
            let w = x.wire();
            &&& w.len() == 32
            &&& u64_at(w, 0) == x.session_id
            &&& u64_at(w, 8) == x.display_id
            &&& u32_at(w, 16) == x.remaining_ms
            &&& u32_at(w, 20) == x.connector_index
            &&& i32_at(w, 24) == x.result
            &&& u32_at(w, 28) == x.reserved
        }),
{
    let w = x.wire();
    law_u64_reads_back(x.session_id);
    assert(stands_at(w, 0, u64_le(x.session_id)));
    law_u64_reads_back(x.display_id);
    assert(stands_at(w, 8, u64_le(x.display_id)));
    law_u32_reads_back(x.remaining_ms);
    assert(stands_at(w, 16, u32_le(x.remaining_ms)));
    law_u32_reads_back(x.connector_index);
    assert(stands_at(w, 20, u32_le(x.connector_index)));
    law_i32_reads_back(x.result);
    assert(stands_at(w, 24, i32_le(x.result)));
    law_u32_reads_back(x.reserved);
    assert(stands_at(w, 28, u32_le(x.reserved)));
}

/// A [`QueryLeaseReply`] at the front of a buffer is read as it was written, whatever
/// follows; a buffer of less than 32 bytes holds none.
pub proof fn law_query_lease_reply_is_read_back(x: QueryLeaseReply, tail: Seq<u8>, short: Seq<u8>)
    requires
        short.len() < 32,
    ensures
        QueryLeaseReply::decoded(x.wire() + tail) == Some(x),
        QueryLeaseReply::decoded(short) is None,
{
    law_query_lease_reply_layout(x);
    assert((x.wire() + tail).take(32) =~= x.wire());
    law_query_lease_reply_round_trip(QueryLeaseReply::decoded(x.wire() + tail)->0, x);
}

/// Where a reader finds each field of an encoded [`PermanentPoolConfig`].
pub proof fn law_permanent_pool_config_layout(x: PermanentPoolConfig)
    ensures
        ({
            let w = x.wire();
            &&& w.len() == 96
            &&& u32_at(w, 0) == x.count
            &&& u32_at(w, 4) == x.width
            &&& u32_at(w, 8) == x.height
            &&& u32_at(w, 12) == x.refresh_millihz
            &&& u32_at(w, 16) == x.bit_depth
            &&& u32_at(w, 20) == x.hdr
            &&& u32_at(w, 24) == x.physical_width_mm
            &&& u32_at(w, 28) == x.physical_height_mm
            &&& forall|i: int|
                0 <= i < 32 ==> u16_at(w, 32 + 2 * i) == #[trigger] x.name@[i]
        }),
{
    let w = x.wire();
    law_u32_reads_back(x.count);
    assert(stands_at(w, 0, u32_le(x.count)));
    law_u32_reads_back(x.width);
    assert(stands_at(w, 4, u32_le(x.width)));
    law_u32_reads_back(x.height);
    assert(stands_at(w, 8, u32_le(x.height)));
    law_u32_reads_back(x.refresh_millihz);
    assert(stands_at(w, 12, u32_le(x.refresh_millihz)));
    law_u32_reads_back(x.bit_depth);
    assert(stands_at(w, 16, u32_le(x.bit_depth)));
    law_u32_reads_back(x.hdr);
    assert(stands_at(w, 20, u32_le(x.hdr)));
    law_u32_reads_back(x.physical_width_mm);
    assert(stands_at(w, 24, u32_le(x.physical_width_mm)));
    law_u32_reads_back(x.physical_height_mm);
    assert(stands_at(w, 28, u32_le(x.physical_height_mm)));
    law_u16s_read_back(x.name@);
    assert(stands_at(w, 32, u16s_le(x.name@)));
    assert forall|i: int| 0 <= i < 32 implies u16_at(w, 32 + 2 * i) == #[trigger] x.name@[i] by {
        assert(u16_at(u16s_le(x.name@), 2 * i) == x.name@[i]);
    }
}

/// A [`PermanentPoolConfig`] at the front of a buffer is read as it was written, whatever
/// follows; a buffer of less than 96 bytes holds none.
pub proof fn law_permanent_pool_config_is_read_back(x: PermanentPoolConfig, tail: Seq<u8>, short: Seq<u8>)
    requires
        short.len() < 96,
    ensures
        PermanentPoolConfig::decoded(x.wire() + tail) == Some(x),
        PermanentPoolConfig::decoded(short) is None,
{
    law_permanent_pool_config_layout(x);
    assert((x.wire() + tail).take(96) =~= x.wire());
    law_permanent_pool_config_round_trip(PermanentPoolConfig::decoded(x.wire() + tail)->0, x);
}

/// Where a reader finds each field of an encoded [`QueryPermanentPoolReply`].
pub proof fn law_query_permanent_pool_reply_layout(x: QueryPermanentPoolReply)
    ensures
        ({
            let w = x.wire();
            &&& w.len() == 104
            &&& w.subrange(0, 96) == x.config.wire()
            &&& i32_at(w, 96) == x.result
            &&& u32_at(w, 100) == x.reserved
        }),
{
    let w = x.wire();
    x.config.lemma_wire_len();
    assert(stands_at(w, 0, x.config.wire()));
    assert(w.subrange(0, 96) =~= x.config.wire());
    law_i32_reads_back(x.result);
    assert(stands_at(w, 96, i32_le(x.result)));
    law_u32_reads_back(x.reserved);
    assert(stands_at(w, 100, u32_le(x.reserved)));
}

/// A [`QueryPermanentPoolReply`] at the front of a buffer is read as it was written, whatever
/// follows; a buffer of less than 104 bytes holds none.
pub proof fn law_query_permanent_pool_reply_is_read_back(x: QueryPermanentPoolReply, tail: Seq<u8>, short: Seq<u8>)
    requires
        short.len() < 104,
    ensures
        QueryPermanentPoolReply::decoded(x.wire() + tail) == Some(x),
        QueryPermanentPoolReply::decoded(short) is None,
{
    law_query_permanent_pool_reply_layout(x);
    assert((x.wire() + tail).take(104) =~= x.wire());
    law_query_permanent_pool_reply_round_trip(QueryPermanentPoolReply::decoded(x.wire() + tail)->0, x);
}

/// Where a reader finds each field of an encoded [`UpdateModesRequest`].
pub proof fn law_update_modes_request_layout(x: UpdateModesRequest)
    ensures
        ({
            let w = x.wire();
            &&& w.len() == 80
            &&& u64_at(w, 0) == x.session_id
            &&& u32_at(w, 8) == x.flags
            &&& u32_at(w, 12) == x.mode_count
            &&& forall|i: int|
                0 <= i < 4 ==> {
                    &&& u32_at(w, 16 + 12 * i) == (#[trigger] x.modes@[i]).width
                    &&& u32_at(w, 20 + 12 * i) == x.modes@[i].height
                    &&& u32_at(w, 24 + 12 * i) == x.modes@[i].refresh_millihz
                }
            &&& forall|i: int|
                0 <= i < 4 ==> u32_at(w, 64 + 4 * i) == #[trigger] x.reserved@[i]
        }),
{
    let w = x.wire();
    law_u64_reads_back(x.session_id);
    assert(stands_at(w, 0, u64_le(x.session_id)));
    law_u32_reads_back(x.flags);
    assert(stands_at(w, 8, u32_le(x.flags)));
    law_u32_reads_back(x.mode_count);
    assert(stands_at(w, 12, u32_le(x.mode_count)));
    lemma_mode_specs_stand(x.modes@);
    assert(stands_at(w, 16, mode_specs_wire(x.modes@)));
    assert forall|i: int| 0 <= i < 4 implies u32_at(w, 16 + 12 * i) == (
    #[trigger] x.modes@[i]).width && u32_at(w, 20 + 12 * i) == x.modes@[i].height && u32_at(
        w,
        24 + 12 * i,
    ) == x.modes@[i].refresh_millihz by {
        law_mode_spec_layout(x.modes@[i]);
        assert(stands_at(mode_specs_wire(x.modes@), 12 * i, x.modes@[i].wire()));
    }
    law_u32s_read_back(x.reserved@);
    assert(stands_at(w, 64, u32s_le(x.reserved@)));
    assert forall|i: int| 0 <= i < 4 implies u32_at(w, 64 + 4 * i) == #[trigger] x.reserved@[i] by {
        assert(u32_at(u32s_le(x.reserved@), 4 * i) == x.reserved@[i]);
    }
}

/// An [`UpdateModesRequest`] at the front of a buffer is read as it was written, whatever
/// follows; a buffer of less than 80 bytes holds none.
pub proof fn law_update_modes_request_is_read_back(x: UpdateModesRequest, tail: Seq<u8>, short: Seq<u8>)
    requires
        short.len() < 80,
    ensures
        UpdateModesRequest::decoded(x.wire() + tail) == Some(x),
        UpdateModesRequest::decoded(short) is None,
{
    law_update_modes_request_layout(x);
    assert((x.wire() + tail).take(80) =~= x.wire());
    law_update_modes_request_round_trip(UpdateModesRequest::decoded(x.wire() + tail)->0, x);
}

/// Where a reader finds each field of an encoded [`UpdateModesReply`].
pub proof fn law_update_modes_reply_layout(x: UpdateModesReply)
    ensures
        ({
            let w = x.wire();
            &&& w.len() == 40
            &&& u64_at(w, 0) == x.session_id
            &&& i32_at(w, 8) == x.result
            &&& u32_at(w, 12) == x.mode_count
            &&& u32_at(w, 16) == x.accepted_count
            &&& u32_at(w, 20) == x.requested_count
            &&& u32_at(w, 24) == x.status_flags
            &&& u32_at(w, 28) == x.rejected_count
            &&& u32_at(w, 32) == x.first_rejected_index
            &&& u32_at(w, 36) == x.blocking_index
        }),
{
    let w = x.wire();
    law_u64_reads_back(x.session_id);
    assert(stands_at(w, 0, u64_le(x.session_id)));
    law_i32_reads_back(x.result);
    assert(stands_at(w, 8, i32_le(x.result)));
    law_u32_reads_back(x.mode_count);
    assert(stands_at(w, 12, u32_le(x.mode_count)));
    law_u32_reads_back(x.accepted_count);
    assert(stands_at(w, 16, u32_le(x.accepted_count)));
    law_u32_reads_back(x.requested_count);
    assert(stands_at(w, 20, u32_le(x.requested_count)));
    law_u32_reads_back(x.status_flags);
    assert(stands_at(w, 24, u32_le(x.status_flags)));
    law_u32_reads_back(x.rejected_count);
    assert(stands_at(w, 28, u32_le(x.rejected_count)));
    law_u32_reads_back(x.first_rejected_index);
    assert(stands_at(w, 32, u32_le(x.first_rejected_index)));
    law_u32_reads_back(x.blocking_index);
    assert(stands_at(w, 36, u32_le(x.blocking_index)));
}

/// An [`UpdateModesReply`] at the front of a buffer is read as it was written, whatever
/// follows; a buffer of less than 40 bytes holds none.
pub proof fn law_update_modes_reply_is_read_back(x: UpdateModesReply, tail: Seq<u8>, short: Seq<u8>)
    requires
        short.len() < 40,
    ensures
        UpdateModesReply::decoded(x.wire() + tail) == Some(x),
        UpdateModesReply::decoded(short) is None,
{
    law_update_modes_reply_layout(x);
    assert((x.wire() + tail).take(40) =~= x.wire());
    law_update_modes_reply_round_trip(UpdateModesReply::decoded(x.wire() + tail)->0, x);
}

/// Where a reader finds each field of an encoded [`MonitorStatus`].
pub proof fn law_monitor_status_layout(x: MonitorStatus)
    ensures
        ({
            let w = x.wire();
            &&& w.len() == 96
            &&& u64_at(w, 0) == x.session_id
            &&& u64_at(w, 8) == x.display_id
            &&& u64_at(w, 16) == x.adapter_luid
            &&& u64_at(w, 24) == x.latest_sequence
            &&& u64_at(w, 32) == x.frames_published
            &&& u64_at(w, 40) == x.frames_dropped
            &&& u64_at(w, 48) == x.last_ping_ms
            &&& u32_at(w, 56) == x.width
            &&& u32_at(w, 60) == x.height
            &&& u32_at(w, 64) == x.refresh_millihz
            &&& u32_at(w, 68) == x.bit_depth
            &&& u32_at(w, 72) == x.hdr
            &&& u32_at(w, 76) == x.ring_generation
            &&& u32_at(w, 80) == x.ring_state
            &&& i32_at(w, 84) == x.last_error
            &&& u32_at(w, 88) == x.connector_index
            &&& u32_at(w, 92) == x.lease_timeout_ms
        }),
{
    let w = x.wire();
    law_u64_reads_back(x.session_id);
    assert(stands_at(w, 0, u64_le(x.session_id)));
    law_u64_reads_back(x.display_id);
    assert(stands_at(w, 8, u64_le(x.display_id)));
    law_u64_reads_back(x.adapter_luid);
    assert(stands_at(w, 16, u64_le(x.adapter_luid)));
    law_u64_reads_back(x.latest_sequence);
    assert(stands_at(w, 24, u64_le(x.latest_sequence)));
    law_u64_reads_back(x.frames_published);
    assert(stands_at(w, 32, u64_le(x.frames_published)));
    law_u64_reads_back(x.frames_dropped);
    assert(stands_at(w, 40, u64_le(x.frames_dropped)));
    law_u64_reads_back(x.last_ping_ms);
    assert(stands_at(w, 48, u64_le(x.last_ping_ms)));
    law_u32_reads_back(x.width);
    assert(stands_at(w, 56, u32_le(x.width)));
    law_u32_reads_back(x.height);
    assert(stands_at(w, 60, u32_le(x.height)));
    law_u32_reads_back(x.refresh_millihz);
    assert(stands_at(w, 64, u32_le(x.refresh_millihz)));
    law_u32_reads_back(x.bit_depth);
    assert(stands_at(w, 68, u32_le(x.bit_depth)));
    law_u32_reads_back(x.hdr);
    assert(stands_at(w, 72, u32_le(x.hdr)));
    law_u32_reads_back(x.ring_generation);
    assert(stands_at(w, 76, u32_le(x.ring_generation)));
    law_u32_reads_back(x.ring_state);
    assert(stands_at(w, 80, u32_le(x.ring_state)));
    law_i32_reads_back(x.last_error);
    assert(stands_at(w, 84, i32_le(x.last_error)));
    law_u32_reads_back(x.connector_index);
    assert(stands_at(w, 88, u32_le(x.connector_index)));
    law_u32_reads_back(x.lease_timeout_ms);
    assert(stands_at(w, 92, u32_le(x.lease_timeout_ms)));
}

/// A [`MonitorStatus`] at the front of a buffer is read as it was written, whatever
/// follows; a buffer of less than 96 bytes holds none.
pub proof fn law_monitor_status_is_read_back(x: MonitorStatus, tail: Seq<u8>, short: Seq<u8>)
    requires
        short.len() < 96,
    ensures
        MonitorStatus::decoded(x.wire() + tail) == Some(x),
        MonitorStatus::decoded(short) is None,
{
    law_monitor_status_layout(x);
    assert((x.wire() + tail).take(96) =~= x.wire());
    law_monitor_status_round_trip(MonitorStatus::decoded(x.wire() + tail)->0, x);
}

/// Where a reader finds each field of an encoded [`GetStatusReply`].
pub proof fn law_get_status_reply_layout(x: GetStatusReply)
    ensures
        ({
            let w = x.wire();
            &&& w.len() == 1568
            &&& u64_at(w, 0) == x.uptime_ms
            &&& u32_at(w, 8) == x.driver_build
            &&& u16_at(w, 12) == x.proto_major
            &&& u16_at(w, 14) == x.proto_minor
            &&& u32_at(w, 16) == x.caps
            &&& u32_at(w, 20) == x.max_monitors
            &&& u32_at(w, 24) == x.watchdog_secs
            &&& u32_at(w, 28) == x.monitor_count
            &&& forall|i: int|
                0 <= i < 16 ==> w.subrange(32 + 96 * i, 128 + 96 * i) == (#[trigger] x.monitors@[i]).wire()
        }),
{
    let w = x.wire();
    law_u64_reads_back(x.uptime_ms);
    assert(stands_at(w, 0, u64_le(x.uptime_ms)));
    law_u32_reads_back(x.driver_build);
    assert(stands_at(w, 8, u32_le(x.driver_build)));
    law_u16_reads_back(x.proto_major);
    assert(stands_at(w, 12, u16_le(x.proto_major)));
    law_u16_reads_back(x.proto_minor);
    assert(stands_at(w, 14, u16_le(x.proto_minor)));
    law_u32_reads_back(x.caps);
    assert(stands_at(w, 16, u32_le(x.caps)));
    law_u32_reads_back(x.max_monitors);
    assert(stands_at(w, 20, u32_le(x.max_monitors)));
    law_u32_reads_back(x.watchdog_secs);
    assert(stands_at(w, 24, u32_le(x.watchdog_secs)));
    law_u32_reads_back(x.monitor_count);
    assert(stands_at(w, 28, u32_le(x.monitor_count)));
    lemma_monitor_statuses_stand(x.monitors@);
    assert(stands_at(w, 32, monitor_statuses_wire(x.monitors@)));
    assert forall|i: int| 0 <= i < 16 implies w.subrange(32 + 96 * i, 128 + 96 * i) == (
    #[trigger] x.monitors@[i]).wire() by {
        x.monitors@[i].lemma_wire_len();
        assert(stands_at(monitor_statuses_wire(x.monitors@), 96 * i, x.monitors@[i].wire()));
        assert(w.subrange(32 + 96 * i, 128 + 96 * i) =~= x.monitors@[i].wire());
    }
}

/// A [`GetStatusReply`] at the front of a buffer is read as it was written, whatever
/// follows; a buffer of less than 1568 bytes holds none.
pub proof fn law_get_status_reply_is_read_back(x: GetStatusReply, tail: Seq<u8>, short: Seq<u8>)
    requires
        short.len() < 1568,
    ensures
        GetStatusReply::decoded(x.wire() + tail) == Some(x),
        GetStatusReply::decoded(short) is None,
{
    law_get_status_reply_layout(x);
    assert((x.wire() + tail).take(1568) =~= x.wire());
    law_get_status_reply_round_trip(GetStatusReply::decoded(x.wire() + tail)->0, x);
}

/// Where a reader finds each field of an encoded [`Hdr10StaticMetadata`].
pub proof fn law_hdr10_static_metadata_layout(x: Hdr10StaticMetadata)
    ensures
        ({
            let w = x.wire();
            &&& w.len() == 28
            &&& forall|i: int|
                0 <= i < 2 ==> u16_at(w, 2 * i) == #[trigger] x.red_primary@[i]
            &&& forall|i: int|
                0 <= i < 2 ==> u16_at(w, 4 + 2 * i) == #[trigger] x.green_primary@[i]
            &&& forall|i: int|
                0 <= i < 2 ==> u16_at(w, 8 + 2 * i) == #[trigger] x.blue_primary@[i]
            &&& forall|i: int|
                0 <= i < 2 ==> u16_at(w, 12 + 2 * i) == #[trigger] x.white_point@[i]
            &&& u32_at(w, 16) == x.max_mastering_luminance
            &&& u32_at(w, 20) == x.min_mastering_luminance
            &&& u16_at(w, 24) == x.max_content_light_level
            &&& u16_at(w, 26) == x.max_frame_average_light_level
        }),
{
    let w = x.wire();
    law_u16s_read_back(x.red_primary@);
    assert(stands_at(w, 0, u16s_le(x.red_primary@)));
    assert forall|i: int| 0 <= i < 2 implies u16_at(w, 2 * i) == #[trigger] x.red_primary@[i] by {
        assert(u16_at(u16s_le(x.red_primary@), 2 * i) == x.red_primary@[i]);
    }
    law_u16s_read_back(x.green_primary@);
    assert(stands_at(w, 4, u16s_le(x.green_primary@)));
    assert forall|i: int| 0 <= i < 2 implies u16_at(w, 4 + 2 * i) == #[trigger] x.green_primary@[i] by {
        assert(u16_at(u16s_le(x.green_primary@), 2 * i) == x.green_primary@[i]);
    }
    law_u16s_read_back(x.blue_primary@);
    assert(stands_at(w, 8, u16s_le(x.blue_primary@)));
    assert forall|i: int| 0 <= i < 2 implies u16_at(w, 8 + 2 * i) == #[trigger] x.blue_primary@[i] by {
        assert(u16_at(u16s_le(x.blue_primary@), 2 * i) == x.blue_primary@[i]);
    }
    law_u16s_read_back(x.white_point@);
    assert(stands_at(w, 12, u16s_le(x.white_point@)));
    assert forall|i: int| 0 <= i < 2 implies u16_at(w, 12 + 2 * i) == #[trigger] x.white_point@[i] by {
        assert(u16_at(u16s_le(x.white_point@), 2 * i) == x.white_point@[i]);
    }
    law_u32_reads_back(x.max_mastering_luminance);
    assert(stands_at(w, 16, u32_le(x.max_mastering_luminance)));
    law_u32_reads_back(x.min_mastering_luminance);
    assert(stands_at(w, 20, u32_le(x.min_mastering_luminance)));
    law_u16_reads_back(x.max_content_light_level);
    assert(stands_at(w, 24, u16_le(x.max_content_light_level)));
    law_u16_reads_back(x.max_frame_average_light_level);
    assert(stands_at(w, 26, u16_le(x.max_frame_average_light_level)));
}

/// Where a reader finds each field of an encoded [`RectU32`].
pub proof fn law_rect_u32_layout(x: RectU32)
    ensures
        ({
            let w = x.wire();
            &&& w.len() == 16
            &&& u32_at(w, 0) == x.left
            &&& u32_at(w, 4) == x.top
            &&& u32_at(w, 8) == x.right
            &&& u32_at(w, 12) == x.bottom
        }),
{
    let w = x.wire();
    law_u32_reads_back(x.left);
    assert(stands_at(w, 0, u32_le(x.left)));
    law_u32_reads_back(x.top);
    assert(stands_at(w, 4, u32_le(x.top)));
    law_u32_reads_back(x.right);
    assert(stands_at(w, 8, u32_le(x.right)));
    law_u32_reads_back(x.bottom);
    assert(stands_at(w, 12, u32_le(x.bottom)));
}

/// Where a reader finds each field of an encoded [`SlotMetadata`].
pub proof fn law_slot_metadata_layout(x: SlotMetadata)
    ensures
        ({
            let w = x.wire();
            &&& w.len() == 80
            &&& u32_at(w, 0) == x.state
            &&& u32_at(w, 4) == x.flags
            &&& u64_at(w, 8) == x.sequence
            &&& u64_at(w, 16) == x.present_qpc
            &&& w.subrange(24, 52) == x.hdr.wire()
            &&& u32_at(w, 52) == x.dirty_count
            &&& w.subrange(56, 72) == x.dirty_bound.wire()
            &&& forall|i: int|
                0 <= i < 2 ==> u32_at(w, 72 + 4 * i) == #[trigger] x.reserved@[i]
        }),
{
    let w = x.wire();
    law_u32_reads_back(x.state);
    assert(stands_at(w, 0, u32_le(x.state)));
    law_u32_reads_back(x.flags);
    assert(stands_at(w, 4, u32_le(x.flags)));
    law_u64_reads_back(x.sequence);
    assert(stands_at(w, 8, u64_le(x.sequence)));
    law_u64_reads_back(x.present_qpc);
    assert(stands_at(w, 16, u64_le(x.present_qpc)));
    x.hdr.lemma_wire_len();
    assert(stands_at(w, 24, x.hdr.wire()));
    assert(w.subrange(24, 52) =~= x.hdr.wire());
    law_u32_reads_back(x.dirty_count);
    assert(stands_at(w, 52, u32_le(x.dirty_count)));
    x.dirty_bound.lemma_wire_len();
    assert(stands_at(w, 56, x.dirty_bound.wire()));
    assert(w.subrange(56, 72) =~= x.dirty_bound.wire());
    law_u32s_read_back(x.reserved@);
    assert(stands_at(w, 72, u32s_le(x.reserved@)));
    assert forall|i: int| 0 <= i < 2 implies u32_at(w, 72 + 4 * i) == #[trigger] x.reserved@[i] by {
        assert(u32_at(u32s_le(x.reserved@), 4 * i) == x.reserved@[i]);
    }
}

/// Where a reader finds each field of an encoded [`RingHeader`].
pub proof fn law_ring_header_layout(x: RingHeader)
    ensures
        ({
            let w = x.wire();
            &&& w.len() == 72
            &&& u32_at(w, 0) == x.magic
            &&& u32_at(w, 4) == x.header_version
            &&& u32_at(w, 8) == x.ring_generation
            &&& u32_at(w, 12) == x.slot_count
            &&& u32_at(w, 16) == x.state
            &&& u32_at(w, 20) == x.reserved0
            &&& u64_at(w, 24) == x.latest_sequence
            &&& u64_at(w, 32) == x.latest_present_qpc
            &&& u64_at(w, 40) == x.frames_published
            &&& u64_at(w, 48) == x.frames_dropped
            &&& u64_at(w, 56) == x.driver_heartbeat_qpc
            &&& u64_at(w, 64) == x.qpc_frequency
        }),
{
    let w = x.wire();
    law_u32_reads_back(x.magic);
    assert(stands_at(w, 0, u32_le(x.magic)));
    law_u32_reads_back(x.header_version);
    assert(stands_at(w, 4, u32_le(x.header_version)));
    law_u32_reads_back(x.ring_generation);
    assert(stands_at(w, 8, u32_le(x.ring_generation)));
    law_u32_reads_back(x.slot_count);
    assert(stands_at(w, 12, u32_le(x.slot_count)));
    law_u32_reads_back(x.state);
    assert(stands_at(w, 16, u32_le(x.state)));
    law_u32_reads_back(x.reserved0);
    assert(stands_at(w, 20, u32_le(x.reserved0)));
    law_u64_reads_back(x.latest_sequence);
    assert(stands_at(w, 24, u64_le(x.latest_sequence)));
    law_u64_reads_back(x.latest_present_qpc);
    assert(stands_at(w, 32, u64_le(x.latest_present_qpc)));
    law_u64_reads_back(x.frames_published);
    assert(stands_at(w, 40, u64_le(x.frames_published)));
    law_u64_reads_back(x.frames_dropped);
    assert(stands_at(w, 48, u64_le(x.frames_dropped)));
    law_u64_reads_back(x.driver_heartbeat_qpc);
    assert(stands_at(w, 56, u64_le(x.driver_heartbeat_qpc)));
    law_u64_reads_back(x.qpc_frequency);
    assert(stands_at(w, 64, u64_le(x.qpc_frequency)));
}

/// Where a reader finds each field of an encoded [`CursorHeader`].
pub proof fn law_cursor_header_layout(x: CursorHeader)
    ensures
        ({
            let w = x.wire();
            &&& w.len() == 64
            &&& u32_at(w, 0) == x.magic
            &&& u32_at(w, 4) == x.version
            &&& u32_at(w, 8) == x.shape_generation
            &&& u32_at(w, 12) == x.width
            &&& u32_at(w, 16) == x.height
            &&& u32_at(w, 20) == x.hotspot_x
            &&& u32_at(w, 24) == x.hotspot_y
            &&& u32_at(w, 28) == x.kind
            &&& i32_at(w, 32) == x.x
            &&& i32_at(w, 36) == x.y
            &&& u32_at(w, 40) == x.visible
            &&& u32_at(w, 44) == x.reserved0
            &&& u64_at(w, 48) == x.position_qpc
            &&& u64_at(w, 56) == x.reserved1
        }),
{
    let w = x.wire();
    law_u32_reads_back(x.magic);
    assert(stands_at(w, 0, u32_le(x.magic)));
    law_u32_reads_back(x.version);
    assert(stands_at(w, 4, u32_le(x.version)));
    law_u32_reads_back(x.shape_generation);
    assert(stands_at(w, 8, u32_le(x.shape_generation)));
    law_u32_reads_back(x.width);
    assert(stands_at(w, 12, u32_le(x.width)));
    law_u32_reads_back(x.height);
    assert(stands_at(w, 16, u32_le(x.height)));
    law_u32_reads_back(x.hotspot_x);
    assert(stands_at(w, 20, u32_le(x.hotspot_x)));
    law_u32_reads_back(x.hotspot_y);
    assert(stands_at(w, 24, u32_le(x.hotspot_y)));
    law_u32_reads_back(x.kind);
    assert(stands_at(w, 28, u32_le(x.kind)));
    law_i32_reads_back(x.x);
    assert(stands_at(w, 32, i32_le(x.x)));
    law_i32_reads_back(x.y);
    assert(stands_at(w, 36, i32_le(x.y)));
    law_u32_reads_back(x.visible);
    assert(stands_at(w, 40, u32_le(x.visible)));
    law_u32_reads_back(x.reserved0);
    assert(stands_at(w, 44, u32_le(x.reserved0)));
    law_u64_reads_back(x.position_qpc);
    assert(stands_at(w, 48, u64_le(x.position_qpc)));
    law_u64_reads_back(x.reserved1);
    assert(stands_at(w, 56, u64_le(x.reserved1)));
}

proof fn lemma_mode_specs_stand(s: Seq<ModeSpec>)
    ensures
        mode_specs_wire(s).len() == 12 * s.len(),
        forall|i: int|
            0 <= i < s.len() ==> stands_at(
                mode_specs_wire(s),
                12 * i,
                (#[trigger] s[i]).wire(),
            ),
    decreases s.len(),
{
    if s.len() > 0 {
        let rest = s.drop_last();
        lemma_mode_specs_stand(rest);
        assert forall|i: int| 0 <= i < s.len() implies stands_at(
            mode_specs_wire(s),
            12 * i,
            (#[trigger] s[i]).wire(),
        ) by {
            if i < rest.len() {
                assert(stands_at(mode_specs_wire(rest), 12 * i, rest[i].wire()));
            }
        }
    }
}

/// The entries of a status reply stand side by side in their order.
pub proof fn lemma_monitor_statuses_stand(s: Seq<MonitorStatus>)
    ensures
        monitor_statuses_wire(s).len() == 96 * s.len(),
        forall|i: int|
            0 <= i < s.len() ==> stands_at(
                monitor_statuses_wire(s),
                96 * i,
                (#[trigger] s[i]).wire(),
            ),
    decreases s.len(),
{
    if s.len() > 0 {
        let rest = s.drop_last();
        lemma_monitor_statuses_stand(rest);
        s.last().lemma_wire_len();
        assert forall|i: int| 0 <= i < s.len() implies stands_at(
            monitor_statuses_wire(s),
            96 * i,
            (#[trigger] s[i]).wire(),
        ) by {
            if i < rest.len() {
                assert(stands_at(monitor_statuses_wire(rest), 96 * i, rest[i].wire()));
            }
        }
    }
}

} // verus!
