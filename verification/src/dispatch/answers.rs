//! What each request is answered, read off the bytes of the reply, and what it leaves to
//! be done, told by the fields of the request.
use vstd::prelude::*;

use crate::dispatch::model::{create_request_in, no_pool, plug_of, DeviceModel, EffectModel};
use crate::dispatch::{DriverConfig, Status};
use crate::edid::{
    edid_bytes, law_base_block_decodes, law_blocks_sum_to_zero, law_extension_decodes,
    law_physical_size_decodes, law_stand_in_halves_the_rate, law_timing_decodes, EdidModel,
};
use crate::luminance::luminance_codes;
use crate::permanent::{member_request_of, member_session, pool_valid, to_create, to_destroy};
use crate::persist::{blob_of, PersistedModel};
use crate::proto::layout::{
    law_create_monitor_request_is_read_back, law_create_monitor_request_layout,
    law_destroy_monitor_request_is_read_back, law_handshake_reply_layout,
    law_handshake_request_is_read_back, law_permanent_pool_config_is_read_back,
    law_ping_request_is_read_back, law_query_lease_reply_layout, law_query_lease_request_is_read_back,
    law_query_permanent_pool_reply_layout, law_set_render_adapter_request_is_read_back,
    law_update_modes_reply_layout, law_update_modes_request_is_read_back, lemma_monitor_statuses_stand,
    stands_at,
};
use crate::proto::names::{nul_padded, ring_section_units};
use crate::proto::wire::{
    i32_at, i32_le, law_i32_reads_back, law_u16_reads_back, law_u16s_read_back, law_u32_reads_back,
    law_u64_reads_back, u16_at, u16_le, u16s_le, u32_at, u32_le, u64_at, u64_le,
};
use crate::proto::err;
use crate::proto::{
    CreateMonitorRequest, DestroyMonitorRequest, HandshakeReply, HandshakeRequest,
    PermanentPoolConfig, PingRequest, QueryLeaseReply, QueryLeaseRequest, QueryPermanentPoolReply,
    SetRenderAdapterRequest, UpdateModesReply, UpdateModesRequest,
};
use crate::session::laws::law_created_monitor_is_as_asked;
use crate::session::model::{MonitorModel, TableModel};

verus! {

broadcast use crate::proto::wire::group_le_len;

/// Each control code, written out, leads to its own request, as the host encoded it.
pub proof fn law_codes_reach_their_requests(
    d: DeviceModel,
    shaken: bool,
    now_ms: u64,
    tail: Seq<u8>,
    handshake: HandshakeRequest,
    create: CreateMonitorRequest,
    destroy: DestroyMonitorRequest,
    ping: PingRequest,
    adapter: SetRenderAdapterRequest,
    lease: QueryLeaseRequest,
    pool: PermanentPoolConfig,
    update: UpdateModesRequest,
)
    ensures
        d.answer(shaken, now_ms, 0x22_2000, handshake.wire() + tail) == Some(
            d.on_handshake(handshake),
        ),
        d.answer(shaken, now_ms, 0x22_2004, create.wire() + tail) == Some(
            d.on_create(shaken, now_ms, create),
        ),
        d.answer(shaken, now_ms, 0x22_2008, destroy.wire() + tail) == Some(
            d.on_destroy(shaken, destroy),
        ),
        d.answer(shaken, now_ms, 0x22_200C, ping.wire() + tail) == Some(
            d.on_ping(shaken, now_ms, ping),
        ),
        d.answer(shaken, now_ms, 0x22_2010, tail) == Some(d.on_get_status(shaken, now_ms)),
        d.answer(shaken, now_ms, 0x22_2014, adapter.wire() + tail) == Some(
            d.on_set_render_adapter(shaken, adapter),
        ),
        d.answer(shaken, now_ms, 0x22_2018, lease.wire() + tail) == Some(
            d.on_query_lease(shaken, now_ms, lease),
        ),
        d.answer(shaken, now_ms, 0x22_201C, pool.wire() + tail) == Some(
            d.on_set_pool(shaken, now_ms, pool),
        ),
        d.answer(shaken, now_ms, 0x22_2020, tail) == Some(d.on_query_pool(shaken)),
        d.answer(shaken, now_ms, 0x22_2024, update.wire() + tail) == Some(
            d.on_update_modes(shaken, update),
        ),
{
    let e = Seq::<u8>::empty();
    law_handshake_request_is_read_back(handshake, tail, e);
    law_create_monitor_request_is_read_back(create, tail, e);
    law_create_monitor_request_layout(create);
    law_destroy_monitor_request_is_read_back(destroy, tail, e);
    law_ping_request_is_read_back(ping, tail, e);
    law_set_render_adapter_request_is_read_back(adapter, tail, e);
    law_query_lease_request_is_read_back(lease, tail, e);
    law_permanent_pool_config_is_read_back(pool, tail, e);
    law_update_modes_request_is_read_back(update, tail, e);
}

/// A buffer that is too short for its request is refused and changes nothing.
pub proof fn law_short_requests_are_refused(
    d: DeviceModel,
    shaken: bool,
    now_ms: u64,
    code: u32,
    input: Seq<u8>,
    room: nat,
)
    requires
        ({
            ||| code == 0x22_2000 && input.len() < 4
            ||| code == 0x22_2004 && input.len() < 168
            ||| code == 0x22_2008 && input.len() < 8
            ||| code == 0x22_200C && input.len() < 8
            ||| code == 0x22_2014 && input.len() < 8
            ||| code == 0x22_2018 && input.len() < 8
            ||| code == 0x22_201C && input.len() < 96
            ||| code == 0x22_2024 && input.len() < 80
        }),
    ensures
        ({
            let (status, a) = d.outcome(shaken, now_ms, code, input, room);
            &&& status == Status::BadBuffer
            &&& a.dev == d
            &&& a.handshaken == shaken
            &&& a.reply.len() == 0
            &&& a.effects.len() == 0
        }),
{
}

/// Every other code is unknown; a known one that is understood succeeds when its reply
/// fits, and is then answered as it stands.
pub proof fn law_outcome_values(
    d: DeviceModel,
    shaken: bool,
    now_ms: u64,
    code: u32,
    input: Seq<u8>,
    room: nat,
)
    ensures
        ({
            let (status, a) = d.outcome(shaken, now_ms, code, input, room);
            let known = 0x22_2000 <= code <= 0x22_2024 && code % 4 == 0;
            let answer = d.answer(shaken, now_ms, code, input);
            &&& status == Status::UnknownCode <==> !known
            &&& known && answer is None ==> status == Status::BadBuffer && a.dev == d
            &&& known && answer is Some && room >= answer->0.reply.len() ==> status
                == Status::Success && a == answer->0
            &&& known && answer is Some && room < answer->0.reply.len() ==> {
                &&& status == Status::BadBuffer
                &&& a.reply.len() == 0
                &&& a.effects.len() == 0
                &&& code == 0x22_2024 ==> a.dev == d && a.handshaken == shaken
                &&& code != 0x22_2024 ==> a.dev == answer->0.dev && a.handshaken
                    == answer->0.handshaken
            }
        }),
{
}

/// A create request that ends before its luminance is read as one that asks for none;
/// every other field is read as it stands.
pub proof fn law_legacy_create_request(req: CreateMonitorRequest, tail: Seq<u8>)
    requires
        tail.len() < 8,
    ensures
        create_request_in(req.wire().take(168) + tail) == Some(
            CreateMonitorRequest { max_nits: 0, reserved0: 0, ..req },
        ),
        create_request_in(req.wire().take(167)) is None,
        create_request_in(req.wire() + tail) == Some(req),
{
    let old = CreateMonitorRequest { max_nits: 0, reserved0: 0, ..req };
    law_create_monitor_request_layout(req);
    law_create_monitor_request_layout(old);
    law_create_monitor_request_is_read_back(old, Seq::empty(), Seq::empty());
    law_create_monitor_request_is_read_back(req, tail, Seq::empty());
    let input = req.wire().take(168) + tail;
    assert(input.take(168) =~= req.wire().take(168));
    assert(req.wire().take(168) =~= old.wire().take(168)) by {
        let (a, b) = (req.wire(), old.wire());
        assert(a =~= a.take(168) + a.skip(168));
        assert(b =~= b.take(168) + b.skip(168));
    }
    assert(u32_le(0) =~= seq![0u8, 0, 0, 0]) by {
        reveal(u16_le);
        reveal(u32_le);
    }
    assert(old.wire() =~= old.wire().take(168) + seq![0u8, 0, 0, 0, 0, 0, 0, 0]);
    assert(old.wire() + Seq::<u8>::empty() =~= old.wire());
}

/// The driver introduces itself as version 0.8 with its build, its capabilities and its
/// limits, and the handle has shaken hands exactly when the host speaks version 0 and
/// needs nothing newer.
pub proof fn law_handshake_answer(d: DeviceModel, req: HandshakeRequest)
    ensures
        ({
            let a = d.on_handshake(req);
            &&& a.handshaken <==> req.host_proto_major == 0 && req.host_proto_minor <= 8
            &&& a.dev == d
            &&& a.effects.len() == 0
            &&& a.reply.len() == 20
            &&& u16_at(a.reply, 0) == 0
            &&& u16_at(a.reply, 2) == 8
            &&& u32_at(a.reply, 4) == d.cfg.driver_build
            &&& u32_at(a.reply, 8) == d.cfg.caps
            &&& u32_at(a.reply, 12) == d.table.max_monitors
            &&& u32_at(a.reply, 16) == d.table.watchdog_secs
        }),
{
    law_handshake_reply_layout(
        HandshakeReply {
            driver_proto_major: 0,
            driver_proto_minor: 8,
            driver_build: d.cfg.driver_build,
            caps: d.cfg.caps,
            max_monitors: d.table.max_monitors,
            watchdog_secs: d.table.watchdog_secs,
        },
    );
}

proof fn lemma_create_reply(
    session_id: u64,
    display_id: u64,
    result: i32,
    slots: u32,
    connector: u32,
    name: Seq<u16>,
)
    requires
        name.len() == 64,
    ensures
        ({
            let r = crate::dispatch::model::create_reply_wire(
                session_id,
                display_id,
                result,
                slots,
                connector,
                name,
            );
            &&& r.len() == 160
            &&& u64_at(r, 0) == session_id
            &&& u64_at(r, 8) == display_id
            &&& i32_at(r, 16) == result
            &&& u32_at(r, 20) == slots
            &&& u32_at(r, 24) == connector
            &&& u32_at(r, 28) == 0
            &&& forall|i: int| 0 <= i < 64 ==> u16_at(r, 32 + 2 * i) == #[trigger] name[i]
        }),
{
    let r = crate::dispatch::model::create_reply_wire(
        session_id,
        display_id,
        result,
        slots,
        connector,
        name,
    );
    law_u64_reads_back(session_id);
    law_u64_reads_back(display_id);
    law_i32_reads_back(result);
    law_u32_reads_back(slots);
    law_u32_reads_back(connector);
    law_u32_reads_back(0);
    law_u16s_read_back(name);
    assert(stands_at(r, 0, u64_le(session_id)));
    assert(stands_at(r, 8, u64_le(display_id)));
    assert(stands_at(r, 16, i32_le(result)));
    assert(stands_at(r, 20, u32_le(slots)));
    assert(stands_at(r, 24, u32_le(connector)));
    assert(stands_at(r, 28, u32_le(0)));
    assert(stands_at(r, 32, u16s_le(name)));
    assert forall|i: int| 0 <= i < 64 implies u16_at(r, 32 + 2 * i) == #[trigger] name[i] by {
        assert(u16_at(u16s_le(name), 2 * i) == name[i]);
    }
}

/// A refused create request is told why, under its own session, and gets nothing else:
/// not shaken hands first, then a reserved identity, then what the table has against it.
pub proof fn law_refused_create_answer(d: DeviceModel, shaken: bool, now_ms: u64, req: CreateMonitorRequest)
    requires
        !shaken || req.display_id >= 0xE000_0000_0000_0000 || 0x7000_0000_0000_0000
            <= req.display_id < 0x8000_0000_0000_0000 || d.table.create_refusal(
            req,
            d.cfg.caps,
            d.adapters,
            d.preferred_adapter,
        ) is Some,
    ensures
        ({
            let a = d.on_create(shaken, now_ms, req);
            let own = req.display_id >= 0xE000_0000_0000_0000 || 0x7000_0000_0000_0000
                <= req.display_id < 0x8000_0000_0000_0000;
            &&& a.dev == d
            &&& a.handshaken == shaken
            &&& a.effects.len() == 0
            &&& a.reply.len() == 160
            &&& u64_at(a.reply, 0) == req.session_id
            &&& u64_at(a.reply, 8) == 0
            &&& i32_at(a.reply, 16) == (if !shaken {
                -10
            } else if own {
                -11
            } else {
                d.table.create_refusal(req, d.cfg.caps, d.adapters, d.preferred_adapter)->0.wire_code() as int
            })
            &&& i32_at(a.reply, 16) < 0
            &&& u32_at(a.reply, 20) == 0
            &&& u32_at(a.reply, 24) == 0
            &&& forall|i: int| 0 <= i < 64 ==> #[trigger] u16_at(a.reply, 32 + 2 * i) == 0
        }),
{
    crate::session::laws::law_reserved_identity_values(req.display_id);
    let name = nul_padded(Seq::empty(), 64);
    let code: i32 = if !shaken {
        err::NOT_HANDSHAKEN
    } else {
        match d.host_create_refusal(req) {
            Some(e) => e.wire_code(),
            None => 0,
        }
    };
    if shaken {
        crate::error::law_codes_distinct(
            d.host_create_refusal(req)->0,
            d.host_create_refusal(req)->0,
        );
    }
    lemma_create_reply(req.session_id, 0, code, 0, 0, name);
    let r = d.on_create(shaken, now_ms, req).reply;
    assert forall|i: int| 0 <= i < 64 implies #[trigger] u16_at(r, 32 + 2 * i) == 0 by {
        assert(name[i] == 0);
    }
}

/// An accepted create request is answered with its session, the identity and connector
/// the monitor got, the number of ring slots and the name of the ring section.
pub proof fn law_accepted_create_answer(d: DeviceModel, now_ms: u64, req: CreateMonitorRequest)
    requires
        d.wf(),
        d.host_create_refusal(req) is None,
    ensures
        ({
            let a = d.on_create(true, now_ms, req);
            let m = a.dev.table.monitors[req.session_id];
            let name = ring_section_units(req.session_id);
            &&& a.handshaken
            &&& a.dev.table.monitors.dom() == d.table.monitors.dom().insert(req.session_id)
            &&& (DeviceModel { table: d.table, ..a.dev }) == d
            &&& a.reply.len() == 160
            &&& u64_at(a.reply, 0) == req.session_id
            &&& u64_at(a.reply, 8) == m.display_id
            &&& i32_at(a.reply, 16) == 0
            &&& u32_at(a.reply, 20) == (if d.cfg.ring_slots < 2 {
                2
            } else if d.cfg.ring_slots > 8 {
                8
            } else {
                d.cfg.ring_slots as int
            })
            &&& u32_at(a.reply, 24) == m.connector_index
            &&& u32_at(a.reply, 28) == 0
            &&& name.len() == 39
            &&& forall|i: int|
                0 <= i < 64 ==> #[trigger] u16_at(a.reply, 32 + 2 * i) == (if i < 39 {
                    name[i] as int
                } else {
                    0
                })
        }),
{
    let a = d.on_create(true, now_ms, req);
    let m = d.table.new_monitor(now_ms, req, d.cfg.caps, d.adapters, d.preferred_adapter);
    let name = nul_padded(ring_section_units(req.session_id), 64);
    assert(ring_section_units(req.session_id).len() == 39) by {
        reveal_strlit("Global\\LuminalVGD-ring-");
        crate::proto::names::lemma_hex_units_len(req.session_id as nat, 16);
    }
    lemma_create_reply(req.session_id, m.display_id, 0, d.slots(), m.connector_index, name);
    assert(a.dev.table.monitors.dom() =~= d.table.monitors.dom().insert(req.session_id));
    assert forall|i: int| 0 <= i < 64 implies #[trigger] u16_at(a.reply, 32 + 2 * i) == (if i < 39 {
        ring_section_units(req.session_id)[i] as int
    } else {
        0
    }) by {
        assert(u16_at(a.reply, 32 + 2 * i) == name[i]);
    }
}

/// A plugged monitor is the one in the table: under its session, identity, connector and
/// adapter, describing its modes and publishing its targets. Its EDID is made of its first
/// mode, its name, its numbers and its size.
pub proof fn law_plug_shows_the_monitor(m: MonitorModel, ring_slots: u32)
    ensures
        plug_of(m, ring_slots) == (EffectModel::PlugMonitor {
            session_id: m.session_id,
            display_id: m.display_id,
            connector_index: m.connector_index,
            modes: m.modes,
            targets: m.target_modes,
            adapter_luid: m.adapter_luid,
            ring_slots,
            transport_flags: m.flags,
            edid: edid_bytes(
                EdidModel {
                    mode: m.modes[0],
                    friendly_name: m.friendly_name@,
                    serial: m.edid_serial,
                    product_code: m.product_code,
                    physical_width_mm: m.physical_width_mm,
                    physical_height_mm: m.physical_height_mm,
                    max_nits: m.max_nits,
                },
            ),
        }),
{
}

/// An accepted create request is plugged in as asked, and the EDID says so to whoever
/// reads it: the size that was asked for in centimetres and millimetres, the first mode
/// that was asked for where a timing can hold it, the serial and product code of the
/// monitor, and the luminance that was asked for. What is stored afterwards is what the
/// device holds afterwards.
pub proof fn law_accepted_create_is_plugged_as_asked(d: DeviceModel, now_ms: u64, req: CreateMonitorRequest)
    requires
        d.wf(),
        d.host_create_refusal(req) is None,
    ensures
        ({
            let a = d.on_create(true, now_ms, req);
            let m = a.dev.table.monitors[req.session_id];
            let w_mm = if req.physical_width_mm == 0 {
                600
            } else if req.physical_width_mm <= 2550 {
                req.physical_width_mm as int
            } else {
                2550
            };
            let h_mm = if req.physical_height_mm == 0 {
                340
            } else if req.physical_height_mm <= 2550 {
                req.physical_height_mm as int
            } else {
                2550
            };
            let (w, h, hz) = (
                req.modes@[0].width,
                req.modes@[0].height,
                req.modes@[0].refresh_millihz,
            );
            let clock = ((w + 160) * (h + 45) * hz + 5_000_000) / 10_000_000;
            &&& a.effects.len() == 2
            &&& a.effects[0] is PlugMonitor
            &&& {
                let p = a.effects[0];
                let e = p->edid;
                &&& p->PlugMonitor_session_id == req.session_id
                &&& p->display_id == m.display_id
                &&& p->connector_index == m.connector_index
                &&& p->modes == m.modes
                &&& p->PlugMonitor_targets == m.modes
                &&& p->adapter_luid == m.adapter_luid
                &&& p->transport_flags == req.flags
                &&& p->ring_slots == (if d.cfg.ring_slots < 2 {
                    2
                } else if d.cfg.ring_slots > 8 {
                    8
                } else {
                    d.cfg.ring_slots as int
                })
                &&& e.len() == 256
                &&& e[21] == w_mm / 10
                &&& e[22] == h_mm / 10
                &&& e[66] + 256 * (e[68] / 16) == w_mm
                &&& e[67] + 256 * (e[68] % 16) == h_mm
                &&& e[10] + 0x100 * e[11] == m.product_code
                &&& e[12] + 0x100 * e[13] + 0x1_0000 * e[14] + 0x100_0000 * e[15] == m.edid_serial
                &&& w <= 4095 && h <= 4095 && clock <= 65_535 ==> {
                    &&& e[56] + 256 * (e[58] / 16) == w
                    &&& e[59] + 256 * (e[61] / 16) == h
                    &&& e[54] + 256 * e[55] == clock
                }
                &&& e[130] == (if req.hdr == 1 {
                    15int
                } else {
                    4
                })
                &&& req.hdr == 1 ==> e[140] == luminance_codes(req.max_nits).max && e[141]
                    == luminance_codes(req.max_nits).max_fall && e[142] == luminance_codes(
                    req.max_nits,
                ).min
                &&& e == edid_bytes(
                    EdidModel {
                        mode: m.modes[0],
                        friendly_name: req.friendly_name@,
                        serial: m.edid_serial,
                        product_code: m.product_code,
                        physical_width_mm: req.physical_width_mm,
                        physical_height_mm: req.physical_height_mm,
                        max_nits: req.max_nits,
                    },
                )
            }
            &&& a.effects[1] == EffectModel::PersistState(
                blob_of(
                    PersistedModel {
                        reservations: a.dev.table.connectors.listing(),
                        pool: if d.pool.count > 0 {
                            Some(d.pool)
                        } else {
                            None
                        },
                    },
                ),
            )
        }),
{
    law_created_monitor_is_as_asked(
        d.table,
        now_ms,
        req,
        d.cfg.caps,
        d.adapters,
        d.preferred_adapter,
    );
    let a = d.on_create(true, now_ms, req);
    let m = a.dev.table.monitors[req.session_id];
    let p = EdidModel {
        mode: m.modes[0],
        friendly_name: req.friendly_name@,
        serial: m.edid_serial,
        product_code: m.product_code,
        physical_width_mm: req.physical_width_mm,
        physical_height_mm: req.physical_height_mm,
        max_nits: req.max_nits,
    };
    assert(1 <= req.mode_count) by {
        crate::modes::law_mode_list_acceptance_is_exact(
            req.modes@,
            req.mode_count,
            req.bit_depth,
            req.hdr,
            d.cfg.caps,
        );
    }
    assert(m.modes[0].width == req.modes@[0].width);
    law_physical_size_decodes(p);
    law_base_block_decodes(p);
    law_timing_decodes(p);
    law_extension_decodes(p);
    law_blocks_sum_to_zero(p);
    law_stand_in_halves_the_rate(p.mode);
}

/// A bare answer is four bytes.
proof fn lemma_bare_answer(code: i32)
    ensures
        i32_le(code).len() == 4,
        i32_at(i32_le(code), 0) == code,
{
    law_i32_reads_back(code);
}

/// Destroying ends exactly the named session: its monitor is unplugged and gone, what is
/// left is stored, every other monitor stays. Without a handshake, or for a session that
/// does not exist, nothing happens but the answer.
pub proof fn law_destroy_answer(d: DeviceModel, shaken: bool, req: DestroyMonitorRequest, other: u64)
    requires
        d.wf(),
    ensures
        ({
            let a = d.on_destroy(shaken, req);
            let s = req.session_id;
            let live = d.table.monitors.dom().contains(s);
            &&& a.reply.len() == 4
            &&& a.handshaken == shaken
            &&& i32_at(a.reply, 0) == (if !shaken {
                -10int
            } else if !live {
                -8
            } else {
                0
            })
            &&& !shaken || !live ==> a.dev == d && a.effects.len() == 0
            &&& shaken && live ==> {
                &&& a.dev.table.monitors == d.table.monitors.remove(s)
                &&& a.dev.table.next_update_seq == d.table.next_update_seq
                &&& (DeviceModel { table: d.table, ..a.dev }) == d
                &&& a.effects.len() == 2
                &&& a.effects[0] == (EffectModel::UnplugMonitor { session_id: s })
                &&& a.effects[1] == EffectModel::PersistState(
                    blob_of(
                        PersistedModel {
                            reservations: a.dev.table.connectors.listing(),
                            pool: if d.pool.count > 0 {
                                Some(d.pool)
                            } else {
                                None
                            },
                        },
                    ),
                )
            }
        }),
{
    lemma_bare_answer(err::NOT_HANDSHAKEN);
    lemma_bare_answer(err::NO_SUCH_SESSION);
    lemma_bare_answer(0);
    let a = d.on_destroy(shaken, req);
    if shaken && d.table.monitors.dom().contains(req.session_id) {
        assert(a.dev.table.monitors =~= d.table.monitors.remove(req.session_id));
    }
}

/// A ping is answered with success for a live session and feeds just that session.
pub proof fn law_ping_answer(d: DeviceModel, shaken: bool, now_ms: u64, req: PingRequest)
    ensures
        ({
            let a = d.on_ping(shaken, now_ms, req);
            let s = req.session_id;
            let live = d.table.monitors.dom().contains(s);
            &&& a.reply.len() == 4
            &&& a.handshaken == shaken
            &&& a.effects.len() == 0
            &&& i32_at(a.reply, 0) == (if !shaken {
                -10int
            } else if !live {
                -8
            } else {
                0
            })
            &&& !shaken || !live ==> a.dev == d
            &&& shaken && live ==> {
                &&& a.dev.table.monitors == d.table.monitors.insert(
                    s,
                    MonitorModel { last_ping_ms: now_ms, ..d.table.monitors[s] },
                )
                &&& (DeviceModel {
                    table: TableModel { monitors: d.table.monitors, ..a.dev.table },
                    ..a.dev
                }) == d
            }
        }),
{
    lemma_bare_answer(err::NOT_HANDSHAKEN);
    lemma_bare_answer(err::NO_SUCH_SESSION);
    lemma_bare_answer(0);
}

/// A lease query tells identity, connector and the time left, and changes nothing.
pub proof fn law_query_lease_answer(d: DeviceModel, shaken: bool, now_ms: u64, req: QueryLeaseRequest)
    ensures
        ({
            let a = d.on_query_lease(shaken, now_ms, req);
            let s = req.session_id;
            let live = d.table.monitors.dom().contains(s);
            let m = d.table.monitors[s];
            &&& a.dev == d
            &&& a.handshaken == shaken
            &&& a.effects.len() == 0
            &&& a.reply.len() == 32
            &&& u64_at(a.reply, 0) == s
            &&& i32_at(a.reply, 24) == (if !shaken {
                -10int
            } else if !live {
                -8
            } else {
                0
            })
            &&& u32_at(a.reply, 28) == 0
            &&& !shaken || !live ==> u64_at(a.reply, 8) == 0 && u32_at(a.reply, 16) == 0 && u32_at(
                a.reply,
                20,
            ) == 0
            &&& shaken && live ==> {
                &&& u64_at(a.reply, 8) == m.display_id
                &&& u32_at(a.reply, 20) == m.connector_index
                &&& u32_at(a.reply, 16) == (if m.lease_timeout_ms == 0xFFFF_FFFF {
                    0xFFFF_FFFF
                } else if now_ms <= m.last_ping_ms {
                    m.lease_timeout_ms as int
                } else if now_ms - m.last_ping_ms <= m.lease_timeout_ms {
                    m.lease_timeout_ms - (now_ms - m.last_ping_ms)
                } else {
                    0
                })
            }
        }),
{
    let blank = QueryLeaseReply {
        session_id: req.session_id,
        display_id: 0,
        remaining_ms: 0,
        connector_index: 0,
        result: 0,
        reserved: 0,
    };
    let reply = if !shaken {
        QueryLeaseReply { result: err::NOT_HANDSHAKEN, ..blank }
    } else {
        match d.table.lease(now_ms, req.session_id) {
            Err(e) => QueryLeaseReply { result: e.wire_code(), ..blank },
            Ok(l) => QueryLeaseReply {
                display_id: l.0,
                connector_index: l.1,
                remaining_ms: l.2,
                ..blank
            },
        }
    };
    law_query_lease_reply_layout(reply);
}

/// Setting the adapter changes which one is preferred from then on and nothing else.
pub proof fn law_set_render_adapter_answer(d: DeviceModel, shaken: bool, req: SetRenderAdapterRequest)
    ensures
        ({
            let a = d.on_set_render_adapter(shaken, req);
            &&& a.reply.len() == 4
            &&& a.handshaken == shaken
            &&& a.effects.len() == 0
            &&& i32_at(a.reply, 0) == (if shaken {
                0int
            } else {
                -10
            })
            &&& a.dev.preferred_adapter == (if shaken {
                req.adapter_luid
            } else {
                d.preferred_adapter
            })
            &&& (DeviceModel { preferred_adapter: d.preferred_adapter, ..a.dev }) == d
        }),
{
    lemma_bare_answer(err::NOT_HANDSHAKEN);
    lemma_bare_answer(0);
}

/// A pool query tells the configuration in force, with or without a handshake.
pub proof fn law_query_pool_answer(d: DeviceModel, shaken: bool)
    ensures
        ({
            let a = d.on_query_pool(shaken);
            &&& a.dev == d
            &&& a.handshaken == shaken
            &&& a.effects.len() == 0
            &&& a.reply.len() == 104
            &&& a.reply.subrange(0, 96) == d.pool.wire()
            &&& i32_at(a.reply, 96) == 0
            &&& u32_at(a.reply, 100) == 0
        }),
{
    law_query_permanent_pool_reply_layout(
        QueryPermanentPoolReply { config: d.pool, result: 0, reserved: 0 },
    );
}

/// A status reply tells the uptime, the driver and its limits, how many monitors there
/// are, and then each of them.
pub proof fn law_status_answer(d: DeviceModel, shaken: bool, now_ms: u64)
    requires
        d.wf(),
    ensures
        ({
            let a = d.on_get_status(shaken, now_ms);
            &&& a.dev == d
            &&& a.handshaken == shaken
            &&& a.effects.len() == 0
            &&& a.reply.len() == 1568
            &&& u64_at(a.reply, 0) == now_ms
            &&& u32_at(a.reply, 8) == d.cfg.driver_build
            &&& u16_at(a.reply, 12) == 0
            &&& u16_at(a.reply, 14) == 8
            &&& u32_at(a.reply, 16) == d.cfg.caps
            &&& u32_at(a.reply, 20) == d.table.max_monitors
            &&& u32_at(a.reply, 24) == d.table.watchdog_secs
            &&& u32_at(a.reply, 28) == d.table.monitors.dom().len()
            &&& forall|i: int|
                0 <= i < 16 ==> a.reply.subrange(32 + 96 * i, 128 + 96 * i) == (
                #[trigger] d.table.status_entries()[i]).wire()
        }),
{
    let r = d.on_get_status(shaken, now_ms).reply;
    let entries = d.table.status_entries();
    let n = d.table.monitors.dom().len() as u32;
    law_u64_reads_back(now_ms);
    law_u32_reads_back(d.cfg.driver_build);
    law_u16_reads_back(0);
    law_u16_reads_back(8);
    law_u32_reads_back(d.cfg.caps);
    law_u32_reads_back(d.table.max_monitors);
    law_u32_reads_back(d.table.watchdog_secs);
    law_u32_reads_back(n);
    lemma_monitor_statuses_stand(entries);
    let all = crate::proto::messages::monitor_statuses_wire(entries);
    assert(stands_at(r, 0, u64_le(now_ms)));
    assert(stands_at(r, 8, u32_le(d.cfg.driver_build)));
    assert(stands_at(r, 12, u16_le(0)));
    assert(stands_at(r, 14, u16_le(8)));
    assert(stands_at(r, 16, u32_le(d.cfg.caps)));
    assert(stands_at(r, 20, u32_le(d.table.max_monitors)));
    assert(stands_at(r, 24, u32_le(d.table.watchdog_secs)));
    assert(stands_at(r, 28, u32_le(n)));
    assert(stands_at(r, 32, all));
    assert forall|i: int| 0 <= i < 16 implies r.subrange(32 + 96 * i, 128 + 96 * i) == (
    #[trigger] entries[i]).wire() by {
        entries[i].lemma_wire_len();
        assert(stands_at(all, 96 * i, entries[i].wire()));
        assert(r.subrange(32 + 96 * i, 128 + 96 * i) =~= entries[i].wire());
    }
}

/// A mode update is answered with the outcome the table came to: how many modes were
/// asked for, accepted and rejected, the first that was rejected, whether the list is in
/// force or on its way, and what stands in the way. Only a queued list leaves anything to
/// be done.
pub proof fn law_update_answer(d: DeviceModel, req: UpdateModesRequest)
    requires
        d.wf(),
        d.table.monitors.dom().contains(req.session_id),
        1 <= req.mode_count <= 4,
        d.table.requested_modes(
            req.session_id,
            req.modes@.take(req.mode_count as int),
            d.cfg.caps,
        ) is Ok,
    ensures
        ({
            let a = d.on_update_modes(true, req);
            let wanted = d.table.requested_modes(
                req.session_id,
                req.modes@.take(req.mode_count as int),
                d.cfg.caps,
            )->Ok_0;
            let u = d.table.update_answer(req.session_id, wanted, d.token);
            let r = a.reply;
            &&& a.handshaken
            &&& r.len() == 40
            &&& u64_at(r, 0) == req.session_id
            &&& i32_at(r, 8) == (if u.blocked is Some {
                -14int
            } else if u.refused {
                -3
            } else {
                0
            })
            &&& u.targets.len() <= 0xFFFF_FFFF ==> u32_at(r, 12) == u.targets.len()
            &&& u32_at(r, 16) == u.accepted
            &&& u32_at(r, 20) == req.mode_count
            &&& u32_at(r, 24) == (if u.pending {
                1int
            } else {
                0
            }) + (if u.rejected > 0 {
                2int
            } else {
                0
            }) + (if u.blocked is Some {
                4int
            } else {
                0
            })
            &&& u32_at(r, 28) == u.rejected
            &&& u32_at(r, 32) == (match u.first_rejected {
                Some(i) => i as int,
                None => 0xFFFF_FFFF,
            })
            &&& u32_at(r, 36) == (match u.blocked {
                Some(i) => i as int,
                None => 0,
            })
            &&& a.dev.table == d.table.after_update(req.session_id, wanted, d.token)
            &&& (DeviceModel { table: d.table, ..a.dev }) == d
            &&& u.queued is None ==> a.effects.len() == 0
            &&& u.queued matches Some(seq) ==> a.effects.len() == 1 && a.effects[0] == (
            EffectModel::UpdateModes {
                session_id: req.session_id,
                update_seq: seq,
                targets: u.targets,
            })
        }),
{
    let wanted = d.table.requested_modes(
        req.session_id,
        req.modes@.take(req.mode_count as int),
        d.cfg.caps,
    )->Ok_0;
    let u = d.table.update_answer(req.session_id, wanted, d.token);
    crate::session::laws::law_update_keeps_the_depth(
        d.table,
        req.session_id,
        req.modes@.take(req.mode_count as int),
        d.cfg.caps,
    );
    crate::session::laws::law_update_accounts_for_every_mode(
        d.table,
        req.session_id,
        wanted,
        d.token,
    );
    let flags: u32 = ((if u.rejected > 0 {
        2int
    } else {
        0
    }) + (if u.pending {
        1int
    } else {
        0
    })) as u32;
    assert(0u32 | 4u32 == 4 && 1u32 | 4u32 == 5 && 2u32 | 4u32 == 6 && 3u32 | 4u32 == 7) by (bit_vector);
    let told = UpdateModesReply {
        session_id: req.session_id,
        result: if u.blocked is Some {
            err::MODE_COMMITTED
        } else if u.refused {
            err::BAD_MODE
        } else {
            0
        },
        mode_count: u.targets.len() as u32,
        accepted_count: u.accepted as u32,
        requested_count: req.mode_count,
        status_flags: if u.blocked is Some {
            flags | 4
        } else {
            flags
        },
        rejected_count: u.rejected as u32,
        first_rejected_index: match u.first_rejected {
            Some(i) => i as u32,
            None => 0xFFFF_FFFF,
        },
        blocking_index: match u.blocked {
            Some(i) => i,
            None => 0,
        },
    };
    law_update_modes_reply_layout(told);
    assert(d.on_update_modes(true, req).reply == told.wire());
}

/// A mode update that is refused outright says why, tells the list in force and how many
/// modes were asked for, and changes nothing.
pub proof fn law_refused_update_answer(d: DeviceModel, shaken: bool, req: UpdateModesRequest)
    requires
        !shaken || !(1 <= req.mode_count <= 4) || d.table.requested_modes(
            req.session_id,
            req.modes@.take(req.mode_count as int),
            d.cfg.caps,
        ) is Err,
    ensures
        ({
            let a = d.on_update_modes(shaken, req);
            let live = d.table.monitors.dom().contains(req.session_id);
            let r = a.reply;
            &&& a.dev == d
            &&& a.handshaken == shaken
            &&& a.effects.len() == 0
            &&& r.len() == 40
            &&& u64_at(r, 0) == req.session_id
            &&& i32_at(r, 8) == (if !shaken {
                -10
            } else if !(1 <= req.mode_count <= 4) {
                -3
            } else {
                d.table.requested_modes(
                    req.session_id,
                    req.modes@.take(req.mode_count as int),
                    d.cfg.caps,
                )->Err_0.wire_code() as int
            })
            &&& i32_at(r, 8) < 0
            &&& !live ==> u32_at(r, 12) == 0
            &&& live && d.table.monitors[req.session_id].target_modes.len() <= 0xFFFF_FFFF ==> u32_at(
                r,
                12,
            ) == d.table.monitors[req.session_id].target_modes.len()
            &&& u32_at(r, 16) == 0
            &&& u32_at(r, 20) == req.mode_count
            &&& u32_at(r, 24) == 0
            &&& u32_at(r, 28) == 0
            &&& u32_at(r, 32) == 0xFFFF_FFFF
            &&& u32_at(r, 36) == 0
        }),
{
    let live = d.table.monitors.dom().contains(req.session_id);
    let e = d.table.requested_modes(
        req.session_id,
        req.modes@.take(req.mode_count as int),
        d.cfg.caps,
    );
    crate::error::law_codes_distinct(e->Err_0, e->Err_0);
    let told = UpdateModesReply {
        session_id: req.session_id,
        result: if !shaken {
            err::NOT_HANDSHAKEN
        } else if !(1 <= req.mode_count <= 4) {
            err::BAD_MODE
        } else {
            e->Err_0.wire_code()
        },
        mode_count: if live {
            d.table.monitors[req.session_id].target_modes.len() as u32
        } else {
            0
        },
        accepted_count: 0,
        requested_count: req.mode_count,
        status_flags: 0,
        rejected_count: 0,
        first_rejected_index: 0xFFFF_FFFF,
        blocking_index: 0,
    };
    law_update_modes_reply_layout(told);
    assert(d.on_update_modes(shaken, req).reply == told.wire());
}

/// How a device starts: with its configuration, no monitors and no adapters, as many
/// connectors as monitors, at most sixteen, and what was stored.
pub proof fn law_started_device(cfg: DriverConfig, blob: Option<Seq<u8>>)
    ensures
        ({
            let d = DeviceModel::started(cfg, blob);
            &&& d.cfg == cfg
            &&& d.table.max_monitors == (if cfg.max_monitors < 16 {
                cfg.max_monitors
            } else {
                16
            })
            &&& d.table.watchdog_secs == cfg.watchdog_secs
            &&& d.table.monitors.dom().len() == 0
            &&& d.table.next_update_seq == 0
            &&& d.adapters.len() == 0
            &&& d.preferred_adapter == 0
            &&& d.token == 0
            &&& blob is None ==> d.pool.count == 0 && d.table.connectors.reservations.dom().len() == 0
        }),
{
}

/// A watchdog sweep unplugs exactly the sessions that have been silent for longer than
/// their lease, each once and in ascending order, and stores what is left if there were
/// any.
pub proof fn law_sweep_unplugs_the_silent(d: DeviceModel, now_ms: u64, s: u64, i: int, j: int)
    requires
        d.wf(),
    ensures
        ({
            let e = d.sweep_effects(now_ms);
            let silent = d.table.monitors.dom().contains(s) && d.table.monitors[s].lease_timeout_ms
                != 0xFFFF_FFFF && now_ms > d.table.monitors[s].last_ping_ms
                + d.table.monitors[s].lease_timeout_ms;
            &&& silent <==> exists|k: int|
                0 <= k < e.len() && #[trigger] e[k] == (EffectModel::UnplugMonitor { session_id: s })
            &&& e.len() > 0 ==> e.len() >= 2 && e.last() is PersistState
            &&& 0 <= i < e.len() - 1 ==> e[i] is UnplugMonitor
            &&& 0 <= i < j < e.len() - 1 ==> e[i]->UnplugMonitor_session_id
                < e[j]->UnplugMonitor_session_id
        }),
{
    let dead = d.table.expired_sessions(now_ms);
    let e = d.sweep_effects(now_ms);
    vstd::set_lib::lemma_len_subset(dead.intersect(d.table.monitors.dom()), d.table.monitors.dom());
    assert(dead.intersect(d.table.monitors.dom()) =~= dead);
    assert(dead.finite()) by {
        vstd::set_lib::lemma_set_subset_finite(d.table.monitors.dom(), dead);
    }
    crate::idmap::lemma_sorted_exists(dead);
    let ids = crate::idmap::sorted_ids(dead);
    assert forall|k: int| 0 <= k < ids.len() implies e[k] == (EffectModel::UnplugMonitor {
        session_id: #[trigger] ids[k],
    }) by {
        assert(ids.to_set().contains(ids[k]));
        assert(d.table.monitors.dom().contains(ids[k]));
        assert(d.table.monitor_ok(ids[k]));
    }
    assert(ids.len() > 0 ==> e.len() == ids.len() + 1);
    assert(ids.len() == 0 ==> e.len() == 0);
    if dead.contains(s) {
        assert(ids.to_set().contains(s));
        let k = ids.index_of(s);
        assert(e[k] == (EffectModel::UnplugMonitor { session_id: ids[k] }));
    }
    if exists|k: int|
        0 <= k < e.len() && #[trigger] e[k] == (EffectModel::UnplugMonitor { session_id: s }) {
        let k = choose|k: int|
            0 <= k < e.len() && #[trigger] e[k] == (EffectModel::UnplugMonitor { session_id: s });
        assert(k < ids.len());
        assert(e[k] == (EffectModel::UnplugMonitor { session_id: ids[k] }));
        assert(ids.to_set().contains(ids[k]));
    }
    if 0 <= i < ids.len() {
        assert(e[i] == (EffectModel::UnplugMonitor { session_id: ids[i] }));
    }
    if 0 <= j < ids.len() {
        assert(e[j] == (EffectModel::UnplugMonitor { session_id: ids[j] }));
    }
}

/// A monitor is the member `index` of a pool of this configuration: one mode, which is
/// that of the configuration, at the physical size and under the name of the
/// configuration, with the identity and session of the member and a lease that never
/// ends.
pub open spec fn shows_configuration(m: MonitorModel, config: PermanentPoolConfig, index: u32) -> bool {
    &&& m.session_id == 0x7100_0000_0000_0000 + index
    &&& m.display_id == 0x7000_0000_0000_0000 + index
    &&& m.modes.len() == 1
    &&& m.modes[0].width == config.width
    &&& m.modes[0].height == config.height
    &&& m.modes[0].refresh_millihz == config.refresh_millihz
    &&& m.modes[0].bit_depth.raw() == config.bit_depth
    &&& m.modes[0].hdr == (config.hdr == 1)
    &&& m.target_modes == m.modes
    &&& m.physical_width_mm == config.physical_width_mm
    &&& m.physical_height_mm == config.physical_height_mm
    &&& m.friendly_name == config.name
    &&& m.lease_timeout_ms == 0xFFFF_FFFF
    &&& !m.ephemeral_identity
    &&& m.flags == 0
    &&& m.max_nits == 0
}

proof fn lemma_member_shows_configuration(
    d: DeviceModel,
    t: TableModel,
    now_ms: u64,
    config: PermanentPoolConfig,
    index: u32,
)
    requires
        t.create_refusal(
            member_request_of(config, index),
            d.cfg.caps,
            d.adapters,
            d.preferred_adapter,
        ) is None,
    ensures
        shows_configuration(
            t.new_monitor(
                now_ms,
                member_request_of(config, index),
                d.cfg.caps,
                d.adapters,
                d.preferred_adapter,
            ),
            config,
            index,
        ),
        !t.monitors.dom().contains(member_session(index)),
{
    let req = member_request_of(config, index);
    crate::permanent::law_member_request_carries_the_configuration(config, index);
    crate::modes::law_mode_list_acceptance_is_exact(
        req.modes@,
        1,
        config.bit_depth,
        config.hdr,
        d.cfg.caps,
    );
    assert(0u32 & 2u32 == 0) by (bit_vector);
}

proof fn lemma_members_show_configuration(
    d: DeviceModel,
    t: TableModel,
    now_ms: u64,
    config: PermanentPoolConfig,
    made: Seq<u32>,
)
    ensures
        ({
            let run = d.members_created(t, now_ms, config, made);
            let n = run.effects.len();
            &&& n <= made.len()
            &&& run.result == 0 <==> n == made.len()
            &&& run.result <= 0
            &&& run.created == (if n == 0 {
                0
            } else {
                (made[n - 1] + 1) as u32
            })
            &&& forall|k: int|
                0 <= k < n ==> {
                    let m = run.table.monitors[member_session(#[trigger] made[k])];
                    &&& run.table.monitors.dom().contains(member_session(made[k]))
                    &&& shows_configuration(m, config, made[k])
                    &&& run.effects[k] == plug_of(m, d.slots())
                }
            &&& forall|s: u64| #[trigger]
                t.monitors.dom().contains(s) ==> run.table.monitors.dom().contains(s)
                    && run.table.monitors[s] == t.monitors[s]
        }),
    decreases made.len(),
{
    if made.len() > 0 {
        let rest = made.drop_last();
        lemma_members_show_configuration(d, t, now_ms, config, rest);
        let before = d.members_created(t, now_ms, config, rest);
        let run = d.members_created(t, now_ms, config, made);
        let index = made.last();
        let req = member_request_of(config, index);
        assert forall|k: int| 0 <= k < rest.len() implies rest[k] == #[trigger] made[k] by {}
        if before.result == 0 {
            let refusal = before.table.create_refusal(
                req,
                d.cfg.caps,
                d.adapters,
                d.preferred_adapter,
            );
            if refusal is Some {
                crate::error::law_codes_distinct(refusal->0, refusal->0);
                assert forall|k: int| 0 <= k < run.effects.len() implies {
                    let m = run.table.monitors[member_session(#[trigger] made[k])];
                    &&& run.table.monitors.dom().contains(member_session(made[k]))
                    &&& shows_configuration(m, config, made[k])
                    &&& run.effects[k] == plug_of(m, d.slots())
                } by {
                    assert(rest[k] == made[k]);
                }
            } else {
                lemma_member_shows_configuration(d, before.table, now_ms, config, index);
                assert forall|k: int| 0 <= k < run.effects.len() implies {
                    let m = run.table.monitors[member_session(#[trigger] made[k])];
                    &&& run.table.monitors.dom().contains(member_session(made[k]))
                    &&& shows_configuration(m, config, made[k])
                    &&& run.effects[k] == plug_of(m, d.slots())
                } by {
                    if k < rest.len() {
                        assert(rest[k] == made[k]);
                        assert(before.table.monitors.dom().contains(member_session(rest[k])));
                    }
                }
            }
        } else {
            assert forall|k: int| 0 <= k < run.effects.len() implies {
                let m = run.table.monitors[member_session(#[trigger] made[k])];
                &&& run.table.monitors.dom().contains(member_session(made[k]))
                &&& shows_configuration(m, config, made[k])
                &&& run.effects[k] == plug_of(m, d.slots())
            } by {
                assert(rest[k] == made[k]);
            }
        }
    }
}

/// Every member of a pool that was brought up shows the configuration: it describes
/// exactly one mode, whose size, rate, depth and dynamic range are those of the
/// configuration, and carries its physical size and name. It is plugged in as it stands in
/// the table. Creating stops at the first member that is refused, and only then is the
/// outcome an error.
pub proof fn law_pool_members_show_the_configuration(
    d: DeviceModel,
    now_ms: u64,
    config: PermanentPoolConfig,
    k: int,
)
    ensures
        ({
            let gone = to_destroy(d.pool, d.pool.count, config);
            let made = to_create(d.pool, d.pool.count, config);
            let run = d.pool_run(now_ms, config);
            let unplugged = DeviceModel::members_unplugged(d.table, gone).len();
            let n = run.effects.len() - unplugged;
            &&& 0 <= n <= made.len()
            &&& run.result == 0 <==> n == made.len()
            &&& run.result <= 0
            &&& 0 <= k < n ==> {
                let m = run.table.monitors[(0x7100_0000_0000_0000 + made[k]) as u64];
                &&& run.table.monitors.dom().contains((0x7100_0000_0000_0000 + made[k]) as u64)
                &&& shows_configuration(m, config, made[k])
                &&& run.effects[unplugged + k] == plug_of(m, d.slots())
            }
        }),
{
    let gone = to_destroy(d.pool, d.pool.count, config);
    let made = to_create(d.pool, d.pool.count, config);
    let t = DeviceModel::table_without_members(d.table, gone);
    lemma_members_show_configuration(d, t, now_ms, config, made);
    if 0 <= k < made.len() {
        crate::permanent::law_member_request_carries_the_configuration(config, made[k]);
        assert(member_session(made[k]) == (0x7100_0000_0000_0000 + made[k]) as u64);
    }
}

/// The members that leave a pool are unplugged, each once, and only those that are live.
pub proof fn law_pool_members_are_unplugged(t: TableModel, gone: Seq<u32>, s: u64)
    ensures
        ({
            let e = DeviceModel::members_unplugged(t, gone);
            let n = DeviceModel::table_without_members(t, gone);
            let leaves = exists|i: int| 0 <= i < gone.len() && s == member_session(#[trigger] gone[i]);
            &&& n.monitors.dom().contains(s) <==> t.monitors.dom().contains(s) && !leaves
            &&& n.monitors.dom().contains(s) ==> n.monitors[s] == t.monitors[s]
            &&& forall|k: int|
                0 <= k < e.len() ==> (#[trigger] e[k]) is UnplugMonitor && t.monitors.dom().contains(
                    e[k]->UnplugMonitor_session_id,
                )
            &&& t.monitors.dom().contains(s) && leaves <==> exists|k: int|
                0 <= k < e.len() && #[trigger] e[k] == (EffectModel::UnplugMonitor { session_id: s })
            &&& n.max_monitors == t.max_monitors
            &&& n.next_update_seq == t.next_update_seq
        }),
    decreases gone.len(),
{
    if gone.len() > 0 {
        let (rest, last) = (gone.drop_last(), gone.last());
        law_pool_members_are_unplugged(t, rest, s);
        law_pool_members_are_unplugged(t, rest, member_session(last));
        let e = DeviceModel::members_unplugged(t, gone);
        let b = DeviceModel::members_unplugged(t, rest);
        let before = DeviceModel::table_without_members(t, rest);
        let n = DeviceModel::table_without_members(t, gone);
        let leaves = exists|i: int| 0 <= i < gone.len() && s == member_session(#[trigger] gone[i]);
        let left = exists|i: int| 0 <= i < rest.len() && s == member_session(#[trigger] rest[i]);
        assert(leaves <==> left || s == member_session(last)) by {
            if left {
                let i = choose|i: int| 0 <= i < rest.len() && s == member_session(#[trigger] rest[i]);
                assert(gone[i] == rest[i]);
            }
            if leaves {
                let i = choose|i: int| 0 <= i < gone.len() && s == member_session(#[trigger] gone[i]);
                if i < rest.len() {
                    assert(rest[i] == gone[i]);
                }
            }
            assert(gone[gone.len() - 1] == last);
        }
        assert forall|k: int| 0 <= k < b.len() implies e[k] == #[trigger] b[k] by {}
        if t.monitors.dom().contains(s) && leaves {
            if before.monitors.dom().contains(s) {
                assert(e[e.len() - 1] == (EffectModel::UnplugMonitor { session_id: s }));
            } else {
                let k = choose|k: int|
                    0 <= k < b.len() && #[trigger] b[k] == (EffectModel::UnplugMonitor {
                        session_id: s,
                    });
                assert(e[k] == b[k]);
            }
        }
        if exists|k: int|
            0 <= k < e.len() && #[trigger] e[k] == (EffectModel::UnplugMonitor { session_id: s }) {
            let k = choose|k: int|
                0 <= k < e.len() && #[trigger] e[k] == (EffectModel::UnplugMonitor { session_id: s });
            if k < b.len() {
                assert(b[k] == e[k]);
            }
        }
    }
}

/// A pool request is refused before a handshake, and when the pool is not acceptable;
/// otherwise the pool becomes the one asked for, as far as its members could be created,
/// and what the device holds then is stored last.
pub proof fn law_set_pool_answer(d: DeviceModel, shaken: bool, now_ms: u64, req: PermanentPoolConfig)
    ensures
        ({
            let a = d.on_set_pool(shaken, now_ms, req);
            let cap = if d.cfg.max_monitors < 16 {
                d.cfg.max_monitors
            } else {
                16
            };
            let good = pool_valid(req, d.cfg.caps, cap);
            let run = d.pool_run(now_ms, req);
            &&& a.reply.len() == 4
            &&& a.handshaken == shaken
            &&& i32_at(a.reply, 0) == (if !shaken {
                -10
            } else if !good {
                -12
            } else {
                run.result as int
            })
            &&& !shaken || !good ==> a.dev == d && a.effects.len() == 0
            &&& shaken && good ==> {
                &&& a.dev.table == run.table
                &&& (PermanentPoolConfig { count: req.count, ..a.dev.pool }) == req
                &&& a.dev.pool.count <= req.count
                &&& run.result == 0 ==> a.dev.pool == req
                &&& (DeviceModel { table: d.table, pool: d.pool, ..a.dev }) == d
                &&& a.effects.len() == run.effects.len() + 1
                &&& forall|i: int|
                    0 <= i < run.effects.len() ==> #[trigger] a.effects[i] == run.effects[i]
                &&& a.effects.last() == EffectModel::PersistState(
                    blob_of(
                        PersistedModel {
                            reservations: a.dev.table.connectors.listing(),
                            pool: if a.dev.pool.count > 0 {
                                Some(a.dev.pool)
                            } else {
                                None
                            },
                        },
                    ),
                )
            }
        }),
{
    let run = d.pool_run(now_ms, req);
    lemma_bare_answer(err::NOT_HANDSHAKEN);
    lemma_bare_answer(err::BAD_POOL);
    lemma_bare_answer(run.result);
    let made = to_create(d.pool, d.pool.count, req);
    let gone = to_destroy(d.pool, d.pool.count, req);
    lemma_members_show_configuration(
        d,
        DeviceModel::table_without_members(d.table, gone),
        now_ms,
        req,
        made,
    );
    if run.result == 0 && made.len() > 0 {
        assert(made[made.len() - 1] + 1 == req.count);
    }
}

/// A device that has no pool holds zeros in every field of it.
pub proof fn law_no_pool_is_zero(i: int)
    requires
        0 <= i < 32,
    ensures
        ({
            let p = no_pool();
            &&& p.count == 0 && p.width == 0 && p.height == 0 && p.refresh_millihz == 0
            &&& p.bit_depth == 0 && p.hdr == 0
            &&& p.physical_width_mm == 0 && p.physical_height_mm == 0
            &&& p.name@[i] == 0
        }),
{
}

} // verus!
