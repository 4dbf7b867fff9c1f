//! Requests and replies of the control device.
use vstd::prelude::*;

use crate::proto::wire::{
    lemma_i32_le_injective, lemma_peel, lemma_u16_le_injective, lemma_u16s_le_injective,
    lemma_u16s_le_len, lemma_u32_le_injective, lemma_u32s_le_injective, lemma_u32s_le_len,
    lemma_u64_le_injective, put_bytes, put_i32, put_u16, put_u16s, put_u32, put_u32s, put_u64,
    i32_le, u16_le, u16s_le, u32_le, u32s_le, u64_le, Reader,
};

verus! {

broadcast use crate::proto::wire::group_le_len;

/// Bytes of an encoded [`HandshakeRequest`].
pub const HANDSHAKE_REQUEST_SIZE: usize = 4;

/// First message on a handle: the protocol version the host needs.
#[derive(Clone, Copy, Debug, PartialEq, Eq)]
pub struct HandshakeRequest {
    pub host_proto_major: u16,
    pub host_proto_minor: u16,
}

impl HandshakeRequest {
    /// The encoding: every field in declaration order, without padding.
    pub open spec fn wire(&self) -> Seq<u8> {
        Seq::<u8>::empty()
            + u16_le(self.host_proto_major)
            + u16_le(self.host_proto_minor)
    }

    /// What the front of a buffer says, if the buffer is long enough.
    pub open spec fn decoded(bytes: Seq<u8>) -> Option<HandshakeRequest> {
        if bytes.len() >= HANDSHAKE_REQUEST_SIZE {
            Some(choose|x: HandshakeRequest| x.wire() == bytes.take(HANDSHAKE_REQUEST_SIZE as int))
        } else {
            None
        }
    }

    pub fn to_bytes(&self) -> (r: Vec<u8>)
        ensures
            r@ == self.wire(),
            r@.len() == HANDSHAKE_REQUEST_SIZE,
    {
        let mut out: Vec<u8> = Vec::new();
        put_u16(&mut out, self.host_proto_major);
        put_u16(&mut out, self.host_proto_minor);
        out
    }

    /// Decode from the front of a buffer. Longer buffers are fine, shorter
    /// ones are refused.
    pub fn from_bytes(bytes: &[u8]) -> (v: Option<HandshakeRequest>)
        ensures
            v is Some <==> bytes@.len() >= HANDSHAKE_REQUEST_SIZE,
            v matches Some(x) ==> x.wire() == bytes@.take(HANDSHAKE_REQUEST_SIZE as int),
            v == HandshakeRequest::decoded(bytes@),
    {
        let mut r = Reader::new(bytes);
        let host_proto_major: u16 = r.u16()?;
        let host_proto_minor: u16 = r.u16()?;
        let v = HandshakeRequest {
            host_proto_major, host_proto_minor,
        };
        proof {
            assert(v.wire() == bytes@.take(HANDSHAKE_REQUEST_SIZE as int));
            law_handshake_request_round_trip(v, HandshakeRequest::decoded(bytes@)->0);
        }
        Some(v)
    }
}

/// An encoded [`HandshakeRequest`] determines the value: decoding what was encoded gives
/// it back unchanged.
pub proof fn law_handshake_request_round_trip(a: HandshakeRequest, b: HandshakeRequest)
    requires
        a.wire() == b.wire(),
    ensures
        a == b,
{
    let a0 = Seq::<u8>::empty();
    let a1 = a0 + u16_le(a.host_proto_major);
    let b0 = Seq::<u8>::empty();
    let b1 = b0 + u16_le(b.host_proto_major);
    lemma_peel(a1, u16_le(a.host_proto_minor), b1, u16_le(b.host_proto_minor));
    lemma_u16_le_injective(a.host_proto_minor, b.host_proto_minor);
    lemma_peel(a0, u16_le(a.host_proto_major), b0, u16_le(b.host_proto_major));
    lemma_u16_le_injective(a.host_proto_major, b.host_proto_major);
}

/// Bytes of an encoded [`HandshakeReply`].
pub const HANDSHAKE_REPLY_SIZE: usize = 20;

/// The driver describes itself, whether or not the versions agree.
#[derive(Clone, Copy, Debug, PartialEq, Eq)]
pub struct HandshakeReply {
    pub driver_proto_major: u16,
    pub driver_proto_minor: u16,
    /// Monotonic driver build number.
    pub driver_build: u32,
    /// Bitmask of `caps::*`.
    pub caps: u32,
    /// Effective monitor cap.
    pub max_monitors: u32,
    /// Effective watchdog timeout in seconds (0 = disabled).
    pub watchdog_secs: u32,
}

impl HandshakeReply {
    /// The encoding: every field in declaration order, without padding.
    pub open spec fn wire(&self) -> Seq<u8> {
        Seq::<u8>::empty()
            + u16_le(self.driver_proto_major)
            + u16_le(self.driver_proto_minor)
            + u32_le(self.driver_build)
            + u32_le(self.caps)
            + u32_le(self.max_monitors)
            + u32_le(self.watchdog_secs)
    }

    /// What the front of a buffer says, if the buffer is long enough.
    pub open spec fn decoded(bytes: Seq<u8>) -> Option<HandshakeReply> {
        if bytes.len() >= HANDSHAKE_REPLY_SIZE {
            Some(choose|x: HandshakeReply| x.wire() == bytes.take(HANDSHAKE_REPLY_SIZE as int))
        } else {
            None
        }
    }

    pub fn to_bytes(&self) -> (r: Vec<u8>)
        ensures
            r@ == self.wire(),
            r@.len() == HANDSHAKE_REPLY_SIZE,
    {
        let mut out: Vec<u8> = Vec::new();
        put_u16(&mut out, self.driver_proto_major);
        put_u16(&mut out, self.driver_proto_minor);
        put_u32(&mut out, self.driver_build);
        put_u32(&mut out, self.caps);
        put_u32(&mut out, self.max_monitors);
        put_u32(&mut out, self.watchdog_secs);
        out
    }

    /// Decode from the front of a buffer. Longer buffers are fine, shorter
    /// ones are refused.
    pub fn from_bytes(bytes: &[u8]) -> (v: Option<HandshakeReply>)
        ensures
            v is Some <==> bytes@.len() >= HANDSHAKE_REPLY_SIZE,
            v matches Some(x) ==> x.wire() == bytes@.take(HANDSHAKE_REPLY_SIZE as int),
            v == HandshakeReply::decoded(bytes@),
    {
        let mut r = Reader::new(bytes);
        let driver_proto_major: u16 = r.u16()?;
        let driver_proto_minor: u16 = r.u16()?;
        let driver_build: u32 = r.u32()?;
        let caps: u32 = r.u32()?;
        let max_monitors: u32 = r.u32()?;
        let watchdog_secs: u32 = r.u32()?;
        let v = HandshakeReply {
            driver_proto_major, driver_proto_minor, driver_build, caps, max_monitors,
            watchdog_secs,
        };
        proof {
            assert(v.wire() == bytes@.take(HANDSHAKE_REPLY_SIZE as int));
            law_handshake_reply_round_trip(v, HandshakeReply::decoded(bytes@)->0);
        }
        Some(v)
    }
}

/// An encoded [`HandshakeReply`] determines the value: decoding what was encoded gives
/// it back unchanged.
pub proof fn law_handshake_reply_round_trip(a: HandshakeReply, b: HandshakeReply)
    requires
        a.wire() == b.wire(),
    ensures
        a == b,
{
    let a0 = Seq::<u8>::empty();
    let a1 = a0 + u16_le(a.driver_proto_major);
    let a2 = a1 + u16_le(a.driver_proto_minor);
    let a3 = a2 + u32_le(a.driver_build);
    let a4 = a3 + u32_le(a.caps);
    let a5 = a4 + u32_le(a.max_monitors);
    let b0 = Seq::<u8>::empty();
    let b1 = b0 + u16_le(b.driver_proto_major);
    let b2 = b1 + u16_le(b.driver_proto_minor);
    let b3 = b2 + u32_le(b.driver_build);
    let b4 = b3 + u32_le(b.caps);
    let b5 = b4 + u32_le(b.max_monitors);
    lemma_peel(a5, u32_le(a.watchdog_secs), b5, u32_le(b.watchdog_secs));
    lemma_u32_le_injective(a.watchdog_secs, b.watchdog_secs);
    lemma_peel(a4, u32_le(a.max_monitors), b4, u32_le(b.max_monitors));
    lemma_u32_le_injective(a.max_monitors, b.max_monitors);
    lemma_peel(a3, u32_le(a.caps), b3, u32_le(b.caps));
    lemma_u32_le_injective(a.caps, b.caps);
    lemma_peel(a2, u32_le(a.driver_build), b2, u32_le(b.driver_build));
    lemma_u32_le_injective(a.driver_build, b.driver_build);
    lemma_peel(a1, u16_le(a.driver_proto_minor), b1, u16_le(b.driver_proto_minor));
    lemma_u16_le_injective(a.driver_proto_minor, b.driver_proto_minor);
    lemma_peel(a0, u16_le(a.driver_proto_major), b0, u16_le(b.driver_proto_major));
    lemma_u16_le_injective(a.driver_proto_major, b.driver_proto_major);
}

/// Bytes of an encoded [`ModeSpec`].
pub const MODE_SPEC_SIZE: usize = 12;

/// One display mode. The first of a list is the preferred one.
#[derive(Clone, Copy, Debug, PartialEq, Eq)]
pub struct ModeSpec {
    pub width: u32,
    pub height: u32,
    /// 120000 = 120 Hz; millihertz keep fractional rates such as 59.94 exact.
    pub refresh_millihz: u32,
}

impl ModeSpec {
    /// The encoding: every field in declaration order, without padding.
    pub open spec fn wire(&self) -> Seq<u8> {
        Seq::<u8>::empty()
            + u32_le(self.width)
            + u32_le(self.height)
            + u32_le(self.refresh_millihz)
    }

    /// What the front of a buffer says, if the buffer is long enough.
    pub open spec fn decoded(bytes: Seq<u8>) -> Option<ModeSpec> {
        if bytes.len() >= MODE_SPEC_SIZE {
            Some(choose|x: ModeSpec| x.wire() == bytes.take(MODE_SPEC_SIZE as int))
        } else {
            None
        }
    }

    pub proof fn lemma_wire_len(&self)
        ensures
            self.wire().len() == MODE_SPEC_SIZE,
    {
    }

    pub fn to_bytes(&self) -> (r: Vec<u8>)
        ensures
            r@ == self.wire(),
            r@.len() == MODE_SPEC_SIZE,
    {
        let mut out: Vec<u8> = Vec::new();
        put_u32(&mut out, self.width);
        put_u32(&mut out, self.height);
        put_u32(&mut out, self.refresh_millihz);
        proof {
            self.lemma_wire_len();
        }
        out
    }

    /// Decode from the front of a buffer. Longer buffers are fine, shorter
    /// ones are refused.
    pub fn from_bytes(bytes: &[u8]) -> (v: Option<ModeSpec>)
        ensures
            v is Some <==> bytes@.len() >= MODE_SPEC_SIZE,
            v matches Some(x) ==> x.wire() == bytes@.take(MODE_SPEC_SIZE as int),
            v == ModeSpec::decoded(bytes@),
    {
        let mut r = Reader::new(bytes);
        let width: u32 = r.u32()?;
        let height: u32 = r.u32()?;
        let refresh_millihz: u32 = r.u32()?;
        let v = ModeSpec {
            width, height, refresh_millihz,
        };
        proof {
            assert(v.wire() == bytes@.take(MODE_SPEC_SIZE as int));
            law_mode_spec_round_trip(v, ModeSpec::decoded(bytes@)->0);
        }
        Some(v)
    }
}

/// An encoded [`ModeSpec`] determines the value: decoding what was encoded gives
/// it back unchanged.
pub proof fn law_mode_spec_round_trip(a: ModeSpec, b: ModeSpec)
    requires
        a.wire() == b.wire(),
    ensures
        a == b,
{
    let a0 = Seq::<u8>::empty();
    let a1 = a0 + u32_le(a.width);
    let a2 = a1 + u32_le(a.height);
    let b0 = Seq::<u8>::empty();
    let b1 = b0 + u32_le(b.width);
    let b2 = b1 + u32_le(b.height);
    lemma_peel(a2, u32_le(a.refresh_millihz), b2, u32_le(b.refresh_millihz));
    lemma_u32_le_injective(a.refresh_millihz, b.refresh_millihz);
    lemma_peel(a1, u32_le(a.height), b1, u32_le(b.height));
    lemma_u32_le_injective(a.height, b.height);
    lemma_peel(a0, u32_le(a.width), b0, u32_le(b.width));
    lemma_u32_le_injective(a.width, b.width);
}

impl ModeSpec {
    pub fn zero() -> (r: Self)
        ensures
            r.width == 0,
            r.height == 0,
            r.refresh_millihz == 0,
    {
        ModeSpec { width: 0, height: 0, refresh_millihz: 0 }
    }
}

impl Default for ModeSpec {
    fn default() -> (r: Self)
        ensures
            r == (ModeSpec { width: 0, height: 0, refresh_millihz: 0 }),
    {
        ModeSpec::zero()
    }
}

/// The encodings of a sequence of [`ModeSpec`], in order.
pub open spec fn mode_specs_wire(s: Seq<ModeSpec>) -> Seq<u8>
    decreases s.len(),
{
    if s.len() == 0 {
        Seq::empty()
    } else {
        mode_specs_wire(s.drop_last()) + s.last().wire()
    }
}

pub proof fn lemma_mode_specs_wire_len(s: Seq<ModeSpec>)
    ensures
        mode_specs_wire(s).len() == MODE_SPEC_SIZE * s.len(),
    decreases s.len(),
{
    if s.len() > 0 {
        lemma_mode_specs_wire_len(s.drop_last());
        s.last().lemma_wire_len();
    }
}

pub proof fn lemma_mode_specs_wire_injective(a: Seq<ModeSpec>, b: Seq<ModeSpec>)
    requires
        a.len() == b.len(),
        mode_specs_wire(a) == mode_specs_wire(b),
    ensures
        a == b,
    decreases a.len(),
{
    if a.len() > 0 {
        a.last().lemma_wire_len();
        b.last().lemma_wire_len();
        lemma_peel(mode_specs_wire(a.drop_last()), a.last().wire(), mode_specs_wire(b.drop_last()), b.last().wire());
        law_mode_spec_round_trip(a.last(), b.last());
        lemma_mode_specs_wire_injective(a.drop_last(), b.drop_last());
        assert(a =~= a.drop_last().push(a.last()));
        assert(b =~= b.drop_last().push(b.last()));
    } else {
        assert(a =~= b);
    }
}

pub fn put_mode_specs(out: &mut Vec<u8>, values: &[ModeSpec])
    ensures
        final(out)@ == old(out)@ + mode_specs_wire(values@),
{
    let mut i: usize = 0;
    assert(out@ =~= old(out)@ + mode_specs_wire(values@.take(0)));
    while i < values.len()
        invariant
            i <= values@.len(),
            out@ == old(out)@ + mode_specs_wire(values@.take(i as int)),
        decreases values@.len() - i,
    {
        put_bytes(out, values[i].to_bytes().as_slice());
        proof {
            let upto = values@.take(i + 1);
            assert(upto.drop_last() =~= values@.take(i as int));
            assert(out@ =~= old(out)@ + mode_specs_wire(upto));
        }
        i += 1;
    }
    assert(values@.take(i as int) =~= values@);
}

/// `N` consecutive values.
pub fn read_mode_specs<const N: usize>(r: &mut Reader) -> (v: Option<[ModeSpec; N]>)
    requires
        old(r).wf(),
    ensures
        final(r).wf(),
        final(r).data@ == old(r).data@,
        v is Some <==> old(r).at + MODE_SPEC_SIZE * N <= old(r).data@.len(),
        v matches Some(x) ==> old(r).advanced(final(r), mode_specs_wire(x@)),
        v is Some ==> final(r).at == old(r).at + MODE_SPEC_SIZE * N,
{
    let mut out: [ModeSpec; N] = [ModeSpec::zero(); N];
    let mut i: usize = 0;
    assert(r.consumed() =~= old(r).consumed() + mode_specs_wire(out@.take(0)));
    assert(mode_specs_wire(out@.take(0)) =~= r.data@.subrange(r.at as int, r.at as int));
    while i < N
        invariant
            i <= N,
            out@.len() == N,
            old(r).wf(),
            mode_specs_wire(out@.take(i as int)).len() == MODE_SPEC_SIZE * i,
            old(r).advanced(r, mode_specs_wire(out@.take(i as int))),
        decreases N - i,
    {
        let ghost before = out@.take(i as int);
        let v: ModeSpec = ModeSpec::from_bytes(r.bytes(MODE_SPEC_SIZE)?)?;
        out[i] = v;
        proof {
            v.lemma_wire_len();
            let upto = out@.take(i + 1);
            assert(upto.drop_last() =~= before);
            assert(r.consumed() =~= old(r).consumed() + mode_specs_wire(upto));
            assert(mode_specs_wire(upto) =~= r.data@.subrange(old(r).at as int, r.at as int));
        }
        i += 1;
    }
    assert(out@.take(i as int) =~= out@);
    Some(out)
}

/// Bytes of an encoded [`CreateMonitorRequest`].
pub const CREATE_MONITOR_REQUEST_SIZE: usize = 176;

/// Ask for a monitor.
#[derive(Clone, Copy, Debug, PartialEq, Eq)]
pub struct CreateMonitorRequest {
    /// Host-chosen id of this lease; keys every later request about it and the
    /// names of the shared sections.
    pub session_id: u64,
    /// Stable display identity, independent of the lease: the same identity gets
    /// the same connector and EDID identity back. 0 derives an ephemeral identity
    /// from `session_id`.
    pub display_id: u64,
    /// Render adapter; 0 takes the device preference, else the largest adapter.
    pub adapter_luid: u64,
    /// See the `LEASE_TIMEOUT_*` constants.
    pub lease_timeout_ms: u32,
    /// Raw bit depth, see `BitDepth::from_raw`. Applies to all modes.
    pub bit_depth: u32,
    /// 0 or 1; 1 needs `caps::HDR10` and an HDR bit depth.
    pub hdr: u32,
    /// EDID serial; 0 derives one from the display identity.
    pub edid_serial: u32,
    /// Bitmask of `create_flags::*`.
    pub flags: u32,
    /// Number of valid entries in `modes`.
    pub mode_count: u32,
    pub modes: [ModeSpec; 4],
    /// Physical panel size advertised in the EDID; 0 takes the default.
    pub physical_width_mm: u32,
    pub physical_height_mm: u32,
    /// Monitor name, NUL-padded UTF-16.
    pub friendly_name: [u16; 32],
    /// Peak HDR luminance in nits; 0 takes the driver default.
    pub max_nits: u32,
    pub reserved0: u32,
}

impl CreateMonitorRequest {
    /// The encoding: every field in declaration order, without padding.
    pub open spec fn wire(&self) -> Seq<u8> {
        Seq::<u8>::empty()
            + u64_le(self.session_id)
            + u64_le(self.display_id)
            + u64_le(self.adapter_luid)
            + u32_le(self.lease_timeout_ms)
            + u32_le(self.bit_depth)
            + u32_le(self.hdr)
            + u32_le(self.edid_serial)
            + u32_le(self.flags)
            + u32_le(self.mode_count)
            + mode_specs_wire(self.modes@)
            + u32_le(self.physical_width_mm)
            + u32_le(self.physical_height_mm)
            + u16s_le(self.friendly_name@)
            + u32_le(self.max_nits)
            + u32_le(self.reserved0)
    }

    /// What the front of a buffer says, if the buffer is long enough.
    pub open spec fn decoded(bytes: Seq<u8>) -> Option<CreateMonitorRequest> {
        if bytes.len() >= CREATE_MONITOR_REQUEST_SIZE {
            Some(choose|x: CreateMonitorRequest| x.wire() == bytes.take(CREATE_MONITOR_REQUEST_SIZE as int))
        } else {
            None
        }
    }

    pub fn to_bytes(&self) -> (r: Vec<u8>)
        ensures
            r@ == self.wire(),
            r@.len() == CREATE_MONITOR_REQUEST_SIZE,
    {
        let mut out: Vec<u8> = Vec::new();
        put_u64(&mut out, self.session_id);
        put_u64(&mut out, self.display_id);
        put_u64(&mut out, self.adapter_luid);
        put_u32(&mut out, self.lease_timeout_ms);
        put_u32(&mut out, self.bit_depth);
        put_u32(&mut out, self.hdr);
        put_u32(&mut out, self.edid_serial);
        put_u32(&mut out, self.flags);
        put_u32(&mut out, self.mode_count);
        put_mode_specs(&mut out, self.modes.as_slice());
        put_u32(&mut out, self.physical_width_mm);
        put_u32(&mut out, self.physical_height_mm);
        put_u16s(&mut out, self.friendly_name.as_slice());
        put_u32(&mut out, self.max_nits);
        put_u32(&mut out, self.reserved0);
        proof {
            lemma_mode_specs_wire_len(self.modes@);
            lemma_u16s_le_len(self.friendly_name@);
        }
        out
    }

    /// Decode from the front of a buffer. Longer buffers are fine, shorter
    /// ones are refused.
    pub fn from_bytes(bytes: &[u8]) -> (v: Option<CreateMonitorRequest>)
        ensures
            v is Some <==> bytes@.len() >= CREATE_MONITOR_REQUEST_SIZE,
            v matches Some(x) ==> x.wire() == bytes@.take(CREATE_MONITOR_REQUEST_SIZE as int),
            v == CreateMonitorRequest::decoded(bytes@),
    {
        let mut r = Reader::new(bytes);
        let session_id: u64 = r.u64()?;
        let display_id: u64 = r.u64()?;
        let adapter_luid: u64 = r.u64()?;
        let lease_timeout_ms: u32 = r.u32()?;
        let bit_depth: u32 = r.u32()?;
        let hdr: u32 = r.u32()?;
        let edid_serial: u32 = r.u32()?;
        let flags: u32 = r.u32()?;
        let mode_count: u32 = r.u32()?;
        let modes: [ModeSpec; 4] = read_mode_specs::<4>(&mut r)?;
        let physical_width_mm: u32 = r.u32()?;
        let physical_height_mm: u32 = r.u32()?;
        let friendly_name: [u16; 32] = r.u16s::<32>()?;
        let max_nits: u32 = r.u32()?;
        let reserved0: u32 = r.u32()?;
        let v = CreateMonitorRequest {
            session_id, display_id, adapter_luid, lease_timeout_ms, bit_depth, hdr, edid_serial,
            flags, mode_count, modes, physical_width_mm, physical_height_mm, friendly_name,
            max_nits, reserved0,
        };
        proof {
            assert(v.wire() == bytes@.take(CREATE_MONITOR_REQUEST_SIZE as int));
            law_create_monitor_request_round_trip(v, CreateMonitorRequest::decoded(bytes@)->0);
        }
        Some(v)
    }
}

/// An encoded [`CreateMonitorRequest`] determines the value: decoding what was encoded gives
/// it back unchanged.
pub proof fn law_create_monitor_request_round_trip(a: CreateMonitorRequest, b: CreateMonitorRequest)
    requires
        a.wire() == b.wire(),
    ensures
        a == b,
{
    let a0 = Seq::<u8>::empty();
    let a1 = a0 + u64_le(a.session_id);
    let a2 = a1 + u64_le(a.display_id);
    let a3 = a2 + u64_le(a.adapter_luid);
    let a4 = a3 + u32_le(a.lease_timeout_ms);
    let a5 = a4 + u32_le(a.bit_depth);
    let a6 = a5 + u32_le(a.hdr);
    let a7 = a6 + u32_le(a.edid_serial);
    let a8 = a7 + u32_le(a.flags);
    let a9 = a8 + u32_le(a.mode_count);
    let a10 = a9 + mode_specs_wire(a.modes@);
    let a11 = a10 + u32_le(a.physical_width_mm);
    let a12 = a11 + u32_le(a.physical_height_mm);
    let a13 = a12 + u16s_le(a.friendly_name@);
    let a14 = a13 + u32_le(a.max_nits);
    let b0 = Seq::<u8>::empty();
    let b1 = b0 + u64_le(b.session_id);
    let b2 = b1 + u64_le(b.display_id);
    let b3 = b2 + u64_le(b.adapter_luid);
    let b4 = b3 + u32_le(b.lease_timeout_ms);
    let b5 = b4 + u32_le(b.bit_depth);
    let b6 = b5 + u32_le(b.hdr);
    let b7 = b6 + u32_le(b.edid_serial);
    let b8 = b7 + u32_le(b.flags);
    let b9 = b8 + u32_le(b.mode_count);
    let b10 = b9 + mode_specs_wire(b.modes@);
    let b11 = b10 + u32_le(b.physical_width_mm);
    let b12 = b11 + u32_le(b.physical_height_mm);
    let b13 = b12 + u16s_le(b.friendly_name@);
    let b14 = b13 + u32_le(b.max_nits);
    lemma_peel(a14, u32_le(a.reserved0), b14, u32_le(b.reserved0));
    lemma_u32_le_injective(a.reserved0, b.reserved0);
    lemma_peel(a13, u32_le(a.max_nits), b13, u32_le(b.max_nits));
    lemma_u32_le_injective(a.max_nits, b.max_nits);
    lemma_u16s_le_len(a.friendly_name@);
    lemma_u16s_le_len(b.friendly_name@);
    lemma_peel(a12, u16s_le(a.friendly_name@), b12, u16s_le(b.friendly_name@));
    lemma_u16s_le_injective(a.friendly_name@, b.friendly_name@);
    assert(a.friendly_name =~= b.friendly_name);
    lemma_peel(a11, u32_le(a.physical_height_mm), b11, u32_le(b.physical_height_mm));
    lemma_u32_le_injective(a.physical_height_mm, b.physical_height_mm);
    lemma_peel(a10, u32_le(a.physical_width_mm), b10, u32_le(b.physical_width_mm));
    lemma_u32_le_injective(a.physical_width_mm, b.physical_width_mm);
    lemma_mode_specs_wire_len(a.modes@);
    lemma_mode_specs_wire_len(b.modes@);
    lemma_peel(a9, mode_specs_wire(a.modes@), b9, mode_specs_wire(b.modes@));
    lemma_mode_specs_wire_injective(a.modes@, b.modes@);
    assert(a.modes =~= b.modes);
    lemma_peel(a8, u32_le(a.mode_count), b8, u32_le(b.mode_count));
    lemma_u32_le_injective(a.mode_count, b.mode_count);
    lemma_peel(a7, u32_le(a.flags), b7, u32_le(b.flags));
    lemma_u32_le_injective(a.flags, b.flags);
    lemma_peel(a6, u32_le(a.edid_serial), b6, u32_le(b.edid_serial));
    lemma_u32_le_injective(a.edid_serial, b.edid_serial);
    lemma_peel(a5, u32_le(a.hdr), b5, u32_le(b.hdr));
    lemma_u32_le_injective(a.hdr, b.hdr);
    lemma_peel(a4, u32_le(a.bit_depth), b4, u32_le(b.bit_depth));
    lemma_u32_le_injective(a.bit_depth, b.bit_depth);
    lemma_peel(a3, u32_le(a.lease_timeout_ms), b3, u32_le(b.lease_timeout_ms));
    lemma_u32_le_injective(a.lease_timeout_ms, b.lease_timeout_ms);
    lemma_peel(a2, u64_le(a.adapter_luid), b2, u64_le(b.adapter_luid));
    lemma_u64_le_injective(a.adapter_luid, b.adapter_luid);
    lemma_peel(a1, u64_le(a.display_id), b1, u64_le(b.display_id));
    lemma_u64_le_injective(a.display_id, b.display_id);
    lemma_peel(a0, u64_le(a.session_id), b0, u64_le(b.session_id));
    lemma_u64_le_injective(a.session_id, b.session_id);
}

/// Bytes of an encoded [`CreateMonitorReply`].
pub const CREATE_MONITOR_REPLY_SIZE: usize = 160;

/// Outcome of a create. On an error every field but `session_id` and `result` is
/// zero.
#[derive(Clone, Copy, Debug, PartialEq, Eq)]
pub struct CreateMonitorReply {
    pub session_id: u64,
    /// The effective identity.
    pub display_id: u64,
    /// `err::OK` or a negative `err::*` code.
    pub result: i32,
    /// Number of slots in the ring.
    pub ring_slots: u32,
    /// The connector this identity is attached to.
    pub connector_index: u32,
    pub reserved: u32,
    /// Name of the shared ring section, NUL-padded UTF-16.
    pub ring_section_name: [u16; 64],
}

impl CreateMonitorReply {
    /// The encoding: every field in declaration order, without padding.
    pub open spec fn wire(&self) -> Seq<u8> {
        Seq::<u8>::empty()
            + u64_le(self.session_id)
            + u64_le(self.display_id)
            + i32_le(self.result)
            + u32_le(self.ring_slots)
            + u32_le(self.connector_index)
            + u32_le(self.reserved)
            + u16s_le(self.ring_section_name@)
    }

    /// What the front of a buffer says, if the buffer is long enough.
    pub open spec fn decoded(bytes: Seq<u8>) -> Option<CreateMonitorReply> {
        if bytes.len() >= CREATE_MONITOR_REPLY_SIZE {
            Some(choose|x: CreateMonitorReply| x.wire() == bytes.take(CREATE_MONITOR_REPLY_SIZE as int))
        } else {
            None
        }
    }

    pub fn to_bytes(&self) -> (r: Vec<u8>)
        ensures
            r@ == self.wire(),
            r@.len() == CREATE_MONITOR_REPLY_SIZE,
    {
        let mut out: Vec<u8> = Vec::new();
        put_u64(&mut out, self.session_id);
        put_u64(&mut out, self.display_id);
        put_i32(&mut out, self.result);
        put_u32(&mut out, self.ring_slots);
        put_u32(&mut out, self.connector_index);
        put_u32(&mut out, self.reserved);
        put_u16s(&mut out, self.ring_section_name.as_slice());
        proof {
            lemma_u16s_le_len(self.ring_section_name@);
        }
        out
    }

    /// Decode from the front of a buffer. Longer buffers are fine, shorter
    /// ones are refused.
    pub fn from_bytes(bytes: &[u8]) -> (v: Option<CreateMonitorReply>)
        ensures
            v is Some <==> bytes@.len() >= CREATE_MONITOR_REPLY_SIZE,
            v matches Some(x) ==> x.wire() == bytes@.take(CREATE_MONITOR_REPLY_SIZE as int),
            v == CreateMonitorReply::decoded(bytes@),
    {
        let mut r = Reader::new(bytes);
        let session_id: u64 = r.u64()?;
        let display_id: u64 = r.u64()?;
        let result: i32 = r.i32()?;
        let ring_slots: u32 = r.u32()?;
        let connector_index: u32 = r.u32()?;
        let reserved: u32 = r.u32()?;
        let ring_section_name: [u16; 64] = r.u16s::<64>()?;
        let v = CreateMonitorReply {
            session_id, display_id, result, ring_slots, connector_index, reserved,
            ring_section_name,
        };
        proof {
            assert(v.wire() == bytes@.take(CREATE_MONITOR_REPLY_SIZE as int));
            law_create_monitor_reply_round_trip(v, CreateMonitorReply::decoded(bytes@)->0);
        }
        Some(v)
    }
}

/// An encoded [`CreateMonitorReply`] determines the value: decoding what was encoded gives
/// it back unchanged.
pub proof fn law_create_monitor_reply_round_trip(a: CreateMonitorReply, b: CreateMonitorReply)
    requires
        a.wire() == b.wire(),
    ensures
        a == b,
{
    let a0 = Seq::<u8>::empty();
    let a1 = a0 + u64_le(a.session_id);
    let a2 = a1 + u64_le(a.display_id);
    let a3 = a2 + i32_le(a.result);
    let a4 = a3 + u32_le(a.ring_slots);
    let a5 = a4 + u32_le(a.connector_index);
    let a6 = a5 + u32_le(a.reserved);
    let b0 = Seq::<u8>::empty();
    let b1 = b0 + u64_le(b.session_id);
    let b2 = b1 + u64_le(b.display_id);
    let b3 = b2 + i32_le(b.result);
    let b4 = b3 + u32_le(b.ring_slots);
    let b5 = b4 + u32_le(b.connector_index);
    let b6 = b5 + u32_le(b.reserved);
    lemma_u16s_le_len(a.ring_section_name@);
    lemma_u16s_le_len(b.ring_section_name@);
    lemma_peel(a6, u16s_le(a.ring_section_name@), b6, u16s_le(b.ring_section_name@));
    lemma_u16s_le_injective(a.ring_section_name@, b.ring_section_name@);
    assert(a.ring_section_name =~= b.ring_section_name);
    lemma_peel(a5, u32_le(a.reserved), b5, u32_le(b.reserved));
    lemma_u32_le_injective(a.reserved, b.reserved);
    lemma_peel(a4, u32_le(a.connector_index), b4, u32_le(b.connector_index));
    lemma_u32_le_injective(a.connector_index, b.connector_index);
    lemma_peel(a3, u32_le(a.ring_slots), b3, u32_le(b.ring_slots));
    lemma_u32_le_injective(a.ring_slots, b.ring_slots);
    lemma_peel(a2, i32_le(a.result), b2, i32_le(b.result));
    lemma_i32_le_injective(a.result, b.result);
    lemma_peel(a1, u64_le(a.display_id), b1, u64_le(b.display_id));
    lemma_u64_le_injective(a.display_id, b.display_id);
    lemma_peel(a0, u64_le(a.session_id), b0, u64_le(b.session_id));
    lemma_u64_le_injective(a.session_id, b.session_id);
}

/// Bytes of an encoded [`DestroyMonitorRequest`].
pub const DESTROY_MONITOR_REQUEST_SIZE: usize = 8;

/// End a lease.
#[derive(Clone, Copy, Debug, PartialEq, Eq)]
pub struct DestroyMonitorRequest {
    pub session_id: u64,
}

impl DestroyMonitorRequest {
    /// The encoding: every field in declaration order, without padding.
    pub open spec fn wire(&self) -> Seq<u8> {
        Seq::<u8>::empty()
            + u64_le(self.session_id)
    }

    /// What the front of a buffer says, if the buffer is long enough.
    pub open spec fn decoded(bytes: Seq<u8>) -> Option<DestroyMonitorRequest> {
        if bytes.len() >= DESTROY_MONITOR_REQUEST_SIZE {
            Some(choose|x: DestroyMonitorRequest| x.wire() == bytes.take(DESTROY_MONITOR_REQUEST_SIZE as int))
        } else {
            None
        }
    }

    pub fn to_bytes(&self) -> (r: Vec<u8>)
        ensures
            r@ == self.wire(),
            r@.len() == DESTROY_MONITOR_REQUEST_SIZE,
    {
        let mut out: Vec<u8> = Vec::new();
        put_u64(&mut out, self.session_id);
        out
    }

    /// Decode from the front of a buffer. Longer buffers are fine, shorter
    /// ones are refused.
    pub fn from_bytes(bytes: &[u8]) -> (v: Option<DestroyMonitorRequest>)
        ensures
            v is Some <==> bytes@.len() >= DESTROY_MONITOR_REQUEST_SIZE,
            v matches Some(x) ==> x.wire() == bytes@.take(DESTROY_MONITOR_REQUEST_SIZE as int),
            v == DestroyMonitorRequest::decoded(bytes@),
    {
        let mut r = Reader::new(bytes);
        let session_id: u64 = r.u64()?;
        let v = DestroyMonitorRequest {
            session_id,
        };
        proof {
            assert(v.wire() == bytes@.take(DESTROY_MONITOR_REQUEST_SIZE as int));
            law_destroy_monitor_request_round_trip(v, DestroyMonitorRequest::decoded(bytes@)->0);
        }
        Some(v)
    }
}

/// An encoded [`DestroyMonitorRequest`] determines the value: decoding what was encoded gives
/// it back unchanged.
pub proof fn law_destroy_monitor_request_round_trip(a: DestroyMonitorRequest, b: DestroyMonitorRequest)
    requires
        a.wire() == b.wire(),
    ensures
        a == b,
{
    let a0 = Seq::<u8>::empty();
    let b0 = Seq::<u8>::empty();
    lemma_peel(a0, u64_le(a.session_id), b0, u64_le(b.session_id));
    lemma_u64_le_injective(a.session_id, b.session_id);
}

/// Bytes of an encoded [`PingRequest`].
pub const PING_REQUEST_SIZE: usize = 8;

/// Feed a lease.
#[derive(Clone, Copy, Debug, PartialEq, Eq)]
pub struct PingRequest {
    pub session_id: u64,
}

impl PingRequest {
    /// The encoding: every field in declaration order, without padding.
    pub open spec fn wire(&self) -> Seq<u8> {
        Seq::<u8>::empty()
            + u64_le(self.session_id)
    }

    /// What the front of a buffer says, if the buffer is long enough.
    pub open spec fn decoded(bytes: Seq<u8>) -> Option<PingRequest> {
        if bytes.len() >= PING_REQUEST_SIZE {
            Some(choose|x: PingRequest| x.wire() == bytes.take(PING_REQUEST_SIZE as int))
        } else {
            None
        }
    }

    pub fn to_bytes(&self) -> (r: Vec<u8>)
        ensures
            r@ == self.wire(),
            r@.len() == PING_REQUEST_SIZE,
    {
        let mut out: Vec<u8> = Vec::new();
        put_u64(&mut out, self.session_id);
        out
    }

    /// Decode from the front of a buffer. Longer buffers are fine, shorter
    /// ones are refused.
    pub fn from_bytes(bytes: &[u8]) -> (v: Option<PingRequest>)
        ensures
            v is Some <==> bytes@.len() >= PING_REQUEST_SIZE,
            v matches Some(x) ==> x.wire() == bytes@.take(PING_REQUEST_SIZE as int),
            v == PingRequest::decoded(bytes@),
    {
        let mut r = Reader::new(bytes);
        let session_id: u64 = r.u64()?;
        let v = PingRequest {
            session_id,
        };
        proof {
            assert(v.wire() == bytes@.take(PING_REQUEST_SIZE as int));
            law_ping_request_round_trip(v, PingRequest::decoded(bytes@)->0);
        }
        Some(v)
    }
}

/// An encoded [`PingRequest`] determines the value: decoding what was encoded gives
/// it back unchanged.
pub proof fn law_ping_request_round_trip(a: PingRequest, b: PingRequest)
    requires
        a.wire() == b.wire(),
    ensures
        a == b,
{
    let a0 = Seq::<u8>::empty();
    let b0 = Seq::<u8>::empty();
    lemma_peel(a0, u64_le(a.session_id), b0, u64_le(b.session_id));
    lemma_u64_le_injective(a.session_id, b.session_id);
}

/// Bytes of an encoded [`SetRenderAdapterRequest`].
pub const SET_RENDER_ADAPTER_REQUEST_SIZE: usize = 8;

/// Set the device-wide preferred adapter for creates that name none; 0 clears it.
#[derive(Clone, Copy, Debug, PartialEq, Eq)]
pub struct SetRenderAdapterRequest {
    pub adapter_luid: u64,
}

impl SetRenderAdapterRequest {
    /// The encoding: every field in declaration order, without padding.
    pub open spec fn wire(&self) -> Seq<u8> {
        Seq::<u8>::empty()
            + u64_le(self.adapter_luid)
    }

    /// What the front of a buffer says, if the buffer is long enough.
    pub open spec fn decoded(bytes: Seq<u8>) -> Option<SetRenderAdapterRequest> {
        if bytes.len() >= SET_RENDER_ADAPTER_REQUEST_SIZE {
            Some(choose|x: SetRenderAdapterRequest| x.wire() == bytes.take(SET_RENDER_ADAPTER_REQUEST_SIZE as int))
        } else {
            None
        }
    }

    pub fn to_bytes(&self) -> (r: Vec<u8>)
        ensures
            r@ == self.wire(),
            r@.len() == SET_RENDER_ADAPTER_REQUEST_SIZE,
    {
        let mut out: Vec<u8> = Vec::new();
        put_u64(&mut out, self.adapter_luid);
        out
    }

    /// Decode from the front of a buffer. Longer buffers are fine, shorter
    /// ones are refused.
    pub fn from_bytes(bytes: &[u8]) -> (v: Option<SetRenderAdapterRequest>)
        ensures
            v is Some <==> bytes@.len() >= SET_RENDER_ADAPTER_REQUEST_SIZE,
            v matches Some(x) ==> x.wire() == bytes@.take(SET_RENDER_ADAPTER_REQUEST_SIZE as int),
            v == SetRenderAdapterRequest::decoded(bytes@),
    {
        let mut r = Reader::new(bytes);
        let adapter_luid: u64 = r.u64()?;
        let v = SetRenderAdapterRequest {
            adapter_luid,
        };
        proof {
            assert(v.wire() == bytes@.take(SET_RENDER_ADAPTER_REQUEST_SIZE as int));
            law_set_render_adapter_request_round_trip(v, SetRenderAdapterRequest::decoded(bytes@)->0);
        }
        Some(v)
    }
}

/// An encoded [`SetRenderAdapterRequest`] determines the value: decoding what was encoded gives
/// it back unchanged.
pub proof fn law_set_render_adapter_request_round_trip(a: SetRenderAdapterRequest, b: SetRenderAdapterRequest)
    requires
        a.wire() == b.wire(),
    ensures
        a == b,
{
    let a0 = Seq::<u8>::empty();
    let b0 = Seq::<u8>::empty();
    lemma_peel(a0, u64_le(a.adapter_luid), b0, u64_le(b.adapter_luid));
    lemma_u64_le_injective(a.adapter_luid, b.adapter_luid);
}

/// Bytes of an encoded [`QueryLeaseRequest`].
pub const QUERY_LEASE_REQUEST_SIZE: usize = 8;

/// Ask how long a lease still runs.
#[derive(Clone, Copy, Debug, PartialEq, Eq)]
pub struct QueryLeaseRequest {
    pub session_id: u64,
}

impl QueryLeaseRequest {
    /// The encoding: every field in declaration order, without padding.
    pub open spec fn wire(&self) -> Seq<u8> {
        Seq::<u8>::empty()
            + u64_le(self.session_id)
    }

    /// What the front of a buffer says, if the buffer is long enough.
    pub open spec fn decoded(bytes: Seq<u8>) -> Option<QueryLeaseRequest> {
        if bytes.len() >= QUERY_LEASE_REQUEST_SIZE {
            Some(choose|x: QueryLeaseRequest| x.wire() == bytes.take(QUERY_LEASE_REQUEST_SIZE as int))
        } else {
            None
        }
    }

    pub fn to_bytes(&self) -> (r: Vec<u8>)
        ensures
            r@ == self.wire(),
            r@.len() == QUERY_LEASE_REQUEST_SIZE,
    {
        let mut out: Vec<u8> = Vec::new();
        put_u64(&mut out, self.session_id);
        out
    }

    /// Decode from the front of a buffer. Longer buffers are fine, shorter
    /// ones are refused.
    pub fn from_bytes(bytes: &[u8]) -> (v: Option<QueryLeaseRequest>)
        ensures
            v is Some <==> bytes@.len() >= QUERY_LEASE_REQUEST_SIZE,
            v matches Some(x) ==> x.wire() == bytes@.take(QUERY_LEASE_REQUEST_SIZE as int),
            v == QueryLeaseRequest::decoded(bytes@),
    {
        let mut r = Reader::new(bytes);
        let session_id: u64 = r.u64()?;
        let v = QueryLeaseRequest {
            session_id,
        };
        proof {
            assert(v.wire() == bytes@.take(QUERY_LEASE_REQUEST_SIZE as int));
            law_query_lease_request_round_trip(v, QueryLeaseRequest::decoded(bytes@)->0);
        }
        Some(v)
    }
}

/// An encoded [`QueryLeaseRequest`] determines the value: decoding what was encoded gives
/// it back unchanged.
pub proof fn law_query_lease_request_round_trip(a: QueryLeaseRequest, b: QueryLeaseRequest)
    requires
        a.wire() == b.wire(),
    ensures
        a == b,
{
    let a0 = Seq::<u8>::empty();
    let b0 = Seq::<u8>::empty();
    lemma_peel(a0, u64_le(a.session_id), b0, u64_le(b.session_id));
    lemma_u64_le_injective(a.session_id, b.session_id);
}

/// Bytes of an encoded [`QueryLeaseReply`].
pub const QUERY_LEASE_REPLY_SIZE: usize = 32;

/// What a lease holds.
#[derive(Clone, Copy, Debug, PartialEq, Eq)]
pub struct QueryLeaseReply {
    pub session_id: u64,
    pub display_id: u64,
    /// Milliseconds until the watchdog reaps the monitor if no ping arrives;
    /// `u32::MAX` when the lease never expires.
    pub remaining_ms: u32,
    pub connector_index: u32,
    pub result: i32,
    pub reserved: u32,
}

impl QueryLeaseReply {
    /// The encoding: every field in declaration order, without padding.
    pub open spec fn wire(&self) -> Seq<u8> {
        Seq::<u8>::empty()
            + u64_le(self.session_id)
            + u64_le(self.display_id)
            + u32_le(self.remaining_ms)
            + u32_le(self.connector_index)
            + i32_le(self.result)
            + u32_le(self.reserved)
    }

    /// What the front of a buffer says, if the buffer is long enough.
    pub open spec fn decoded(bytes: Seq<u8>) -> Option<QueryLeaseReply> {
        if bytes.len() >= QUERY_LEASE_REPLY_SIZE {
            Some(choose|x: QueryLeaseReply| x.wire() == bytes.take(QUERY_LEASE_REPLY_SIZE as int))
        } else {
            None
        }
    }

    pub fn to_bytes(&self) -> (r: Vec<u8>)
        ensures
            r@ == self.wire(),
            r@.len() == QUERY_LEASE_REPLY_SIZE,
    {
        let mut out: Vec<u8> = Vec::new();
        put_u64(&mut out, self.session_id);
        put_u64(&mut out, self.display_id);
        put_u32(&mut out, self.remaining_ms);
        put_u32(&mut out, self.connector_index);
        put_i32(&mut out, self.result);
        put_u32(&mut out, self.reserved);
        out
    }

    /// Decode from the front of a buffer. Longer buffers are fine, shorter
    /// ones are refused.
    pub fn from_bytes(bytes: &[u8]) -> (v: Option<QueryLeaseReply>)
        ensures
            v is Some <==> bytes@.len() >= QUERY_LEASE_REPLY_SIZE,
            v matches Some(x) ==> x.wire() == bytes@.take(QUERY_LEASE_REPLY_SIZE as int),
            v == QueryLeaseReply::decoded(bytes@),
    {
        let mut r = Reader::new(bytes);
        let session_id: u64 = r.u64()?;
        let display_id: u64 = r.u64()?;
        let remaining_ms: u32 = r.u32()?;
        let connector_index: u32 = r.u32()?;
        let result: i32 = r.i32()?;
        let reserved: u32 = r.u32()?;
        let v = QueryLeaseReply {
            session_id, display_id, remaining_ms, connector_index, result, reserved,
        };
        proof {
            assert(v.wire() == bytes@.take(QUERY_LEASE_REPLY_SIZE as int));
            law_query_lease_reply_round_trip(v, QueryLeaseReply::decoded(bytes@)->0);
        }
        Some(v)
    }
}

/// An encoded [`QueryLeaseReply`] determines the value: decoding what was encoded gives
/// it back unchanged.
pub proof fn law_query_lease_reply_round_trip(a: QueryLeaseReply, b: QueryLeaseReply)
    requires
        a.wire() == b.wire(),
    ensures
        a == b,
{
    let a0 = Seq::<u8>::empty();
    let a1 = a0 + u64_le(a.session_id);
    let a2 = a1 + u64_le(a.display_id);
    let a3 = a2 + u32_le(a.remaining_ms);
    let a4 = a3 + u32_le(a.connector_index);
    let a5 = a4 + i32_le(a.result);
    let b0 = Seq::<u8>::empty();
    let b1 = b0 + u64_le(b.session_id);
    let b2 = b1 + u64_le(b.display_id);
    let b3 = b2 + u32_le(b.remaining_ms);
    let b4 = b3 + u32_le(b.connector_index);
    let b5 = b4 + i32_le(b.result);
    lemma_peel(a5, u32_le(a.reserved), b5, u32_le(b.reserved));
    lemma_u32_le_injective(a.reserved, b.reserved);
    lemma_peel(a4, i32_le(a.result), b4, i32_le(b.result));
    lemma_i32_le_injective(a.result, b.result);
    lemma_peel(a3, u32_le(a.connector_index), b3, u32_le(b.connector_index));
    lemma_u32_le_injective(a.connector_index, b.connector_index);
    lemma_peel(a2, u32_le(a.remaining_ms), b2, u32_le(b.remaining_ms));
    lemma_u32_le_injective(a.remaining_ms, b.remaining_ms);
    lemma_peel(a1, u64_le(a.display_id), b1, u64_le(b.display_id));
    lemma_u64_le_injective(a.display_id, b.display_id);
    lemma_peel(a0, u64_le(a.session_id), b0, u64_le(b.session_id));
    lemma_u64_le_injective(a.session_id, b.session_id);
}

/// Bytes of an encoded [`PermanentPoolConfig`].
pub const PERMANENT_POOL_CONFIG_SIZE: usize = 96;

/// Permanent-display pool: `count` identical displays that exist outside any
/// streaming session and survive driver restarts.
#[derive(Clone, Copy, Debug, PartialEq, Eq)]
pub struct PermanentPoolConfig {
    /// 0 disbands the pool.
    pub count: u32,
    pub width: u32,
    pub height: u32,
    pub refresh_millihz: u32,
    pub bit_depth: u32,
    pub hdr: u32,
    pub physical_width_mm: u32,
    pub physical_height_mm: u32,
    /// NUL-padded UTF-16.
    pub name: [u16; 32],
}

impl PermanentPoolConfig {
    /// The encoding: every field in declaration order, without padding.
    pub open spec fn wire(&self) -> Seq<u8> {
        Seq::<u8>::empty()
            + u32_le(self.count)
            + u32_le(self.width)
            + u32_le(self.height)
            + u32_le(self.refresh_millihz)
            + u32_le(self.bit_depth)
            + u32_le(self.hdr)
            + u32_le(self.physical_width_mm)
            + u32_le(self.physical_height_mm)
            + u16s_le(self.name@)
    }

    /// What the front of a buffer says, if the buffer is long enough.
    pub open spec fn decoded(bytes: Seq<u8>) -> Option<PermanentPoolConfig> {
        if bytes.len() >= PERMANENT_POOL_CONFIG_SIZE {
            Some(choose|x: PermanentPoolConfig| x.wire() == bytes.take(PERMANENT_POOL_CONFIG_SIZE as int))
        } else {
            None
        }
    }

    pub proof fn lemma_wire_len(&self)
        ensures
            self.wire().len() == PERMANENT_POOL_CONFIG_SIZE,
    {
        lemma_u16s_le_len(self.name@);
    }

    pub fn to_bytes(&self) -> (r: Vec<u8>)
        ensures
            r@ == self.wire(),
            r@.len() == PERMANENT_POOL_CONFIG_SIZE,
    {
        let mut out: Vec<u8> = Vec::new();
        put_u32(&mut out, self.count);
        put_u32(&mut out, self.width);
        put_u32(&mut out, self.height);
        put_u32(&mut out, self.refresh_millihz);
        put_u32(&mut out, self.bit_depth);
        put_u32(&mut out, self.hdr);
        put_u32(&mut out, self.physical_width_mm);
        put_u32(&mut out, self.physical_height_mm);
        put_u16s(&mut out, self.name.as_slice());
        proof {
            self.lemma_wire_len();
        }
        out
    }

    /// Decode from the front of a buffer. Longer buffers are fine, shorter
    /// ones are refused.
    pub fn from_bytes(bytes: &[u8]) -> (v: Option<PermanentPoolConfig>)
        ensures
            v is Some <==> bytes@.len() >= PERMANENT_POOL_CONFIG_SIZE,
            v matches Some(x) ==> x.wire() == bytes@.take(PERMANENT_POOL_CONFIG_SIZE as int),
            v == PermanentPoolConfig::decoded(bytes@),
    {
        let mut r = Reader::new(bytes);
        let count: u32 = r.u32()?;
        let width: u32 = r.u32()?;
        let height: u32 = r.u32()?;
        let refresh_millihz: u32 = r.u32()?;
        let bit_depth: u32 = r.u32()?;
        let hdr: u32 = r.u32()?;
        let physical_width_mm: u32 = r.u32()?;
        let physical_height_mm: u32 = r.u32()?;
        let name: [u16; 32] = r.u16s::<32>()?;
        let v = PermanentPoolConfig {
            count, width, height, refresh_millihz, bit_depth, hdr, physical_width_mm,
            physical_height_mm, name,
        };
        proof {
            assert(v.wire() == bytes@.take(PERMANENT_POOL_CONFIG_SIZE as int));
            law_permanent_pool_config_round_trip(v, PermanentPoolConfig::decoded(bytes@)->0);
        }
        Some(v)
    }
}

/// An encoded [`PermanentPoolConfig`] determines the value: decoding what was encoded gives
/// it back unchanged.
pub proof fn law_permanent_pool_config_round_trip(a: PermanentPoolConfig, b: PermanentPoolConfig)
    requires
        a.wire() == b.wire(),
    ensures
        a == b,
{
    let a0 = Seq::<u8>::empty();
    let a1 = a0 + u32_le(a.count);
    let a2 = a1 + u32_le(a.width);
    let a3 = a2 + u32_le(a.height);
    let a4 = a3 + u32_le(a.refresh_millihz);
    let a5 = a4 + u32_le(a.bit_depth);
    let a6 = a5 + u32_le(a.hdr);
    let a7 = a6 + u32_le(a.physical_width_mm);
    let a8 = a7 + u32_le(a.physical_height_mm);
    let b0 = Seq::<u8>::empty();
    let b1 = b0 + u32_le(b.count);
    let b2 = b1 + u32_le(b.width);
    let b3 = b2 + u32_le(b.height);
    let b4 = b3 + u32_le(b.refresh_millihz);
    let b5 = b4 + u32_le(b.bit_depth);
    let b6 = b5 + u32_le(b.hdr);
    let b7 = b6 + u32_le(b.physical_width_mm);
    let b8 = b7 + u32_le(b.physical_height_mm);
    lemma_u16s_le_len(a.name@);
    lemma_u16s_le_len(b.name@);
    lemma_peel(a8, u16s_le(a.name@), b8, u16s_le(b.name@));
    lemma_u16s_le_injective(a.name@, b.name@);
    assert(a.name =~= b.name);
    lemma_peel(a7, u32_le(a.physical_height_mm), b7, u32_le(b.physical_height_mm));
    lemma_u32_le_injective(a.physical_height_mm, b.physical_height_mm);
    lemma_peel(a6, u32_le(a.physical_width_mm), b6, u32_le(b.physical_width_mm));
    lemma_u32_le_injective(a.physical_width_mm, b.physical_width_mm);
    lemma_peel(a5, u32_le(a.hdr), b5, u32_le(b.hdr));
    lemma_u32_le_injective(a.hdr, b.hdr);
    lemma_peel(a4, u32_le(a.bit_depth), b4, u32_le(b.bit_depth));
    lemma_u32_le_injective(a.bit_depth, b.bit_depth);
    lemma_peel(a3, u32_le(a.refresh_millihz), b3, u32_le(b.refresh_millihz));
    lemma_u32_le_injective(a.refresh_millihz, b.refresh_millihz);
    lemma_peel(a2, u32_le(a.height), b2, u32_le(b.height));
    lemma_u32_le_injective(a.height, b.height);
    lemma_peel(a1, u32_le(a.width), b1, u32_le(b.width));
    lemma_u32_le_injective(a.width, b.width);
    lemma_peel(a0, u32_le(a.count), b0, u32_le(b.count));
    lemma_u32_le_injective(a.count, b.count);
}

/// Bytes of an encoded [`QueryPermanentPoolReply`].
pub const QUERY_PERMANENT_POOL_REPLY_SIZE: usize = 104;

/// The pool in force.
#[derive(Clone, Copy, Debug, PartialEq, Eq)]
pub struct QueryPermanentPoolReply {
    pub config: PermanentPoolConfig,
    pub result: i32,
    pub reserved: u32,
}

impl QueryPermanentPoolReply {
    /// The encoding: every field in declaration order, without padding.
    pub open spec fn wire(&self) -> Seq<u8> {
        Seq::<u8>::empty()
            + self.config.wire()
            + i32_le(self.result)
            + u32_le(self.reserved)
    }

    /// What the front of a buffer says, if the buffer is long enough.
    pub open spec fn decoded(bytes: Seq<u8>) -> Option<QueryPermanentPoolReply> {
        if bytes.len() >= QUERY_PERMANENT_POOL_REPLY_SIZE {
            Some(choose|x: QueryPermanentPoolReply| x.wire() == bytes.take(QUERY_PERMANENT_POOL_REPLY_SIZE as int))
        } else {
            None
        }
    }

    pub fn to_bytes(&self) -> (r: Vec<u8>)
        ensures
            r@ == self.wire(),
            r@.len() == QUERY_PERMANENT_POOL_REPLY_SIZE,
    {
        let mut out: Vec<u8> = Vec::new();
        put_bytes(&mut out, self.config.to_bytes().as_slice());
        put_i32(&mut out, self.result);
        put_u32(&mut out, self.reserved);
        proof {
            self.config.lemma_wire_len();
        }
        out
    }

    /// Decode from the front of a buffer. Longer buffers are fine, shorter
    /// ones are refused.
    pub fn from_bytes(bytes: &[u8]) -> (v: Option<QueryPermanentPoolReply>)
        ensures
            v is Some <==> bytes@.len() >= QUERY_PERMANENT_POOL_REPLY_SIZE,
            v matches Some(x) ==> x.wire() == bytes@.take(QUERY_PERMANENT_POOL_REPLY_SIZE as int),
            v == QueryPermanentPoolReply::decoded(bytes@),
    {
        let mut r = Reader::new(bytes);
        let config: PermanentPoolConfig = PermanentPoolConfig::from_bytes(r.bytes(PERMANENT_POOL_CONFIG_SIZE)?)?;
        let result: i32 = r.i32()?;
        let reserved: u32 = r.u32()?;
        let v = QueryPermanentPoolReply {
            config, result, reserved,
        };
        proof {
            assert(v.wire() == bytes@.take(QUERY_PERMANENT_POOL_REPLY_SIZE as int));
            law_query_permanent_pool_reply_round_trip(v, QueryPermanentPoolReply::decoded(bytes@)->0);
        }
        Some(v)
    }
}

/// An encoded [`QueryPermanentPoolReply`] determines the value: decoding what was encoded gives
/// it back unchanged.
pub proof fn law_query_permanent_pool_reply_round_trip(a: QueryPermanentPoolReply, b: QueryPermanentPoolReply)
    requires
        a.wire() == b.wire(),
    ensures
        a == b,
{
    let a0 = Seq::<u8>::empty();
    let a1 = a0 + a.config.wire();
    let a2 = a1 + i32_le(a.result);
    let b0 = Seq::<u8>::empty();
    let b1 = b0 + b.config.wire();
    let b2 = b1 + i32_le(b.result);
    lemma_peel(a2, u32_le(a.reserved), b2, u32_le(b.reserved));
    lemma_u32_le_injective(a.reserved, b.reserved);
    lemma_peel(a1, i32_le(a.result), b1, i32_le(b.result));
    lemma_i32_le_injective(a.result, b.result);
    a.config.lemma_wire_len();
    b.config.lemma_wire_len();
    lemma_peel(a0, a.config.wire(), b0, b.config.wire());
    law_permanent_pool_config_round_trip(a.config, b.config);
}

/// Bytes of an encoded [`UpdateModesRequest`].
pub const UPDATE_MODES_REQUEST_SIZE: usize = 80;

/// Replace the target-mode list of a live monitor.
#[derive(Clone, Copy, Debug, PartialEq, Eq)]
pub struct UpdateModesRequest {
    pub session_id: u64,
    /// Unknown bits are ignored.
    pub flags: u32,
    /// Number of valid entries in `modes`.
    pub mode_count: u32,
    pub modes: [ModeSpec; 4],
    pub reserved: [u32; 4],
}

impl UpdateModesRequest {
    /// The encoding: every field in declaration order, without padding.
    pub open spec fn wire(&self) -> Seq<u8> {
        Seq::<u8>::empty()
            + u64_le(self.session_id)
            + u32_le(self.flags)
            + u32_le(self.mode_count)
            + mode_specs_wire(self.modes@)
            + u32s_le(self.reserved@)
    }

    /// What the front of a buffer says, if the buffer is long enough.
    pub open spec fn decoded(bytes: Seq<u8>) -> Option<UpdateModesRequest> {
        if bytes.len() >= UPDATE_MODES_REQUEST_SIZE {
            Some(choose|x: UpdateModesRequest| x.wire() == bytes.take(UPDATE_MODES_REQUEST_SIZE as int))
        } else {
            None
        }
    }

    pub fn to_bytes(&self) -> (r: Vec<u8>)
        ensures
            r@ == self.wire(),
            r@.len() == UPDATE_MODES_REQUEST_SIZE,
    {
        let mut out: Vec<u8> = Vec::new();
        put_u64(&mut out, self.session_id);
        put_u32(&mut out, self.flags);
        put_u32(&mut out, self.mode_count);
        put_mode_specs(&mut out, self.modes.as_slice());
        put_u32s(&mut out, self.reserved.as_slice());
        proof {
            lemma_mode_specs_wire_len(self.modes@);
            lemma_u32s_le_len(self.reserved@);
        }
        out
    }

    /// Decode from the front of a buffer. Longer buffers are fine, shorter
    /// ones are refused.
    pub fn from_bytes(bytes: &[u8]) -> (v: Option<UpdateModesRequest>)
        ensures
            v is Some <==> bytes@.len() >= UPDATE_MODES_REQUEST_SIZE,
            v matches Some(x) ==> x.wire() == bytes@.take(UPDATE_MODES_REQUEST_SIZE as int),
            v == UpdateModesRequest::decoded(bytes@),
    {
        let mut r = Reader::new(bytes);
        let session_id: u64 = r.u64()?;
        let flags: u32 = r.u32()?;
        let mode_count: u32 = r.u32()?;
        let modes: [ModeSpec; 4] = read_mode_specs::<4>(&mut r)?;
        let reserved: [u32; 4] = r.u32s::<4>()?;
        let v = UpdateModesRequest {
            session_id, flags, mode_count, modes, reserved,
        };
        proof {
            assert(v.wire() == bytes@.take(UPDATE_MODES_REQUEST_SIZE as int));
            law_update_modes_request_round_trip(v, UpdateModesRequest::decoded(bytes@)->0);
        }
        Some(v)
    }
}

/// An encoded [`UpdateModesRequest`] determines the value: decoding what was encoded gives
/// it back unchanged.
pub proof fn law_update_modes_request_round_trip(a: UpdateModesRequest, b: UpdateModesRequest)
    requires
        a.wire() == b.wire(),
    ensures
        a == b,
{
    let a0 = Seq::<u8>::empty();
    let a1 = a0 + u64_le(a.session_id);
    let a2 = a1 + u32_le(a.flags);
    let a3 = a2 + u32_le(a.mode_count);
    let a4 = a3 + mode_specs_wire(a.modes@);
    let b0 = Seq::<u8>::empty();
    let b1 = b0 + u64_le(b.session_id);
    let b2 = b1 + u32_le(b.flags);
    let b3 = b2 + u32_le(b.mode_count);
    let b4 = b3 + mode_specs_wire(b.modes@);
    lemma_u32s_le_len(a.reserved@);
    lemma_u32s_le_len(b.reserved@);
    lemma_peel(a4, u32s_le(a.reserved@), b4, u32s_le(b.reserved@));
    lemma_u32s_le_injective(a.reserved@, b.reserved@);
    assert(a.reserved =~= b.reserved);
    lemma_mode_specs_wire_len(a.modes@);
    lemma_mode_specs_wire_len(b.modes@);
    lemma_peel(a3, mode_specs_wire(a.modes@), b3, mode_specs_wire(b.modes@));
    lemma_mode_specs_wire_injective(a.modes@, b.modes@);
    assert(a.modes =~= b.modes);
    lemma_peel(a2, u32_le(a.mode_count), b2, u32_le(b.mode_count));
    lemma_u32_le_injective(a.mode_count, b.mode_count);
    lemma_peel(a1, u32_le(a.flags), b1, u32_le(b.flags));
    lemma_u32_le_injective(a.flags, b.flags);
    lemma_peel(a0, u64_le(a.session_id), b0, u64_le(b.session_id));
    lemma_u64_le_injective(a.session_id, b.session_id);
}

/// Bytes of an encoded [`UpdateModesReply`].
pub const UPDATE_MODES_REPLY_SIZE: usize = 40;

/// Outcome of an update. The detail words are read and written through the methods.
#[derive(Clone, Copy, Debug, PartialEq, Eq)]
pub struct UpdateModesReply {
    pub session_id: u64,
    /// `err::OK` or a negative `err::*` code.
    pub result: i32,
    /// Number of target modes the list in question has.
    pub mode_count: u32,
    /// Requested modes the monitor describes.
    pub accepted_count: u32,
    /// Modes asked for.
    pub requested_count: u32,
    /// Bitmask of `update_status::*`.
    pub status_flags: u32,
    /// Requested modes the monitor does not describe.
    pub rejected_count: u32,
    /// Index of the first rejected mode, or `NO_REJECTED_INDEX`.
    pub first_rejected_index: u32,
    /// Create-time index of the mode that blocks the request.
    pub blocking_index: u32,
}

impl UpdateModesReply {
    /// The encoding: every field in declaration order, without padding.
    pub open spec fn wire(&self) -> Seq<u8> {
        Seq::<u8>::empty()
            + u64_le(self.session_id)
            + i32_le(self.result)
            + u32_le(self.mode_count)
            + u32_le(self.accepted_count)
            + u32_le(self.requested_count)
            + u32_le(self.status_flags)
            + u32_le(self.rejected_count)
            + u32_le(self.first_rejected_index)
            + u32_le(self.blocking_index)
    }

    /// What the front of a buffer says, if the buffer is long enough.
    pub open spec fn decoded(bytes: Seq<u8>) -> Option<UpdateModesReply> {
        if bytes.len() >= UPDATE_MODES_REPLY_SIZE {
            Some(choose|x: UpdateModesReply| x.wire() == bytes.take(UPDATE_MODES_REPLY_SIZE as int))
        } else {
            None
        }
    }

    pub fn to_bytes(&self) -> (r: Vec<u8>)
        ensures
            r@ == self.wire(),
            r@.len() == UPDATE_MODES_REPLY_SIZE,
    {
        let mut out: Vec<u8> = Vec::new();
        put_u64(&mut out, self.session_id);
        put_i32(&mut out, self.result);
        put_u32(&mut out, self.mode_count);
        put_u32(&mut out, self.accepted_count);
        put_u32(&mut out, self.requested_count);
        put_u32(&mut out, self.status_flags);
        put_u32(&mut out, self.rejected_count);
        put_u32(&mut out, self.first_rejected_index);
        put_u32(&mut out, self.blocking_index);
        out
    }

    /// Decode from the front of a buffer. Longer buffers are fine, shorter
    /// ones are refused.
    pub fn from_bytes(bytes: &[u8]) -> (v: Option<UpdateModesReply>)
        ensures
            v is Some <==> bytes@.len() >= UPDATE_MODES_REPLY_SIZE,
            v matches Some(x) ==> x.wire() == bytes@.take(UPDATE_MODES_REPLY_SIZE as int),
            v == UpdateModesReply::decoded(bytes@),
    {
        let mut r = Reader::new(bytes);
        let session_id: u64 = r.u64()?;
        let result: i32 = r.i32()?;
        let mode_count: u32 = r.u32()?;
        let accepted_count: u32 = r.u32()?;
        let requested_count: u32 = r.u32()?;
        let status_flags: u32 = r.u32()?;
        let rejected_count: u32 = r.u32()?;
        let first_rejected_index: u32 = r.u32()?;
        let blocking_index: u32 = r.u32()?;
        let v = UpdateModesReply {
            session_id, result, mode_count, accepted_count, requested_count, status_flags,
            rejected_count, first_rejected_index, blocking_index,
        };
        proof {
            assert(v.wire() == bytes@.take(UPDATE_MODES_REPLY_SIZE as int));
            law_update_modes_reply_round_trip(v, UpdateModesReply::decoded(bytes@)->0);
        }
        Some(v)
    }
}

/// An encoded [`UpdateModesReply`] determines the value: decoding what was encoded gives
/// it back unchanged.
pub proof fn law_update_modes_reply_round_trip(a: UpdateModesReply, b: UpdateModesReply)
    requires
        a.wire() == b.wire(),
    ensures
        a == b,
{
    let a0 = Seq::<u8>::empty();
    let a1 = a0 + u64_le(a.session_id);
    let a2 = a1 + i32_le(a.result);
    let a3 = a2 + u32_le(a.mode_count);
    let a4 = a3 + u32_le(a.accepted_count);
    let a5 = a4 + u32_le(a.requested_count);
    let a6 = a5 + u32_le(a.status_flags);
    let a7 = a6 + u32_le(a.rejected_count);
    let a8 = a7 + u32_le(a.first_rejected_index);
    let b0 = Seq::<u8>::empty();
    let b1 = b0 + u64_le(b.session_id);
    let b2 = b1 + i32_le(b.result);
    let b3 = b2 + u32_le(b.mode_count);
    let b4 = b3 + u32_le(b.accepted_count);
    let b5 = b4 + u32_le(b.requested_count);
    let b6 = b5 + u32_le(b.status_flags);
    let b7 = b6 + u32_le(b.rejected_count);
    let b8 = b7 + u32_le(b.first_rejected_index);
    lemma_peel(a8, u32_le(a.blocking_index), b8, u32_le(b.blocking_index));
    lemma_u32_le_injective(a.blocking_index, b.blocking_index);
    lemma_peel(a7, u32_le(a.first_rejected_index), b7, u32_le(b.first_rejected_index));
    lemma_u32_le_injective(a.first_rejected_index, b.first_rejected_index);
    lemma_peel(a6, u32_le(a.rejected_count), b6, u32_le(b.rejected_count));
    lemma_u32_le_injective(a.rejected_count, b.rejected_count);
    lemma_peel(a5, u32_le(a.status_flags), b5, u32_le(b.status_flags));
    lemma_u32_le_injective(a.status_flags, b.status_flags);
    lemma_peel(a4, u32_le(a.requested_count), b4, u32_le(b.requested_count));
    lemma_u32_le_injective(a.requested_count, b.requested_count);
    lemma_peel(a3, u32_le(a.accepted_count), b3, u32_le(b.accepted_count));
    lemma_u32_le_injective(a.accepted_count, b.accepted_count);
    lemma_peel(a2, u32_le(a.mode_count), b2, u32_le(b.mode_count));
    lemma_u32_le_injective(a.mode_count, b.mode_count);
    lemma_peel(a1, i32_le(a.result), b1, i32_le(b.result));
    lemma_i32_le_injective(a.result, b.result);
    lemma_peel(a0, u64_le(a.session_id), b0, u64_le(b.session_id));
    lemma_u64_le_injective(a.session_id, b.session_id);
}

/// Bytes of an encoded [`MonitorStatus`].
pub const MONITOR_STATUS_SIZE: usize = 96;

/// One monitor, as reported by a status query.
#[derive(Clone, Copy, Debug, PartialEq, Eq)]
pub struct MonitorStatus {
    pub session_id: u64,
    pub display_id: u64,
    pub adapter_luid: u64,
    pub latest_sequence: u64,
    pub frames_published: u64,
    pub frames_dropped: u64,
    /// Driver clock of the last ping, in milliseconds.
    pub last_ping_ms: u64,
    /// The preferred mode.
    pub width: u32,
    pub height: u32,
    pub refresh_millihz: u32,
    pub bit_depth: u32,
    pub hdr: u32,
    pub ring_generation: u32,
    /// One of `ring_state::*`.
    pub ring_state: u32,
    /// Last `err::*` recorded for this monitor (sticky until destroy).
    pub last_error: i32,
    pub connector_index: u32,
    /// Effective lease timeout (`u32::MAX` = never expires).
    pub lease_timeout_ms: u32,
}

impl MonitorStatus {
    /// The encoding: every field in declaration order, without padding.
    pub open spec fn wire(&self) -> Seq<u8> {
        Seq::<u8>::empty()
            + u64_le(self.session_id)
            + u64_le(self.display_id)
            + u64_le(self.adapter_luid)
            + u64_le(self.latest_sequence)
            + u64_le(self.frames_published)
            + u64_le(self.frames_dropped)
            + u64_le(self.last_ping_ms)
            + u32_le(self.width)
            + u32_le(self.height)
            + u32_le(self.refresh_millihz)
            + u32_le(self.bit_depth)
            + u32_le(self.hdr)
            + u32_le(self.ring_generation)
            + u32_le(self.ring_state)
            + i32_le(self.last_error)
            + u32_le(self.connector_index)
            + u32_le(self.lease_timeout_ms)
    }

    /// What the front of a buffer says, if the buffer is long enough.
    pub open spec fn decoded(bytes: Seq<u8>) -> Option<MonitorStatus> {
        if bytes.len() >= MONITOR_STATUS_SIZE {
            Some(choose|x: MonitorStatus| x.wire() == bytes.take(MONITOR_STATUS_SIZE as int))
        } else {
            None
        }
    }

    pub proof fn lemma_wire_len(&self)
        ensures
            self.wire().len() == MONITOR_STATUS_SIZE,
    {
    }

    pub fn to_bytes(&self) -> (r: Vec<u8>)
        ensures
            r@ == self.wire(),
            r@.len() == MONITOR_STATUS_SIZE,
    {
        let mut out: Vec<u8> = Vec::new();
        put_u64(&mut out, self.session_id);
        put_u64(&mut out, self.display_id);
        put_u64(&mut out, self.adapter_luid);
        put_u64(&mut out, self.latest_sequence);
        put_u64(&mut out, self.frames_published);
        put_u64(&mut out, self.frames_dropped);
        put_u64(&mut out, self.last_ping_ms);
        put_u32(&mut out, self.width);
        put_u32(&mut out, self.height);
        put_u32(&mut out, self.refresh_millihz);
        put_u32(&mut out, self.bit_depth);
        put_u32(&mut out, self.hdr);
        put_u32(&mut out, self.ring_generation);
        put_u32(&mut out, self.ring_state);
        put_i32(&mut out, self.last_error);
        put_u32(&mut out, self.connector_index);
        put_u32(&mut out, self.lease_timeout_ms);
        proof {
            self.lemma_wire_len();
        }
        out
    }

    /// Decode from the front of a buffer. Longer buffers are fine, shorter
    /// ones are refused.
    pub fn from_bytes(bytes: &[u8]) -> (v: Option<MonitorStatus>)
        ensures
            v is Some <==> bytes@.len() >= MONITOR_STATUS_SIZE,
            v matches Some(x) ==> x.wire() == bytes@.take(MONITOR_STATUS_SIZE as int),
            v == MonitorStatus::decoded(bytes@),
    {
        let mut r = Reader::new(bytes);
        let session_id: u64 = r.u64()?;
        let display_id: u64 = r.u64()?;
        let adapter_luid: u64 = r.u64()?;
        let latest_sequence: u64 = r.u64()?;
        let frames_published: u64 = r.u64()?;
        let frames_dropped: u64 = r.u64()?;
        let last_ping_ms: u64 = r.u64()?;
        let width: u32 = r.u32()?;
        let height: u32 = r.u32()?;
        let refresh_millihz: u32 = r.u32()?;
        let bit_depth: u32 = r.u32()?;
        let hdr: u32 = r.u32()?;
        let ring_generation: u32 = r.u32()?;
        let ring_state: u32 = r.u32()?;
        let last_error: i32 = r.i32()?;
        let connector_index: u32 = r.u32()?;
        let lease_timeout_ms: u32 = r.u32()?;
        let v = MonitorStatus {
            session_id, display_id, adapter_luid, latest_sequence, frames_published,
            frames_dropped, last_ping_ms, width, height, refresh_millihz, bit_depth, hdr,
            ring_generation, ring_state, last_error, connector_index, lease_timeout_ms,
        };
        proof {
            assert(v.wire() == bytes@.take(MONITOR_STATUS_SIZE as int));
            law_monitor_status_round_trip(v, MonitorStatus::decoded(bytes@)->0);
        }
        Some(v)
    }
}

/// An encoded [`MonitorStatus`] determines the value: decoding what was encoded gives
/// it back unchanged.
pub proof fn law_monitor_status_round_trip(a: MonitorStatus, b: MonitorStatus)
    requires
        a.wire() == b.wire(),
    ensures
        a == b,
{
    let a0 = Seq::<u8>::empty();
    let a1 = a0 + u64_le(a.session_id);
    let a2 = a1 + u64_le(a.display_id);
    let a3 = a2 + u64_le(a.adapter_luid);
    let a4 = a3 + u64_le(a.latest_sequence);
    let a5 = a4 + u64_le(a.frames_published);
    let a6 = a5 + u64_le(a.frames_dropped);
    let a7 = a6 + u64_le(a.last_ping_ms);
    let a8 = a7 + u32_le(a.width);
    let a9 = a8 + u32_le(a.height);
    let a10 = a9 + u32_le(a.refresh_millihz);
    let a11 = a10 + u32_le(a.bit_depth);
    let a12 = a11 + u32_le(a.hdr);
    let a13 = a12 + u32_le(a.ring_generation);
    let a14 = a13 + u32_le(a.ring_state);
    let a15 = a14 + i32_le(a.last_error);
    let a16 = a15 + u32_le(a.connector_index);
    let b0 = Seq::<u8>::empty();
    let b1 = b0 + u64_le(b.session_id);
    let b2 = b1 + u64_le(b.display_id);
    let b3 = b2 + u64_le(b.adapter_luid);
    let b4 = b3 + u64_le(b.latest_sequence);
    let b5 = b4 + u64_le(b.frames_published);
    let b6 = b5 + u64_le(b.frames_dropped);
    let b7 = b6 + u64_le(b.last_ping_ms);
    let b8 = b7 + u32_le(b.width);
    let b9 = b8 + u32_le(b.height);
    let b10 = b9 + u32_le(b.refresh_millihz);
    let b11 = b10 + u32_le(b.bit_depth);
    let b12 = b11 + u32_le(b.hdr);
    let b13 = b12 + u32_le(b.ring_generation);
    let b14 = b13 + u32_le(b.ring_state);
    let b15 = b14 + i32_le(b.last_error);
    let b16 = b15 + u32_le(b.connector_index);
    lemma_peel(a16, u32_le(a.lease_timeout_ms), b16, u32_le(b.lease_timeout_ms));
    lemma_u32_le_injective(a.lease_timeout_ms, b.lease_timeout_ms);
    lemma_peel(a15, u32_le(a.connector_index), b15, u32_le(b.connector_index));
    lemma_u32_le_injective(a.connector_index, b.connector_index);
    lemma_peel(a14, i32_le(a.last_error), b14, i32_le(b.last_error));
    lemma_i32_le_injective(a.last_error, b.last_error);
    lemma_peel(a13, u32_le(a.ring_state), b13, u32_le(b.ring_state));
    lemma_u32_le_injective(a.ring_state, b.ring_state);
    lemma_peel(a12, u32_le(a.ring_generation), b12, u32_le(b.ring_generation));
    lemma_u32_le_injective(a.ring_generation, b.ring_generation);
    lemma_peel(a11, u32_le(a.hdr), b11, u32_le(b.hdr));
    lemma_u32_le_injective(a.hdr, b.hdr);
    lemma_peel(a10, u32_le(a.bit_depth), b10, u32_le(b.bit_depth));
    lemma_u32_le_injective(a.bit_depth, b.bit_depth);
    lemma_peel(a9, u32_le(a.refresh_millihz), b9, u32_le(b.refresh_millihz));
    lemma_u32_le_injective(a.refresh_millihz, b.refresh_millihz);
    lemma_peel(a8, u32_le(a.height), b8, u32_le(b.height));
    lemma_u32_le_injective(a.height, b.height);
    lemma_peel(a7, u32_le(a.width), b7, u32_le(b.width));
    lemma_u32_le_injective(a.width, b.width);
    lemma_peel(a6, u64_le(a.last_ping_ms), b6, u64_le(b.last_ping_ms));
    lemma_u64_le_injective(a.last_ping_ms, b.last_ping_ms);
    lemma_peel(a5, u64_le(a.frames_dropped), b5, u64_le(b.frames_dropped));
    lemma_u64_le_injective(a.frames_dropped, b.frames_dropped);
    lemma_peel(a4, u64_le(a.frames_published), b4, u64_le(b.frames_published));
    lemma_u64_le_injective(a.frames_published, b.frames_published);
    lemma_peel(a3, u64_le(a.latest_sequence), b3, u64_le(b.latest_sequence));
    lemma_u64_le_injective(a.latest_sequence, b.latest_sequence);
    lemma_peel(a2, u64_le(a.adapter_luid), b2, u64_le(b.adapter_luid));
    lemma_u64_le_injective(a.adapter_luid, b.adapter_luid);
    lemma_peel(a1, u64_le(a.display_id), b1, u64_le(b.display_id));
    lemma_u64_le_injective(a.display_id, b.display_id);
    lemma_peel(a0, u64_le(a.session_id), b0, u64_le(b.session_id));
    lemma_u64_le_injective(a.session_id, b.session_id);
}

/// The status entry of an unused slot.
pub open spec fn zero_monitor_status() -> MonitorStatus {
    MonitorStatus {
        session_id: 0,
        display_id: 0,
        adapter_luid: 0,
        latest_sequence: 0,
        frames_published: 0,
        frames_dropped: 0,
        last_ping_ms: 0,
        width: 0,
        height: 0,
        refresh_millihz: 0,
        bit_depth: 0,
        hdr: 0,
        ring_generation: 0,
        ring_state: 0,
        last_error: 0,
        connector_index: 0,
        lease_timeout_ms: 0,
    }
}

impl MonitorStatus {
    pub fn zero() -> (r: Self)
        ensures
            r == zero_monitor_status(),
    {
        MonitorStatus {
            session_id: 0,
            display_id: 0,
            adapter_luid: 0,
            latest_sequence: 0,
            frames_published: 0,
            frames_dropped: 0,
            last_ping_ms: 0,
            width: 0,
            height: 0,
            refresh_millihz: 0,
            bit_depth: 0,
            hdr: 0,
            ring_generation: 0,
            ring_state: 0,
            last_error: 0,
            connector_index: 0,
            lease_timeout_ms: 0,
        }
    }
}

/// The encodings of a sequence of [`MonitorStatus`], in order.
pub open spec fn monitor_statuses_wire(s: Seq<MonitorStatus>) -> Seq<u8>
    decreases s.len(),
{
    if s.len() == 0 {
        Seq::empty()
    } else {
        monitor_statuses_wire(s.drop_last()) + s.last().wire()
    }
}

pub proof fn lemma_monitor_statuses_wire_len(s: Seq<MonitorStatus>)
    ensures
        monitor_statuses_wire(s).len() == MONITOR_STATUS_SIZE * s.len(),
    decreases s.len(),
{
    if s.len() > 0 {
        lemma_monitor_statuses_wire_len(s.drop_last());
        s.last().lemma_wire_len();
    }
}

pub proof fn lemma_monitor_statuses_wire_injective(a: Seq<MonitorStatus>, b: Seq<MonitorStatus>)
    requires
        a.len() == b.len(),
        monitor_statuses_wire(a) == monitor_statuses_wire(b),
    ensures
        a == b,
    decreases a.len(),
{
    if a.len() > 0 {
        a.last().lemma_wire_len();
        b.last().lemma_wire_len();
        lemma_peel(monitor_statuses_wire(a.drop_last()), a.last().wire(), monitor_statuses_wire(b.drop_last()), b.last().wire());
        law_monitor_status_round_trip(a.last(), b.last());
        lemma_monitor_statuses_wire_injective(a.drop_last(), b.drop_last());
        assert(a =~= a.drop_last().push(a.last()));
        assert(b =~= b.drop_last().push(b.last()));
    } else {
        assert(a =~= b);
    }
}

pub fn put_monitor_statuses(out: &mut Vec<u8>, values: &[MonitorStatus])
    ensures
        final(out)@ == old(out)@ + monitor_statuses_wire(values@),
{
    let mut i: usize = 0;
    assert(out@ =~= old(out)@ + monitor_statuses_wire(values@.take(0)));
    while i < values.len()
        invariant
            i <= values@.len(),
            out@ == old(out)@ + monitor_statuses_wire(values@.take(i as int)),
        decreases values@.len() - i,
    {
        put_bytes(out, values[i].to_bytes().as_slice());
        proof {
            let upto = values@.take(i + 1);
            assert(upto.drop_last() =~= values@.take(i as int));
            assert(out@ =~= old(out)@ + monitor_statuses_wire(upto));
        }
        i += 1;
    }
    assert(values@.take(i as int) =~= values@);
}

/// `N` consecutive values.
pub fn read_monitor_statuses<const N: usize>(r: &mut Reader) -> (v: Option<[MonitorStatus; N]>)
    requires
        old(r).wf(),
    ensures
        final(r).wf(),
        final(r).data@ == old(r).data@,
        v is Some <==> old(r).at + MONITOR_STATUS_SIZE * N <= old(r).data@.len(),
        v matches Some(x) ==> old(r).advanced(final(r), monitor_statuses_wire(x@)),
        v is Some ==> final(r).at == old(r).at + MONITOR_STATUS_SIZE * N,
{
    let mut out: [MonitorStatus; N] = [MonitorStatus::zero(); N];
    let mut i: usize = 0;
    assert(r.consumed() =~= old(r).consumed() + monitor_statuses_wire(out@.take(0)));
    assert(monitor_statuses_wire(out@.take(0)) =~= r.data@.subrange(r.at as int, r.at as int));
    while i < N
        invariant
            i <= N,
            out@.len() == N,
            old(r).wf(),
            monitor_statuses_wire(out@.take(i as int)).len() == MONITOR_STATUS_SIZE * i,
            old(r).advanced(r, monitor_statuses_wire(out@.take(i as int))),
        decreases N - i,
    {
        let ghost before = out@.take(i as int);
        let v: MonitorStatus = MonitorStatus::from_bytes(r.bytes(MONITOR_STATUS_SIZE)?)?;
        out[i] = v;
        proof {
            v.lemma_wire_len();
            let upto = out@.take(i + 1);
            assert(upto.drop_last() =~= before);
            assert(r.consumed() =~= old(r).consumed() + monitor_statuses_wire(upto));
            assert(monitor_statuses_wire(upto) =~= r.data@.subrange(old(r).at as int, r.at as int));
        }
        i += 1;
    }
    assert(out@.take(i as int) =~= out@);
    Some(out)
}

/// Bytes of an encoded [`GetStatusReply`].
pub const GET_STATUS_REPLY_SIZE: usize = 1568;

/// The whole driver, as reported by a status query.
#[derive(Clone, Copy, Debug, PartialEq, Eq)]
pub struct GetStatusReply {
    pub uptime_ms: u64,
    pub driver_build: u32,
    pub proto_major: u16,
    pub proto_minor: u16,
    pub caps: u32,
    pub max_monitors: u32,
    pub watchdog_secs: u32,
    /// Number of valid entries in `monitors`.
    pub monitor_count: u32,
    pub monitors: [MonitorStatus; 16],
}

impl GetStatusReply {
    /// The encoding: every field in declaration order, without padding.
    pub open spec fn wire(&self) -> Seq<u8> {
        Seq::<u8>::empty()
            + u64_le(self.uptime_ms)
            + u32_le(self.driver_build)
            + u16_le(self.proto_major)
            + u16_le(self.proto_minor)
            + u32_le(self.caps)
            + u32_le(self.max_monitors)
            + u32_le(self.watchdog_secs)
            + u32_le(self.monitor_count)
            + monitor_statuses_wire(self.monitors@)
    }

    /// What the front of a buffer says, if the buffer is long enough.
    pub open spec fn decoded(bytes: Seq<u8>) -> Option<GetStatusReply> {
        if bytes.len() >= GET_STATUS_REPLY_SIZE {
            Some(choose|x: GetStatusReply| x.wire() == bytes.take(GET_STATUS_REPLY_SIZE as int))
        } else {
            None
        }
    }

    pub fn to_bytes(&self) -> (r: Vec<u8>)
        ensures
            r@ == self.wire(),
            r@.len() == GET_STATUS_REPLY_SIZE,
    {
        let mut out: Vec<u8> = Vec::new();
        put_u64(&mut out, self.uptime_ms);
        put_u32(&mut out, self.driver_build);
        put_u16(&mut out, self.proto_major);
        put_u16(&mut out, self.proto_minor);
        put_u32(&mut out, self.caps);
        put_u32(&mut out, self.max_monitors);
        put_u32(&mut out, self.watchdog_secs);
        put_u32(&mut out, self.monitor_count);
        put_monitor_statuses(&mut out, self.monitors.as_slice());
        proof {
            lemma_monitor_statuses_wire_len(self.monitors@);
        }
        out
    }

    /// Decode from the front of a buffer. Longer buffers are fine, shorter
    /// ones are refused.
    pub fn from_bytes(bytes: &[u8]) -> (v: Option<GetStatusReply>)
        ensures
            v is Some <==> bytes@.len() >= GET_STATUS_REPLY_SIZE,
            v matches Some(x) ==> x.wire() == bytes@.take(GET_STATUS_REPLY_SIZE as int),
            v == GetStatusReply::decoded(bytes@),
    {
        let mut r = Reader::new(bytes);
        let uptime_ms: u64 = r.u64()?;
        let driver_build: u32 = r.u32()?;
        let proto_major: u16 = r.u16()?;
        let proto_minor: u16 = r.u16()?;
        let caps: u32 = r.u32()?;
        let max_monitors: u32 = r.u32()?;
        let watchdog_secs: u32 = r.u32()?;
        let monitor_count: u32 = r.u32()?;
        let monitors: [MonitorStatus; 16] = read_monitor_statuses::<16>(&mut r)?;
        let v = GetStatusReply {
            uptime_ms, driver_build, proto_major, proto_minor, caps, max_monitors,
            watchdog_secs, monitor_count, monitors,
        };
        proof {
            assert(v.wire() == bytes@.take(GET_STATUS_REPLY_SIZE as int));
            law_get_status_reply_round_trip(v, GetStatusReply::decoded(bytes@)->0);
        }
        Some(v)
    }
}

/// An encoded [`GetStatusReply`] determines the value: decoding what was encoded gives
/// it back unchanged.
pub proof fn law_get_status_reply_round_trip(a: GetStatusReply, b: GetStatusReply)
    requires
        a.wire() == b.wire(),
    ensures
        a == b,
{
    let a0 = Seq::<u8>::empty();
    let a1 = a0 + u64_le(a.uptime_ms);
    let a2 = a1 + u32_le(a.driver_build);
    let a3 = a2 + u16_le(a.proto_major);
    let a4 = a3 + u16_le(a.proto_minor);
    let a5 = a4 + u32_le(a.caps);
    let a6 = a5 + u32_le(a.max_monitors);
    let a7 = a6 + u32_le(a.watchdog_secs);
    let a8 = a7 + u32_le(a.monitor_count);
    let b0 = Seq::<u8>::empty();
    let b1 = b0 + u64_le(b.uptime_ms);
    let b2 = b1 + u32_le(b.driver_build);
    let b3 = b2 + u16_le(b.proto_major);
    let b4 = b3 + u16_le(b.proto_minor);
    let b5 = b4 + u32_le(b.caps);
    let b6 = b5 + u32_le(b.max_monitors);
    let b7 = b6 + u32_le(b.watchdog_secs);
    let b8 = b7 + u32_le(b.monitor_count);
    lemma_monitor_statuses_wire_len(a.monitors@);
    lemma_monitor_statuses_wire_len(b.monitors@);
    lemma_peel(a8, monitor_statuses_wire(a.monitors@), b8, monitor_statuses_wire(b.monitors@));
    lemma_monitor_statuses_wire_injective(a.monitors@, b.monitors@);
    assert(a.monitors =~= b.monitors);
    lemma_peel(a7, u32_le(a.monitor_count), b7, u32_le(b.monitor_count));
    lemma_u32_le_injective(a.monitor_count, b.monitor_count);
    lemma_peel(a6, u32_le(a.watchdog_secs), b6, u32_le(b.watchdog_secs));
    lemma_u32_le_injective(a.watchdog_secs, b.watchdog_secs);
    lemma_peel(a5, u32_le(a.max_monitors), b5, u32_le(b.max_monitors));
    lemma_u32_le_injective(a.max_monitors, b.max_monitors);
    lemma_peel(a4, u32_le(a.caps), b4, u32_le(b.caps));
    lemma_u32_le_injective(a.caps, b.caps);
    lemma_peel(a3, u16_le(a.proto_minor), b3, u16_le(b.proto_minor));
    lemma_u16_le_injective(a.proto_minor, b.proto_minor);
    lemma_peel(a2, u16_le(a.proto_major), b2, u16_le(b.proto_major));
    lemma_u16_le_injective(a.proto_major, b.proto_major);
    lemma_peel(a1, u32_le(a.driver_build), b1, u32_le(b.driver_build));
    lemma_u32_le_injective(a.driver_build, b.driver_build);
    lemma_peel(a0, u64_le(a.uptime_ms), b0, u64_le(b.uptime_ms));
    lemma_u64_le_injective(a.uptime_ms, b.uptime_ms);
}

/// The sizes of the messages in bytes.
pub proof fn law_message_sizes()
    ensures
        HANDSHAKE_REQUEST_SIZE == 4 && HANDSHAKE_REPLY_SIZE == 20 && MODE_SPEC_SIZE == 12,
        CREATE_MONITOR_REQUEST_SIZE == 176 && CREATE_MONITOR_REPLY_SIZE == 160,
        DESTROY_MONITOR_REQUEST_SIZE == 8 && PING_REQUEST_SIZE == 8,
        SET_RENDER_ADAPTER_REQUEST_SIZE == 8 && QUERY_LEASE_REQUEST_SIZE == 8,
        QUERY_LEASE_REPLY_SIZE == 32 && PERMANENT_POOL_CONFIG_SIZE == 96,
        QUERY_PERMANENT_POOL_REPLY_SIZE == 104 && UPDATE_MODES_REQUEST_SIZE == 80,
        UPDATE_MODES_REPLY_SIZE == 40 && MONITOR_STATUS_SIZE == 96,
        GET_STATUS_REPLY_SIZE == 1568,
{
}

} // verus!
