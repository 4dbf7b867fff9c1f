//! Control data in the memory shared with the host.
use vstd::prelude::*;

use crate::proto::wire::{
    lemma_u16s_le_len, lemma_u32s_le_len, put_bytes, put_i32, put_u16, put_u16s, put_u32, put_u32s,
    put_u64, i32_le, u16_le, u16s_le, u32_le, u32s_le, u64_le,
};

verus! {

broadcast use crate::proto::wire::group_le_len;

/// Bytes of an encoded [`Hdr10StaticMetadata`].
pub const HDR10_STATIC_METADATA_SIZE: usize = 28;

/// HDR10 static metadata: primaries and white point in 0.00002 units, mastering
/// luminance in 0.0001 nit units, light levels in nits.
#[derive(Clone, Copy, Debug, PartialEq, Eq)]
pub struct Hdr10StaticMetadata {
    pub red_primary: [u16; 2],
    pub green_primary: [u16; 2],
    pub blue_primary: [u16; 2],
    pub white_point: [u16; 2],
    pub max_mastering_luminance: u32,
    pub min_mastering_luminance: u32,
    pub max_content_light_level: u16,
    pub max_frame_average_light_level: u16,
}

impl Hdr10StaticMetadata {
    /// The encoding: every field in declaration order, without padding.
    pub open spec fn wire(&self) -> Seq<u8> {
        Seq::<u8>::empty()
            + u16s_le(self.red_primary@)
            + u16s_le(self.green_primary@)
            + u16s_le(self.blue_primary@)
            + u16s_le(self.white_point@)
            + u32_le(self.max_mastering_luminance)
            + u32_le(self.min_mastering_luminance)
            + u16_le(self.max_content_light_level)
            + u16_le(self.max_frame_average_light_level)
    }

    pub proof fn lemma_wire_len(&self)
        ensures
            self.wire().len() == HDR10_STATIC_METADATA_SIZE,
    {
        lemma_u16s_le_len(self.red_primary@);
        lemma_u16s_le_len(self.green_primary@);
        lemma_u16s_le_len(self.blue_primary@);
        lemma_u16s_le_len(self.white_point@);
    }

    pub fn to_bytes(&self) -> (r: Vec<u8>)
        ensures
            r@ == self.wire(),
            r@.len() == HDR10_STATIC_METADATA_SIZE,
    {
        let mut out: Vec<u8> = Vec::new();
        put_u16s(&mut out, self.red_primary.as_slice());
        put_u16s(&mut out, self.green_primary.as_slice());
        put_u16s(&mut out, self.blue_primary.as_slice());
        put_u16s(&mut out, self.white_point.as_slice());
        put_u32(&mut out, self.max_mastering_luminance);
        put_u32(&mut out, self.min_mastering_luminance);
        put_u16(&mut out, self.max_content_light_level);
        put_u16(&mut out, self.max_frame_average_light_level);
        proof {
            self.lemma_wire_len();
        }
        out
    }
}

/// Bytes of an encoded [`RectU32`].
pub const RECT_U32_SIZE: usize = 16;

/// A rectangle in pixels.
#[derive(Clone, Copy, Debug, PartialEq, Eq)]
pub struct RectU32 {
    pub left: u32,
    pub top: u32,
    pub right: u32,
    pub bottom: u32,
}

impl RectU32 {
    /// The encoding: every field in declaration order, without padding.
    pub open spec fn wire(&self) -> Seq<u8> {
        Seq::<u8>::empty()
            + u32_le(self.left)
            + u32_le(self.top)
            + u32_le(self.right)
            + u32_le(self.bottom)
    }

    pub proof fn lemma_wire_len(&self)
        ensures
            self.wire().len() == RECT_U32_SIZE,
    {
    }

    pub fn to_bytes(&self) -> (r: Vec<u8>)
        ensures
            r@ == self.wire(),
            r@.len() == RECT_U32_SIZE,
    {
        let mut out: Vec<u8> = Vec::new();
        put_u32(&mut out, self.left);
        put_u32(&mut out, self.top);
        put_u32(&mut out, self.right);
        put_u32(&mut out, self.bottom);
        proof {
            self.lemma_wire_len();
        }
        out
    }
}

/// Bytes of an encoded [`SlotMetadata`].
pub const SLOT_METADATA_SIZE: usize = 80;

/// Control data of one ring slot; the pixels live in a named shared texture.
#[derive(Clone, Copy, Debug, PartialEq, Eq)]
pub struct SlotMetadata {
    /// One of `slot_state::*`.
    pub state: u32,
    /// Bitmask of `slot_flags::*`.
    pub flags: u32,
    /// Sequence number of the frame in this slot.
    pub sequence: u64,
    /// Timestamp at which the frame was presented to the driver.
    pub present_qpc: u64,
    pub hdr: Hdr10StaticMetadata,
    /// Number of dirty rectangles reported (0 = unknown).
    pub dirty_count: u32,
    /// Bounding box of the dirty rectangles.
    pub dirty_bound: RectU32,
    pub reserved: [u32; 2],
}

impl SlotMetadata {
    /// The encoding: every field in declaration order, without padding.
    pub open spec fn wire(&self) -> Seq<u8> {
        Seq::<u8>::empty()
            + u32_le(self.state)
            + u32_le(self.flags)
            + u64_le(self.sequence)
            + u64_le(self.present_qpc)
            + self.hdr.wire()
            + u32_le(self.dirty_count)
            + self.dirty_bound.wire()
            + u32s_le(self.reserved@)
    }

    pub fn to_bytes(&self) -> (r: Vec<u8>)
        ensures
            r@ == self.wire(),
            r@.len() == SLOT_METADATA_SIZE,
    {
        let mut out: Vec<u8> = Vec::new();
        put_u32(&mut out, self.state);
        put_u32(&mut out, self.flags);
        put_u64(&mut out, self.sequence);
        put_u64(&mut out, self.present_qpc);
        put_bytes(&mut out, self.hdr.to_bytes().as_slice());
        put_u32(&mut out, self.dirty_count);
        put_bytes(&mut out, self.dirty_bound.to_bytes().as_slice());
        put_u32s(&mut out, self.reserved.as_slice());
        proof {
            self.hdr.lemma_wire_len();
            self.dirty_bound.lemma_wire_len();
            lemma_u32s_le_len(self.reserved@);
        }
        out
    }
}

/// Bytes of an encoded [`RingHeader`].
pub const RING_HEADER_SIZE: usize = 72;

/// Header at offset 0 of a shared ring section. The driver writes, the host reads.
#[derive(Clone, Copy, Debug, PartialEq, Eq)]
pub struct RingHeader {
    /// `RING_MAGIC` once the section is initialized.
    pub magic: u32,
    pub header_version: u32,
    /// Incremented whenever the ring is rebuilt; texture names embed it.
    pub ring_generation: u32,
    pub slot_count: u32,
    /// One of `ring_state::*`.
    pub state: u32,
    pub reserved0: u32,
    /// Sequence of the most recently published frame. Gaps are legal.
    pub latest_sequence: u64,
    pub latest_present_qpc: u64,
    pub frames_published: u64,
    pub frames_dropped: u64,
    /// Refreshed even when idle; a stale heartbeat means the driver is gone.
    pub driver_heartbeat_qpc: u64,
    pub qpc_frequency: u64,
}

impl RingHeader {
    /// The encoding: every field in declaration order, without padding.
    pub open spec fn wire(&self) -> Seq<u8> {
        Seq::<u8>::empty()
            + u32_le(self.magic)
            + u32_le(self.header_version)
            + u32_le(self.ring_generation)
            + u32_le(self.slot_count)
            + u32_le(self.state)
            + u32_le(self.reserved0)
            + u64_le(self.latest_sequence)
            + u64_le(self.latest_present_qpc)
            + u64_le(self.frames_published)
            + u64_le(self.frames_dropped)
            + u64_le(self.driver_heartbeat_qpc)
            + u64_le(self.qpc_frequency)
    }

    pub fn to_bytes(&self) -> (r: Vec<u8>)
        ensures
            r@ == self.wire(),
            r@.len() == RING_HEADER_SIZE,
    {
        let mut out: Vec<u8> = Vec::new();
        put_u32(&mut out, self.magic);
        put_u32(&mut out, self.header_version);
        put_u32(&mut out, self.ring_generation);
        put_u32(&mut out, self.slot_count);
        put_u32(&mut out, self.state);
        put_u32(&mut out, self.reserved0);
        put_u64(&mut out, self.latest_sequence);
        put_u64(&mut out, self.latest_present_qpc);
        put_u64(&mut out, self.frames_published);
        put_u64(&mut out, self.frames_dropped);
        put_u64(&mut out, self.driver_heartbeat_qpc);
        put_u64(&mut out, self.qpc_frequency);
        out
    }
}

/// Bytes of an encoded [`CursorHeader`].
pub const CURSOR_HEADER_SIZE: usize = 64;

/// Header at offset 0 of a cursor section. The driver writes, the host reads.
#[derive(Clone, Copy, Debug, PartialEq, Eq)]
pub struct CursorHeader {
    pub magic: u32,
    pub version: u32,
    /// Incremented around each rewrite of the shape buffer.
    pub shape_generation: u32,
    pub width: u32,
    pub height: u32,
    pub hotspot_x: u32,
    pub hotspot_y: u32,
    /// One of `cursor_kind::*`.
    pub kind: u32,
    /// Desktop coordinates on the virtual display.
    pub x: i32,
    pub y: i32,
    pub visible: u32,
    pub reserved0: u32,
    pub position_qpc: u64,
    pub reserved1: u64,
}

impl CursorHeader {
    /// The encoding: every field in declaration order, without padding.
    pub open spec fn wire(&self) -> Seq<u8> {
        Seq::<u8>::empty()
            + u32_le(self.magic)
            + u32_le(self.version)
            + u32_le(self.shape_generation)
            + u32_le(self.width)
            + u32_le(self.height)
            + u32_le(self.hotspot_x)
            + u32_le(self.hotspot_y)
            + u32_le(self.kind)
            + i32_le(self.x)
            + i32_le(self.y)
            + u32_le(self.visible)
            + u32_le(self.reserved0)
            + u64_le(self.position_qpc)
            + u64_le(self.reserved1)
    }

    pub fn to_bytes(&self) -> (r: Vec<u8>)
        ensures
            r@ == self.wire(),
            r@.len() == CURSOR_HEADER_SIZE,
    {
        let mut out: Vec<u8> = Vec::new();
        put_u32(&mut out, self.magic);
        put_u32(&mut out, self.version);
        put_u32(&mut out, self.shape_generation);
        put_u32(&mut out, self.width);
        put_u32(&mut out, self.height);
        put_u32(&mut out, self.hotspot_x);
        put_u32(&mut out, self.hotspot_y);
        put_u32(&mut out, self.kind);
        put_i32(&mut out, self.x);
        put_i32(&mut out, self.y);
        put_u32(&mut out, self.visible);
        put_u32(&mut out, self.reserved0);
        put_u64(&mut out, self.position_qpc);
        put_u64(&mut out, self.reserved1);
        out
    }
}

/// The sizes of what the sections hold, in bytes.
pub proof fn law_section_sizes()
    ensures
        HDR10_STATIC_METADATA_SIZE == 28 && RECT_U32_SIZE == 16 && SLOT_METADATA_SIZE == 80,
        RING_HEADER_SIZE == 72 && CURSOR_HEADER_SIZE == 64,
{
}

} // verus!
