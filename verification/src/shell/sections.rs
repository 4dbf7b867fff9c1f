//! What the driver stores into a shared ring section, and in which order.
//!
//! The host maps the same memory and reads while the driver writes, so the order of
//! the stores is part of what they mean: a section is complete when its magic is
//! there, and a slot when its state says so.
use vstd::prelude::*;

use crate::proto::layout::{law_ring_header_layout, law_slot_metadata_layout};
use crate::proto::ring_state;
use crate::proto::sections::{
    Hdr10StaticMetadata, RectU32, RingHeader, SlotMetadata, RING_HEADER_SIZE, SLOT_METADATA_SIZE,
};
use crate::proto::slot_state;
use crate::proto::wire::{
    lemma_u32s_le_len, put_u32, put_u64, u16_le, u32_at, u32_le, u64_at, u64_le,
};
use crate::proto::{ABI_MAX_RING_SLOTS, RING_HEADER_VERSION, RING_MAGIC, RING_SLOTS_OFFSET};

verus! {

broadcast use crate::proto::wire::group_le_len;

/// One store into a section.
pub struct Store {
    pub offset: usize,
    pub bytes: Vec<u8>,
    /// Everything stored before is visible to whoever sees this store.
    pub release: bool,
}

pub struct StoreModel {
    pub offset: int,
    pub bytes: Seq<u8>,
    pub release: bool,
}

impl View for Store {
    type V = StoreModel;

    open spec fn view(&self) -> StoreModel {
        StoreModel { offset: self.offset as int, bytes: self.bytes@, release: self.release }
    }
}

/// What a list of stores stands for.
pub open spec fn stores_of(s: Seq<Store>) -> Seq<StoreModel> {
    s.map_values(|x: Store| x@)
}

impl StoreModel {
    pub open spec fn end(self) -> int {
        self.offset + self.bytes.len()
    }

    /// The store stays inside a section of `size` bytes.
    pub open spec fn fits(self, size: int) -> bool {
        0 <= self.offset && self.end() <= size
    }

    /// The store leaves the bytes `from..to` alone.
    pub open spec fn misses(self, from: int, to: int) -> bool {
        self.end() <= from || to <= self.offset
    }
}

/// Memory after one store.
pub open spec fn stored(mem: Seq<u8>, s: StoreModel) -> Seq<u8> {
    mem.take(s.offset) + s.bytes + mem.skip(s.end())
}

/// Memory after a list of stores.
pub open spec fn stored_all(mem: Seq<u8>, stores: Seq<StoreModel>) -> Seq<u8>
    decreases stores.len(),
{
    if stores.len() == 0 {
        mem
    } else {
        stored(stored_all(mem, stores.drop_last()), stores.last())
    }
}

pub open spec fn plain(offset: int, bytes: Seq<u8>) -> StoreModel {
    StoreModel { offset, bytes, release: false }
}

pub open spec fn releasing(offset: int, bytes: Seq<u8>) -> StoreModel {
    StoreModel { offset, bytes, release: true }
}

/// Where the fields of a ring header stand.
pub const MAGIC_AT: usize = 0;

pub const VERSION_AT: usize = 4;

pub const GENERATION_AT: usize = 8;

pub const SLOT_COUNT_AT: usize = 12;

pub const STATE_AT: usize = 16;

pub const LATEST_SEQUENCE_AT: usize = 24;

pub const LATEST_PRESENT_AT: usize = 32;

pub const PUBLISHED_AT: usize = 40;

pub const DROPPED_AT: usize = 48;

pub const HEARTBEAT_AT: usize = 56;

pub const FREQUENCY_AT: usize = 64;

/// Where the fields of a slot stand, from its start.
pub const SLOT_FLAGS_AT: usize = 4;

pub const SLOT_SEQUENCE_AT: usize = 8;

pub const SLOT_PRESENT_AT: usize = 16;

pub const SLOT_HDR_AT: usize = 24;

pub const SLOT_DIRTY_COUNT_AT: usize = 52;

pub const SLOT_DIRTY_BOUND_AT: usize = 56;

/// Where a slot's metadata starts.
pub open spec fn slot_start(index: int) -> int {
    RING_SLOTS_OFFSET + index * SLOT_METADATA_SIZE
}

pub fn slot_offset(index: usize) -> (r: usize)
    requires
        index < ABI_MAX_RING_SLOTS,
    ensures
        r == slot_start(index as int),
{
    RING_SLOTS_OFFSET + index * SLOT_METADATA_SIZE
}

/// The memory starts with this header.
pub open spec fn header_in(mem: Seq<u8>, h: RingHeader) -> bool {
    mem.len() >= RING_SLOTS_OFFSET && mem.take(RING_HEADER_SIZE as int) == h.wire()
}

/// The memory holds this metadata at slot `index`.
pub open spec fn slot_in(mem: Seq<u8>, index: int, m: SlotMetadata) -> bool {
    &&& index >= 0
    &&& slot_start(index) + SLOT_METADATA_SIZE <= mem.len()
    &&& mem.subrange(slot_start(index), slot_start(index) + SLOT_METADATA_SIZE) == m.wire()
}

pub open spec fn no_hdr() -> Hdr10StaticMetadata {
    Hdr10StaticMetadata {
        red_primary: [0u16, 0u16],
        green_primary: [0u16, 0u16],
        blue_primary: [0u16, 0u16],
        white_point: [0u16, 0u16],
        max_mastering_luminance: 0,
        min_mastering_luminance: 0,
        max_content_light_level: 0,
        max_frame_average_light_level: 0,
    }
}

pub open spec fn no_rect() -> RectU32 {
    RectU32 { left: 0, top: 0, right: 0, bottom: 0 }
}

/// The header of a section that was just created.
pub open spec fn fresh_header(slot_count: u32, qpc_frequency: u64, now_qpc: u64) -> RingHeader {
    RingHeader {
        magic: RING_MAGIC,
        header_version: RING_HEADER_VERSION,
        ring_generation: 1,
        slot_count,
        state: ring_state::ACTIVE,
        reserved0: 0,
        latest_sequence: 0,
        latest_present_qpc: 0,
        frames_published: 0,
        frames_dropped: 0,
        driver_heartbeat_qpc: now_qpc,
        qpc_frequency,
    }
}

/// The stores that make a zeroed section a ring.
pub open spec fn creation_stores(slot_count: u32, qpc_frequency: u64, now_qpc: u64) -> Seq<
    StoreModel,
> {
    Seq::empty().push(plain(VERSION_AT as int, u32_le(RING_HEADER_VERSION))).push(
        plain(GENERATION_AT as int, u32_le(1)),
    ).push(plain(SLOT_COUNT_AT as int, u32_le(slot_count))).push(
        plain(FREQUENCY_AT as int, u64_le(qpc_frequency)),
    ).push(plain(HEARTBEAT_AT as int, u64_le(now_qpc))).push(
        releasing(STATE_AT as int, u32_le(ring_state::ACTIVE)),
    ).push(plain(MAGIC_AT as int, u32_le(RING_MAGIC)))
}

/// A frame that was published.
#[derive(Clone, Copy, Debug, PartialEq, Eq, Structural)]
pub struct Publication {
    pub index: usize,
    pub sequence: u64,
    pub present_qpc: u64,
    pub frames_published: u64,
    pub frames_dropped: u64,
}

/// The metadata of a published slot. What the driver does not report reads as unknown.
pub open spec fn published_slot(m: SlotMetadata, p: Publication) -> SlotMetadata {
    SlotMetadata {
        state: slot_state::PUBLISHED,
        flags: 0,
        sequence: p.sequence,
        present_qpc: p.present_qpc,
        hdr: no_hdr(),
        dirty_count: 0,
        dirty_bound: no_rect(),
        ..m
    }
}

/// The header once a frame is published.
pub open spec fn published_header(h: RingHeader, p: Publication, now_qpc: u64) -> RingHeader {
    RingHeader {
        latest_sequence: p.sequence,
        latest_present_qpc: p.present_qpc,
        frames_published: p.frames_published,
        frames_dropped: p.frames_dropped,
        driver_heartbeat_qpc: now_qpc,
        ..h
    }
}

/// The stores into the slot of a published frame.
pub open spec fn slot_stores(p: Publication) -> Seq<StoreModel> {
    let at = slot_start(p.index as int);
    Seq::empty().push(plain(at + SLOT_SEQUENCE_AT, u64_le(p.sequence))).push(
        plain(at + SLOT_PRESENT_AT, u64_le(p.present_qpc)),
    ).push(plain(at + SLOT_FLAGS_AT, u32_le(0))).push(
        plain(at + SLOT_HDR_AT, no_hdr().wire()),
    ).push(plain(at + SLOT_DIRTY_COUNT_AT, u32_le(0))).push(
        plain(at + SLOT_DIRTY_BOUND_AT, no_rect().wire()),
    ).push(releasing(at, u32_le(slot_state::PUBLISHED)))
}

/// All stores of a published frame: first the slot, then the header.
pub open spec fn publication_stores(p: Publication, now_qpc: u64) -> Seq<StoreModel> {
    slot_stores(p).push(releasing(LATEST_SEQUENCE_AT as int, u64_le(p.sequence))).push(
        plain(LATEST_PRESENT_AT as int, u64_le(p.present_qpc)),
    ).push(plain(PUBLISHED_AT as int, u64_le(p.frames_published))).push(
        plain(DROPPED_AT as int, u64_le(p.frames_dropped)),
    ).push(plain(HEARTBEAT_AT as int, u64_le(now_qpc)))
}

/// Append a store of a 32-bit value.
pub fn push_u32(out: &mut Vec<Store>, offset: usize, v: u32, release: bool)
    ensures
        stores_of(final(out)@) == stores_of(old(out)@).push(
            (StoreModel { offset: offset as int, bytes: u32_le(v), release }),
        ),
{
    let mut bytes: Vec<u8> = Vec::new();
    put_u32(&mut bytes, v);
    push_bytes(out, offset, bytes, release);
}

/// Append a store of a 64-bit value.
pub fn push_u64(out: &mut Vec<Store>, offset: usize, v: u64, release: bool)
    ensures
        stores_of(final(out)@) == stores_of(old(out)@).push(
            (StoreModel { offset: offset as int, bytes: u64_le(v), release }),
        ),
{
    let mut bytes: Vec<u8> = Vec::new();
    put_u64(&mut bytes, v);
    push_bytes(out, offset, bytes, release);
}

/// Append a store of some bytes.
pub fn push_bytes(out: &mut Vec<Store>, offset: usize, bytes: Vec<u8>, release: bool)
    ensures
        stores_of(final(out)@) == stores_of(old(out)@).push(
            (StoreModel { offset: offset as int, bytes: bytes@, release }),
        ),
{
    out.push(Store { offset, bytes, release });
    assert(stores_of(out@) =~= stores_of(old(out)@).push(
        (StoreModel { offset: offset as int, bytes: bytes@, release }),
    ));
}

/// Make a zeroed section a ring.
pub fn ring_created(slot_count: u32, qpc_frequency: u64, now_qpc: u64) -> (r: Vec<Store>)
    ensures
        stores_of(r@) == creation_stores(slot_count, qpc_frequency, now_qpc),
{
    let mut out: Vec<Store> = Vec::new();
    assert(stores_of(out@) =~= Seq::empty());
    push_u32(&mut out, VERSION_AT, RING_HEADER_VERSION, false);
    push_u32(&mut out, GENERATION_AT, 1, false);
    push_u32(&mut out, SLOT_COUNT_AT, slot_count, false);
    push_u64(&mut out, FREQUENCY_AT, qpc_frequency, false);
    push_u64(&mut out, HEARTBEAT_AT, now_qpc, false);
    push_u32(&mut out, STATE_AT, ring_state::ACTIVE, true);
    push_u32(&mut out, MAGIC_AT, RING_MAGIC, false);
    out
}

/// Change the state of the ring.
pub fn set_state(state: u32) -> (r: Vec<Store>)
    ensures
        stores_of(r@) == seq![releasing(STATE_AT as int, u32_le(state))],
{
    let mut out: Vec<Store> = Vec::new();
    push_u32(&mut out, STATE_AT, state, true);
    assert(stores_of(out@) =~= seq![releasing(STATE_AT as int, u32_le(state))]);
    out
}

/// Announce another generation of textures.
pub fn set_generation(generation: u32) -> (r: Vec<Store>)
    ensures
        stores_of(r@) == seq![plain(GENERATION_AT as int, u32_le(generation))],
{
    let mut out: Vec<Store> = Vec::new();
    push_u32(&mut out, GENERATION_AT, generation, false);
    assert(stores_of(out@) =~= seq![plain(GENERATION_AT as int, u32_le(generation))]);
    out
}

/// Show that the driver is alive.
pub fn heartbeat(now_qpc: u64) -> (r: Vec<Store>)
    ensures
        stores_of(r@) == seq![plain(HEARTBEAT_AT as int, u64_le(now_qpc))],
{
    let mut out: Vec<Store> = Vec::new();
    push_u64(&mut out, HEARTBEAT_AT, now_qpc, false);
    assert(stores_of(out@) =~= seq![plain(HEARTBEAT_AT as int, u64_le(now_qpc))]);
    out
}

/// Hand a slot back without a frame.
pub fn reset_slot_free(index: usize) -> (r: Vec<Store>)
    requires
        index < ABI_MAX_RING_SLOTS,
    ensures
        stores_of(r@) == seq![releasing(slot_start(index as int), u32_le(slot_state::FREE))],
{
    let mut out: Vec<Store> = Vec::new();
    push_u32(&mut out, slot_offset(index), slot_state::FREE, true);
    assert(stores_of(out@) =~= seq![
        releasing(slot_start(index as int), u32_le(slot_state::FREE)),
    ]);
    out
}

/// Hand every slot back.
pub fn reset_slots(slot_count: usize) -> (r: Vec<Store>)
    requires
        slot_count <= ABI_MAX_RING_SLOTS,
    ensures
        stores_of(r@) == Seq::new(
            slot_count as nat,
            |i: int| releasing(slot_start(i), u32_le(slot_state::FREE)),
        ),
{
    let mut out: Vec<Store> = Vec::new();
    let mut i: usize = 0;
    assert(stores_of(out@) =~= Seq::new(
        0,
        |i: int| releasing(slot_start(i), u32_le(slot_state::FREE)),
    ));
    while i < slot_count
        invariant
            i <= slot_count <= ABI_MAX_RING_SLOTS,
            stores_of(out@) == Seq::new(
                i as nat,
                |i: int| releasing(slot_start(i), u32_le(slot_state::FREE)),
            ),
        decreases slot_count - i,
    {
        push_u32(&mut out, slot_offset(i), slot_state::FREE, true);
        i += 1;
        assert(stores_of(out@) =~= Seq::new(
            i as nat,
            |i: int| releasing(slot_start(i), u32_le(slot_state::FREE)),
        ));
    }
    out
}

/// Publish a frame: its slot first, the counters after it.
pub fn slot_published(p: Publication, now_qpc: u64) -> (r: Vec<Store>)
    requires
        p.index < ABI_MAX_RING_SLOTS,
    ensures
        stores_of(r@) == publication_stores(p, now_qpc),
{
    let at: usize = slot_offset(p.index);
    let mut out: Vec<Store> = Vec::new();
    assert(stores_of(out@) =~= Seq::empty());
    let hdr = Hdr10StaticMetadata {
        red_primary: [0, 0],
        green_primary: [0, 0],
        blue_primary: [0, 0],
        white_point: [0, 0],
        max_mastering_luminance: 0,
        min_mastering_luminance: 0,
        max_content_light_level: 0,
        max_frame_average_light_level: 0,
    };
    let rect = RectU32 { left: 0, top: 0, right: 0, bottom: 0 };
    push_u64(&mut out, at + SLOT_SEQUENCE_AT, p.sequence, false);
    push_u64(&mut out, at + SLOT_PRESENT_AT, p.present_qpc, false);
    push_u32(&mut out, at + SLOT_FLAGS_AT, 0, false);
    push_bytes(&mut out, at + SLOT_HDR_AT, hdr.to_bytes(), false);
    push_u32(&mut out, at + SLOT_DIRTY_COUNT_AT, 0, false);
    push_bytes(&mut out, at + SLOT_DIRTY_BOUND_AT, rect.to_bytes(), false);
    push_u32(&mut out, at, slot_state::PUBLISHED, true);
    proof {
        assert(hdr.red_primary@ =~= no_hdr().red_primary@);
        assert(hdr.green_primary@ =~= no_hdr().green_primary@);
        assert(hdr.blue_primary@ =~= no_hdr().blue_primary@);
        assert(hdr.white_point@ =~= no_hdr().white_point@);
        assert(stores_of(out@) =~= slot_stores(p));
    }
    push_u64(&mut out, LATEST_SEQUENCE_AT, p.sequence, true);
    push_u64(&mut out, LATEST_PRESENT_AT, p.present_qpc, false);
    push_u64(&mut out, PUBLISHED_AT, p.frames_published, false);
    push_u64(&mut out, DROPPED_AT, p.frames_dropped, false);
    push_u64(&mut out, HEARTBEAT_AT, now_qpc, false);
    out
}

/// One more store at the end.
pub proof fn lemma_stored_push(mem: Seq<u8>, stores: Seq<StoreModel>, s: StoreModel)
    ensures
        stored_all(mem, stores.push(s)) == stored(stored_all(mem, stores), s),
{
    assert(stores.push(s).drop_last() =~= stores);
}

/// A store that fits keeps the size, and keeps what it misses.
pub proof fn lemma_stored(mem: Seq<u8>, s: StoreModel)
    requires
        s.fits(mem.len() as int),
    ensures
        stored(mem, s).len() == mem.len(),
        forall|from: int, to: int|
            0 <= from <= to <= mem.len() && s.misses(from, to) ==> #[trigger] stored(
                mem,
                s,
            ).subrange(from, to) == mem.subrange(from, to),
{
    let now = stored(mem, s);
    assert forall|from: int, to: int|
        0 <= from <= to <= mem.len() && s.misses(from, to) implies #[trigger] now.subrange(
        from,
        to,
    ) == mem.subrange(from, to) by {
        assert(now.subrange(from, to) =~= mem.subrange(from, to));
    }
}

/// Stores that all fit keep the size, and keep what they all miss.
pub proof fn lemma_stored_all(mem: Seq<u8>, stores: Seq<StoreModel>, from: int, to: int)
    requires
        0 <= from <= to <= mem.len(),
        forall|i: int| 0 <= i < stores.len() ==> (#[trigger] stores[i]).fits(mem.len() as int),
        forall|i: int| 0 <= i < stores.len() ==> (#[trigger] stores[i]).misses(from, to),
    ensures
        stored_all(mem, stores).len() == mem.len(),
        stored_all(mem, stores).subrange(from, to) == mem.subrange(from, to),
    decreases stores.len(),
{
    if stores.len() > 0 {
        let front = stores.drop_last();
        assert forall|i: int| 0 <= i < front.len() implies (#[trigger] front[i]).fits(
            mem.len() as int,
        ) && front[i].misses(from, to) by {
            assert(front[i] == stores[i]);
        }
        lemma_stored_all(mem, front, from, to);
        lemma_stored(stored_all(mem, front), stores.last());
    }
}

/// A field of the header is replaced by a store at its place.
proof fn lemma_header_fields(mem: Seq<u8>, h: RingHeader, a: u32, b: u64)
    requires
        header_in(mem, h),
    ensures
        header_in(stored(mem, plain(MAGIC_AT as int, u32_le(a))), RingHeader { magic: a, ..h }),
        header_in(
            stored(mem, plain(VERSION_AT as int, u32_le(a))),
            RingHeader { header_version: a, ..h },
        ),
        header_in(
            stored(mem, plain(GENERATION_AT as int, u32_le(a))),
            RingHeader { ring_generation: a, ..h },
        ),
        header_in(
            stored(mem, plain(SLOT_COUNT_AT as int, u32_le(a))),
            RingHeader { slot_count: a, ..h },
        ),
        header_in(stored(mem, releasing(STATE_AT as int, u32_le(a))), RingHeader { state: a, ..h }),
        header_in(
            stored(mem, releasing(LATEST_SEQUENCE_AT as int, u64_le(b))),
            RingHeader { latest_sequence: b, ..h },
        ),
        header_in(
            stored(mem, plain(LATEST_PRESENT_AT as int, u64_le(b))),
            RingHeader { latest_present_qpc: b, ..h },
        ),
        header_in(
            stored(mem, plain(PUBLISHED_AT as int, u64_le(b))),
            RingHeader { frames_published: b, ..h },
        ),
        header_in(
            stored(mem, plain(DROPPED_AT as int, u64_le(b))),
            RingHeader { frames_dropped: b, ..h },
        ),
        header_in(
            stored(mem, plain(HEARTBEAT_AT as int, u64_le(b))),
            RingHeader { driver_heartbeat_qpc: b, ..h },
        ),
        header_in(
            stored(mem, plain(FREQUENCY_AT as int, u64_le(b))),
            RingHeader { qpc_frequency: b, ..h },
        ),
{
    assert(mem.take(72) == h.wire());
    assert forall|i: int| 0 <= i < 72 implies #[trigger] mem[i] == h.wire()[i] by {
        assert(mem.take(72)[i] == mem[i]);
    }
    assert(stored(mem, plain(0, u32_le(a))).take(72) =~= (RingHeader { magic: a, ..h }).wire());
    assert(stored(mem, plain(4, u32_le(a))).take(72) =~= (RingHeader {
        header_version: a,
        ..h
    }).wire());
    assert(stored(mem, plain(8, u32_le(a))).take(72) =~= (RingHeader {
        ring_generation: a,
        ..h
    }).wire());
    assert(stored(mem, plain(12, u32_le(a))).take(72) =~= (RingHeader { slot_count: a, ..h }).wire());
    assert(stored(mem, releasing(16, u32_le(a))).take(72) =~= (RingHeader { state: a, ..h }).wire());
    assert(stored(mem, releasing(24, u64_le(b))).take(72) =~= (RingHeader {
        latest_sequence: b,
        ..h
    }).wire());
    assert(stored(mem, plain(32, u64_le(b))).take(72) =~= (RingHeader {
        latest_present_qpc: b,
        ..h
    }).wire());
    assert(stored(mem, plain(40, u64_le(b))).take(72) =~= (RingHeader {
        frames_published: b,
        ..h
    }).wire());
    assert(stored(mem, plain(48, u64_le(b))).take(72) =~= (RingHeader {
        frames_dropped: b,
        ..h
    }).wire());
    assert(stored(mem, plain(56, u64_le(b))).take(72) =~= (RingHeader {
        driver_heartbeat_qpc: b,
        ..h
    }).wire());
    assert(stored(mem, plain(64, u64_le(b))).take(72) =~= (RingHeader {
        qpc_frequency: b,
        ..h
    }).wire());
}

/// A field of a slot is replaced by a store at its place.
proof fn lemma_slot_fields(
    mem: Seq<u8>,
    index: int,
    m: SlotMetadata,
    a: u32,
    b: u64,
    hdr: Hdr10StaticMetadata,
    rect: RectU32,
)
    requires
        slot_in(mem, index, m),
    ensures
        ({
            let at = slot_start(index);
            &&& slot_in(stored(mem, releasing(at, u32_le(a))), index, SlotMetadata { state: a, ..m })
            &&& slot_in(
                stored(mem, plain(at + SLOT_FLAGS_AT, u32_le(a))),
                index,
                SlotMetadata { flags: a, ..m },
            )
            &&& slot_in(
                stored(mem, plain(at + SLOT_SEQUENCE_AT, u64_le(b))),
                index,
                SlotMetadata { sequence: b, ..m },
            )
            &&& slot_in(
                stored(mem, plain(at + SLOT_PRESENT_AT, u64_le(b))),
                index,
                SlotMetadata { present_qpc: b, ..m },
            )
            &&& slot_in(
                stored(mem, plain(at + SLOT_HDR_AT, hdr.wire())),
                index,
                SlotMetadata { hdr, ..m },
            )
            &&& slot_in(
                stored(mem, plain(at + SLOT_DIRTY_COUNT_AT, u32_le(a))),
                index,
                SlotMetadata { dirty_count: a, ..m },
            )
            &&& slot_in(
                stored(mem, plain(at + SLOT_DIRTY_BOUND_AT, rect.wire())),
                index,
                SlotMetadata { dirty_bound: rect, ..m },
            )
        }),
{
    let at = slot_start(index);
    m.hdr.lemma_wire_len();
    hdr.lemma_wire_len();
    m.dirty_bound.lemma_wire_len();
    rect.lemma_wire_len();
    lemma_u32s_le_len(m.reserved@);
    let was = mem.subrange(at, at + 80);
    assert(was == m.wire());
    assert forall|i: int| 0 <= i < 80 implies #[trigger] mem[at + i] == m.wire()[i] by {
        assert(was[i] == mem[at + i]);
    }
    lemma_slot_piece(mem, at, releasing(at, u32_le(a)));
    lemma_slot_piece(mem, at, plain(at + 4, u32_le(a)));
    lemma_slot_piece(mem, at, plain(at + 8, u64_le(b)));
    lemma_slot_piece(mem, at, plain(at + 16, u64_le(b)));
    lemma_slot_piece(mem, at, plain(at + 24, hdr.wire()));
    lemma_slot_piece(mem, at, plain(at + 52, u32_le(a)));
    lemma_slot_piece(mem, at, plain(at + 56, rect.wire()));
    assert(stored(was, plain(0, u32_le(a))) =~= (SlotMetadata { state: a, ..m }).wire());
    assert(stored(was, plain(4, u32_le(a))) =~= (SlotMetadata { flags: a, ..m }).wire());
    assert(stored(was, plain(8, u64_le(b))) =~= (SlotMetadata { sequence: b, ..m }).wire());
    assert(stored(was, plain(16, u64_le(b))) =~= (SlotMetadata { present_qpc: b, ..m }).wire());
    assert(stored(was, plain(24, hdr.wire())) =~= (SlotMetadata { hdr, ..m }).wire());
    assert(stored(was, plain(52, u32_le(a))) =~= (SlotMetadata { dirty_count: a, ..m }).wire());
    assert(stored(was, plain(56, rect.wire())) =~= (SlotMetadata { dirty_bound: rect, ..m }).wire());
}

/// A store inside a slot, seen from the slot's start.
proof fn lemma_slot_piece(mem: Seq<u8>, at: int, s: StoreModel)
    requires
        0 <= at,
        at + 80 <= mem.len(),
        at <= s.offset,
        s.end() <= at + 80,
    ensures
        stored(mem, s).len() == mem.len(),
        stored(mem, s).subrange(at, at + 80) == stored(
            mem.subrange(at, at + 80),
            plain(s.offset - at, s.bytes),
        ),
{
    assert(stored(mem, s).subrange(at, at + 80) =~= stored(
        mem.subrange(at, at + 80),
        plain(s.offset - at, s.bytes),
    ));
}

/// The header of a section that is all zeros.
pub open spec fn blank_header() -> RingHeader {
    RingHeader {
        magic: 0,
        header_version: 0,
        ring_generation: 0,
        slot_count: 0,
        state: 0,
        reserved0: 0,
        latest_sequence: 0,
        latest_present_qpc: 0,
        frames_published: 0,
        frames_dropped: 0,
        driver_heartbeat_qpc: 0,
        qpc_frequency: 0,
    }
}

/// Zeros encode zero.
pub proof fn lemma_zeros()
    ensures
        u32_le(0) == Seq::new(4, |i: int| 0u8),
        u64_le(0) == Seq::new(8, |i: int| 0u8),
{
    reveal(u16_le);
    reveal(u32_le);
    reveal(u64_le);
    assert(u32_le(0) =~= Seq::new(4, |i: int| 0u8));
    assert(u64_le(0) =~= Seq::new(8, |i: int| 0u8));
}

/// The stores of a new section turn zeros into a valid header and leave the slots
/// free. The magic is the last of them: as long as it is missing, the rest of the
/// header may be too.
pub proof fn law_section_is_complete_when_marked(
    mem: Seq<u8>,
    slot_count: u32,
    qpc_frequency: u64,
    now_qpc: u64,
)
    requires
        mem.len() >= RING_SLOTS_OFFSET,
        forall|i: int| 0 <= i < mem.len() ==> #[trigger] mem[i] == 0,
    ensures
        ({
            let stores = creation_stores(slot_count, qpc_frequency, now_qpc);
            let now = stored_all(mem, stores);
            &&& header_in(now, fresh_header(slot_count, qpc_frequency, now_qpc))
            &&& now.skip(RING_SLOTS_OFFSET as int) == mem.skip(RING_SLOTS_OFFSET as int)
            &&& forall|k: int|
                0 <= k < stores.len() ==> (#[trigger] stored_all(mem, stores.take(k))).subrange(
                    MAGIC_AT as int,
                    MAGIC_AT + 4,
                ) == u32_le(0)
        }),
{
    let stores = creation_stores(slot_count, qpc_frequency, now_qpc);
    lemma_zeros();
    assert(mem.take(72) =~= blank_header().wire());
    assert forall|k: int| 0 <= k < stores.len() implies (#[trigger] stored_all(
        mem,
        stores.take(k),
    )).subrange(0, 4) == u32_le(0) by {
        lemma_stored_all(mem, stores.take(k), 0, 4);
        assert(mem.subrange(0, 4) =~= u32_le(0));
    }
    lemma_stored_all(mem, stores, 128, mem.len() as int);
    assert(mem.subrange(128, mem.len() as int) =~= mem.skip(128));
    assert(stored_all(mem, stores).subrange(128, mem.len() as int) =~= stored_all(mem, stores).skip(
        128,
    ));
    let h0 = blank_header();
    let h1 = RingHeader { header_version: RING_HEADER_VERSION, ..h0 };
    let h2 = RingHeader { ring_generation: 1, ..h1 };
    let h3 = RingHeader { slot_count, ..h2 };
    let h4 = RingHeader { qpc_frequency, ..h3 };
    let h5 = RingHeader { driver_heartbeat_qpc: now_qpc, ..h4 };
    let h6 = RingHeader { state: ring_state::ACTIVE, ..h5 };
    let s0 = Seq::<StoreModel>::empty();
    let s1 = s0.push(stores[0]);
    let s2 = s1.push(stores[1]);
    let s3 = s2.push(stores[2]);
    let s4 = s3.push(stores[3]);
    let s5 = s4.push(stores[4]);
    let s6 = s5.push(stores[5]);
    assert(s6.push(stores[6]) =~= stores);
    lemma_stored_push(mem, s0, stores[0]);
    lemma_stored_push(mem, s1, stores[1]);
    lemma_stored_push(mem, s2, stores[2]);
    lemma_stored_push(mem, s3, stores[3]);
    lemma_stored_push(mem, s4, stores[4]);
    lemma_stored_push(mem, s5, stores[5]);
    lemma_stored_push(mem, s6, stores[6]);
    lemma_header_fields(mem, h0, RING_HEADER_VERSION, 0);
    lemma_header_fields(stored_all(mem, s1), h1, 1, 0);
    lemma_header_fields(stored_all(mem, s2), h2, slot_count, 0);
    lemma_header_fields(stored_all(mem, s3), h3, 0, qpc_frequency);
    lemma_header_fields(stored_all(mem, s4), h4, 0, now_qpc);
    lemma_header_fields(stored_all(mem, s5), h5, ring_state::ACTIVE, 0);
    lemma_header_fields(stored_all(mem, s6), h6, RING_MAGIC, 0);
}

/// Publishing a frame puts its metadata into its slot and its numbers into the
/// header, and leaves every other slot alone. The slot says published only once
/// everything else in it is there, and the header names the frame only after that.
pub proof fn law_frame_is_complete_when_published(
    mem: Seq<u8>,
    h: RingHeader,
    m: SlotMetadata,
    p: Publication,
    now_qpc: u64,
)
    requires
        header_in(mem, h),
        slot_in(mem, p.index as int, m),
    ensures
        ({
            let now = stored_all(mem, publication_stores(p, now_qpc));
            &&& header_in(now, published_header(h, p, now_qpc))
            &&& slot_in(now, p.index as int, published_slot(m, p))
            &&& forall|j: int, n: SlotMetadata|
                j != p.index && #[trigger] slot_in(mem, j, n) ==> slot_in(now, j, n)
        }),
        forall|k: int|
            0 <= k < 6 ==> (#[trigger] stored_all(
                mem,
                publication_stores(p, now_qpc).take(k),
            )).subrange(slot_start(p.index as int), slot_start(p.index as int) + 4) == mem.subrange(
                slot_start(p.index as int),
                slot_start(p.index as int) + 4,
            ),
        forall|k: int|
            0 <= k <= 7 ==> header_in(
                #[trigger] stored_all(mem, publication_stores(p, now_qpc).take(k)),
                h,
            ),
        publication_stores(p, now_qpc)[6].release,
        publication_stores(p, now_qpc)[7].release,
{
    let index = p.index as int;
    let at = slot_start(index);
    let stores = publication_stores(p, now_qpc);
    let s = slot_stores(p);
    no_hdr().lemma_wire_len();
    no_rect().lemma_wire_len();
    assert forall|k: int| 0 <= k < 6 implies (#[trigger] stored_all(mem, stores.take(k))).subrange(
        at,
        at + 4,
    ) == mem.subrange(at, at + 4) by {
        lemma_stored_all(mem, stores.take(k), at, at + 4);
    }
    assert forall|k: int| 0 <= k <= 7 implies header_in(
        #[trigger] stored_all(mem, stores.take(k)),
        h,
    ) by {
        lemma_stored_all(mem, stores.take(k), 0, 72);
        assert(stored_all(mem, stores.take(k)).take(72) =~= stored_all(mem, stores.take(k)).subrange(
            0,
            72,
        ));
        assert(mem.take(72) =~= mem.subrange(0, 72));
    }
    let now = stored_all(mem, stores);
    assert forall|j: int, n: SlotMetadata| j != index && #[trigger] slot_in(mem, j, n) implies slot_in(
        now,
        j,
        n,
    ) by {
        assert(slot_start(j) + 80 <= at || at + 80 <= slot_start(j));
        lemma_stored_all(mem, stores, slot_start(j), slot_start(j) + 80);
    }
    let m1 = SlotMetadata { sequence: p.sequence, ..m };
    let m2 = SlotMetadata { present_qpc: p.present_qpc, ..m1 };
    let m3 = SlotMetadata { flags: 0, ..m2 };
    let m4 = SlotMetadata { hdr: no_hdr(), ..m3 };
    let m5 = SlotMetadata { dirty_count: 0, ..m4 };
    let m6 = SlotMetadata { dirty_bound: no_rect(), ..m5 };
    let m7 = SlotMetadata { state: slot_state::PUBLISHED, ..m6 };
    assert(m7 == published_slot(m, p));
    let s0 = Seq::<StoreModel>::empty();
    let s1 = s0.push(s[0]);
    let s2 = s1.push(s[1]);
    let s3 = s2.push(s[2]);
    let s4 = s3.push(s[3]);
    let s5 = s4.push(s[4]);
    let s6 = s5.push(s[5]);
    assert(s6.push(s[6]) =~= s);
    lemma_stored_push(mem, s0, s[0]);
    lemma_stored_push(mem, s1, s[1]);
    lemma_stored_push(mem, s2, s[2]);
    lemma_stored_push(mem, s3, s[3]);
    lemma_stored_push(mem, s4, s[4]);
    lemma_stored_push(mem, s5, s[5]);
    lemma_stored_push(mem, s6, s[6]);
    lemma_slot_fields(mem, index, m, 0, p.sequence, no_hdr(), no_rect());
    lemma_slot_fields(stored_all(mem, s1), index, m1, 0, p.present_qpc, no_hdr(), no_rect());
    lemma_slot_fields(stored_all(mem, s2), index, m2, 0, 0, no_hdr(), no_rect());
    lemma_slot_fields(stored_all(mem, s3), index, m3, 0, 0, no_hdr(), no_rect());
    lemma_slot_fields(stored_all(mem, s4), index, m4, 0, 0, no_hdr(), no_rect());
    lemma_slot_fields(stored_all(mem, s5), index, m5, 0, 0, no_hdr(), no_rect());
    lemma_slot_fields(
        stored_all(mem, s6),
        index,
        m6,
        slot_state::PUBLISHED,
        0,
        no_hdr(),
        no_rect(),
    );
    assert(slot_in(stored_all(mem, s), index, m7));
    let mid = stored_all(mem, s);
    assert(stores.take(7) =~= s);
    assert(header_in(mid, h));
    let h1 = RingHeader { latest_sequence: p.sequence, ..h };
    let h2 = RingHeader { latest_present_qpc: p.present_qpc, ..h1 };
    let h3 = RingHeader { frames_published: p.frames_published, ..h2 };
    let h4 = RingHeader { frames_dropped: p.frames_dropped, ..h3 };
    let s8 = s.push(stores[7]);
    let s9 = s8.push(stores[8]);
    let s10 = s9.push(stores[9]);
    let s11 = s10.push(stores[10]);
    assert(s11.push(stores[11]) =~= stores);
    lemma_stored_push(mem, s, stores[7]);
    lemma_stored_push(mem, s8, stores[8]);
    lemma_stored_push(mem, s9, stores[9]);
    lemma_stored_push(mem, s10, stores[10]);
    lemma_stored_push(mem, s11, stores[11]);
    lemma_header_fields(mid, h, 0, p.sequence);
    lemma_header_fields(stored_all(mem, s8), h1, 0, p.present_qpc);
    lemma_header_fields(stored_all(mem, s9), h2, 0, p.frames_published);
    lemma_header_fields(stored_all(mem, s10), h3, 0, p.frames_dropped);
    lemma_header_fields(stored_all(mem, s11), h4, 0, now_qpc);
    lemma_stored(mid, stores[7]);
    lemma_stored(stored_all(mem, s8), stores[8]);
    lemma_stored(stored_all(mem, s9), stores[9]);
    lemma_stored(stored_all(mem, s10), stores[10]);
    lemma_stored(stored_all(mem, s11), stores[11]);
    assert(slot_in(now, index, m7));
}

/// A change of state, generation or heartbeat changes that field of the header and
/// nothing else; freeing a slot changes the state of that slot and nothing else.
pub proof fn law_single_stores_change_one_field(
    mem: Seq<u8>,
    h: RingHeader,
    index: int,
    m: SlotMetadata,
    a: u32,
    b: u64,
)
    requires
        header_in(mem, h),
        slot_in(mem, index, m),
    ensures
        ({
            let state = stored(mem, releasing(STATE_AT as int, u32_le(a)));
            let generation = stored(mem, plain(GENERATION_AT as int, u32_le(a)));
            let beat = stored(mem, plain(HEARTBEAT_AT as int, u64_le(b)));
            let freed = stored(mem, releasing(slot_start(index), u32_le(slot_state::FREE)));
            &&& header_in(state, RingHeader { state: a, ..h }) && slot_in(state, index, m)
            &&& header_in(generation, RingHeader { ring_generation: a, ..h }) && slot_in(
                generation,
                index,
                m,
            )
            &&& header_in(beat, RingHeader { driver_heartbeat_qpc: b, ..h }) && slot_in(
                beat,
                index,
                m,
            )
            &&& header_in(freed, h) && slot_in(
                freed,
                index,
                SlotMetadata { state: slot_state::FREE, ..m },
            )
            &&& forall|j: int, n: SlotMetadata|
                j != index && #[trigger] slot_in(mem, j, n) ==> slot_in(freed, j, n)
        }),
{
    lemma_header_fields(mem, h, a, b);
    lemma_slot_fields(mem, index, m, slot_state::FREE, 0, no_hdr(), no_rect());
    lemma_stored(mem, releasing(STATE_AT as int, u32_le(a)));
    lemma_stored(mem, plain(GENERATION_AT as int, u32_le(a)));
    lemma_stored(mem, plain(HEARTBEAT_AT as int, u64_le(b)));
    let s = releasing(slot_start(index), u32_le(slot_state::FREE));
    lemma_stored(mem, s);
    let freed = stored(mem, s);
    assert(freed.take(72) =~= freed.subrange(0, 72));
    assert(mem.take(72) =~= mem.subrange(0, 72));
    assert forall|j: int, n: SlotMetadata| j != index && #[trigger] slot_in(mem, j, n) implies slot_in(
        freed,
        j,
        n,
    ) by {
        assert(slot_start(j) + 80 <= slot_start(index) || slot_start(index) + 80 <= slot_start(j));
    }
}

/// The state word of a slot within one generation, and who holds the slot.
pub struct SlotWord {
    pub word: u32,
    /// The driver is writing.
    pub driver: bool,
    /// The host is reading.
    pub host: bool,
}

/// What the two sides do to a state word. `Take` and `Claim` exchange it only if it still
/// is what they expect.
pub enum SlotStep {
    /// The driver marks the slot as being written.
    Take { expected: u32 },
    /// The driver stores that a frame is complete.
    Publish,
    /// The driver stores that the slot is free again.
    GiveBack,
    /// The host marks a published slot as its own.
    Claim,
    /// The host stores that the slot is free again.
    Release,
}

impl SlotWord {
    /// The word says who holds the slot.
    pub open spec fn wf(self) -> bool {
        self.driver == (self.word == slot_state::WRITING) && self.host == (self.word
            == slot_state::READING)
    }

    /// The step is one that side may take now: the driver expects a free or published
    /// slot, and only a holder stores.
    pub open spec fn allows(self, step: SlotStep) -> bool {
        match step {
            SlotStep::Take { expected } => expected == slot_state::FREE || expected
                == slot_state::PUBLISHED,
            SlotStep::Publish => self.driver,
            SlotStep::GiveBack => self.driver,
            SlotStep::Claim => true,
            SlotStep::Release => self.host,
        }
    }

    pub open spec fn after(self, step: SlotStep) -> SlotWord {
        match step {
            SlotStep::Take { expected } => if self.word == expected {
                SlotWord { word: slot_state::WRITING, driver: true, ..self }
            } else {
                self
            },
            SlotStep::Publish => SlotWord { word: slot_state::PUBLISHED, driver: false, ..self },
            SlotStep::GiveBack => SlotWord { word: slot_state::FREE, driver: false, ..self },
            SlotStep::Claim => if self.word == slot_state::PUBLISHED {
                SlotWord { word: slot_state::READING, host: true, ..self }
            } else {
                self
            },
            SlotStep::Release => SlotWord { word: slot_state::FREE, host: false, ..self },
        }
    }
}

/// A slot never has two holders, whatever the two sides do and in whatever order; no step
/// of one side takes the slot from the other; and of a driver and a host that want the
/// same published frame, the first gets it and the second finds out.
pub proof fn law_slot_has_one_holder(s: SlotWord, step: SlotStep)
    requires
        s.wf(),
        s.allows(step),
    ensures
        s.after(step).wf(),
        !(s.after(step).driver && s.after(step).host),
        s.host && !(step is Release) ==> s.after(step).host,
        s.driver && !(step is Publish) && !(step is GiveBack) ==> s.after(step).driver,
        s.word == slot_state::PUBLISHED ==> {
            let take = SlotStep::Take { expected: slot_state::PUBLISHED };
            let taken = s.after(take);
            let claimed = s.after(SlotStep::Claim);
            &&& taken.driver && taken.after(SlotStep::Claim) == taken
            &&& claimed.host && claimed.after(take) == claimed
        },
{
}

/// What a host finds in a section that was just made of zeros.
pub proof fn law_new_section_reads(mem: Seq<u8>, slot_count: u32, qpc_frequency: u64, now_qpc: u64)
    requires
        mem.len() >= 128,
        forall|i: int| 0 <= i < mem.len() ==> #[trigger] mem[i] == 0,
    ensures
        ({
            let now = stored_all(mem, creation_stores(slot_count, qpc_frequency, now_qpc));
            &&& u32_at(now, 0) == 0x4C56_4752
            &&& u32_at(now, 4) == 1
            &&& u32_at(now, 8) == 1
            &&& u32_at(now, 12) == slot_count
            &&& u32_at(now, 16) == 1
            &&& u32_at(now, 20) == 0
            &&& u64_at(now, 24) == 0
            &&& u64_at(now, 32) == 0
            &&& u64_at(now, 40) == 0
            &&& u64_at(now, 48) == 0
            &&& u64_at(now, 56) == now_qpc
            &&& u64_at(now, 64) == qpc_frequency
        }),
{
    let now = stored_all(mem, creation_stores(slot_count, qpc_frequency, now_qpc));
    let h = fresh_header(slot_count, qpc_frequency, now_qpc);
    law_section_is_complete_when_marked(mem, slot_count, qpc_frequency, now_qpc);
    law_ring_header_layout(h);
    lemma_header_reads(now, h);
}

proof fn lemma_header_reads(mem: Seq<u8>, h: RingHeader)
    requires
        header_in(mem, h),
    ensures
        forall|k: int| 0 <= k <= 68 ==> #[trigger] u32_at(mem, k) == u32_at(h.wire(), k),
        forall|k: int| 0 <= k <= 64 ==> #[trigger] u64_at(mem, k) == u64_at(h.wire(), k),
{
    let w = mem.take(72);
    assert forall|i: int| 0 <= i < 72 implies #[trigger] mem[i] == h.wire()[i] by {
        assert(w[i] == mem[i]);
    }
}

/// What a host finds once a frame is published: in the frame's slot the state, the number
/// and the time of the frame and nothing that the driver does not report; in the header
/// the number and time of the frame and the counters; everything else as before.
pub proof fn law_published_frame_reads(
    mem: Seq<u8>,
    h: RingHeader,
    m: SlotMetadata,
    p: Publication,
    now_qpc: u64,
)
    requires
        header_in(mem, h),
        slot_in(mem, p.index as int, m),
    ensures
        ({
            let now = stored_all(mem, publication_stores(p, now_qpc));
            let at = 128 + 80 * p.index;
            &&& u32_at(now, at) == 2
            &&& u32_at(now, at + 4) == 0
            &&& u64_at(now, at + 8) == p.sequence
            &&& u64_at(now, at + 16) == p.present_qpc
            &&& u32_at(now, at + 52) == 0
            &&& u64_at(now, 24) == p.sequence
            &&& u64_at(now, 32) == p.present_qpc
            &&& u64_at(now, 40) == p.frames_published
            &&& u64_at(now, 48) == p.frames_dropped
            &&& u64_at(now, 56) == now_qpc
            &&& u32_at(now, 0) == h.magic
            &&& u32_at(now, 4) == h.header_version
            &&& u32_at(now, 8) == h.ring_generation
            &&& u32_at(now, 12) == h.slot_count
            &&& u32_at(now, 16) == h.state
            &&& u64_at(now, 64) == h.qpc_frequency
        }),
{
    let now = stored_all(mem, publication_stores(p, now_qpc));
    let at = 128 + 80 * p.index;
    let (hh, mm) = (published_header(h, p, now_qpc), published_slot(m, p));
    law_frame_is_complete_when_published(mem, h, m, p, now_qpc);
    law_ring_header_layout(hh);
    law_slot_metadata_layout(mm);
    lemma_header_reads(now, hh);
    let w = now.subrange(at, at + 80);
    assert forall|i: int| 0 <= i < 80 implies #[trigger] w[i] == now[at + i] by {}
    assert(w == mm.wire());
    assert(u32_at(w, 0) == u32_at(now, at) && u32_at(w, 4) == u32_at(now, at + 4) && u64_at(w, 8)
        == u64_at(now, at + 8) && u64_at(w, 16) == u64_at(now, at + 16) && u32_at(w, 52) == u32_at(
        now,
        at + 52,
    ));
}

} // verus!
