//! The hardware cursor: which shapes are taken over, and what is stored into the
//! cursor section.
//!
//! The generation of the section is odd while a shape is being written. A host that
//! reads the same even generation before and after it copied the shape has a whole one.
use vstd::arithmetic::div_mod::lemma_fundamental_div_mod_converse;
use vstd::prelude::*;

use crate::proto::cursor_kind;
use crate::proto::layout::law_cursor_header_layout;
use crate::proto::sections::{CursorHeader, CURSOR_HEADER_SIZE};
use crate::proto::wire::{
    i32_at, i32_le, lemma_u32_le_injective, put_i32, u32_at, u32_le, u64_at, u64_le,
};
use crate::proto::{CURSOR_HEADER_VERSION, CURSOR_MAGIC, CURSOR_MAX_DIM, CURSOR_SHAPE_OFFSET};
use crate::shell::sections::{
    lemma_stored, lemma_stored_all, lemma_stored_push, lemma_zeros, plain, push_bytes, push_u32,
    push_u64, releasing, stored, stored_all, stores_of, Store, StoreModel,
};

verus! {

broadcast use crate::proto::wire::group_le_len;

/// Where the fields of a cursor header stand.
pub const CURSOR_MAGIC_AT: usize = 0;

pub const CURSOR_VERSION_AT: usize = 4;

pub const CURSOR_GENERATION_AT: usize = 8;

pub const CURSOR_WIDTH_AT: usize = 12;

pub const CURSOR_HEIGHT_AT: usize = 16;

pub const CURSOR_HOTSPOT_X_AT: usize = 20;

pub const CURSOR_HOTSPOT_Y_AT: usize = 24;

pub const CURSOR_KIND_AT: usize = 28;

pub const CURSOR_X_AT: usize = 32;

pub const CURSOR_Y_AT: usize = 36;

pub const CURSOR_VISIBLE_AT: usize = 40;

pub const CURSOR_POSITION_QPC_AT: usize = 48;

/// When the hardware cursor is set up: while the monitor is attached, or once a
/// swap chain is assigned to it.
pub const PHASE_PLUG: u32 = 0;

pub const PHASE_ASSIGN: u32 = 1;

/// What the driver claims of cursors that invert the pixels under them.
#[derive(Clone, Copy, Debug, PartialEq, Eq, Structural)]
pub enum XorSupport {
    Emulation,
    Full,
    Unsupported,
}

/// The claims to try in a phase, in order. Early on there is one try only.
pub open spec fn variants_of(phase: u32) -> Seq<XorSupport> {
    if phase == PHASE_PLUG {
        seq![XorSupport::Emulation]
    } else {
        seq![XorSupport::Emulation, XorSupport::Full, XorSupport::Unsupported]
    }
}

/// The claim to try after `tried` were refused.
pub fn setup_variant(phase: u32, tried: usize) -> (r: Option<XorSupport>)
    ensures
        r == (if tried < variants_of(phase).len() {
            Some(variants_of(phase)[tried as int])
        } else {
            None
        }),
{
    if tried == 0 {
        Some(XorSupport::Emulation)
    } else if phase == PHASE_PLUG {
        None
    } else if tried == 1 {
        Some(XorSupport::Full)
    } else if tried == 2 {
        Some(XorSupport::Unsupported)
    } else {
        None
    }
}

/// A shape the operating system reports, with its pixels in a buffer beside it.
#[derive(Clone, Copy, Debug, PartialEq, Eq, Structural)]
pub struct ShapeInfo {
    pub shape_id: u32,
    /// A colour cursor with a mask, as opposed to one with alpha.
    pub masked: bool,
    pub width: u32,
    pub height: u32,
    /// Bytes from one row to the next.
    pub pitch: u32,
    pub hotspot_x: u32,
    pub hotspot_y: u32,
}

/// The answer to a cursor query.
#[derive(Clone, Copy, Debug, PartialEq, Eq, Structural)]
pub struct CursorQuery {
    pub x: i32,
    pub y: i32,
    pub visible: bool,
    /// A shape, if it changed.
    pub shape: Option<ShapeInfo>,
}

/// A shape that fits the section.
#[derive(Clone, Copy, Debug, PartialEq, Eq, Structural)]
pub struct Shape {
    pub kind: u32,
    pub width: u32,
    pub height: u32,
    pub hotspot_x: u32,
    pub hotspot_y: u32,
    pub pitch: usize,
}

impl Shape {
    pub open spec fn row_bytes(self) -> int {
        self.width * 4
    }

    pub open spec fn byte_len(self) -> int {
        self.height * self.row_bytes()
    }

    /// At most the largest size, and every row within a buffer of `buffer_len` bytes.
    pub open spec fn wf(self, buffer_len: int) -> bool {
        &&& 0 < self.width <= CURSOR_MAX_DIM
        &&& 0 < self.height <= CURSOR_MAX_DIM
        &&& self.pitch >= self.row_bytes()
        &&& self.height * self.pitch <= buffer_len
    }

    /// The pixels without what stands between the rows.
    pub open spec fn pixels(self, rows: Seq<u8>) -> Seq<u8> {
        Seq::new(
            self.byte_len() as nat,
            |i: int| rows[(i / self.row_bytes()) * self.pitch + i % self.row_bytes()],
        )
    }
}

pub open spec fn limited(v: u32) -> u32 {
    if v < CURSOR_MAX_DIM {
        v
    } else {
        CURSOR_MAX_DIM
    }
}

/// What is taken over of a reported shape: at most the largest size, and nothing of a
/// shape that is empty or does not fit the buffer it came in.
pub open spec fn taken_shape(info: ShapeInfo, buffer_len: int) -> Option<Shape> {
    let shape = Shape {
        kind: if info.masked {
            cursor_kind::MASKED
        } else {
            cursor_kind::ALPHA
        },
        width: limited(info.width),
        height: limited(info.height),
        hotspot_x: info.hotspot_x,
        hotspot_y: info.hotspot_y,
        pitch: info.pitch as usize,
    };
    if shape.wf(buffer_len) {
        Some(shape)
    } else {
        None
    }
}

pub fn take_shape(info: &ShapeInfo, buffer_len: usize) -> (r: Option<Shape>)
    ensures
        r == taken_shape(*info, buffer_len as int),
{
    let width: u32 = if info.width < CURSOR_MAX_DIM {
        info.width
    } else {
        CURSOR_MAX_DIM
    };
    let height: u32 = if info.height < CURSOR_MAX_DIM {
        info.height
    } else {
        CURSOR_MAX_DIM
    };
    assert(height * info.pitch <= 256 * 0xFFFF_FFFF) by (nonlinear_arith)
        requires
            height <= 256,
            info.pitch <= 0xFFFF_FFFF,
    ;
    let needed: u64 = (height as u64) * (info.pitch as u64);
    if width == 0 || height == 0 || info.pitch < width * 4 || needed > buffer_len as u64 {
        return None;
    }
    Some(
        Shape {
            kind: if info.masked {
                cursor_kind::MASKED
            } else {
                cursor_kind::ALPHA
            },
            width,
            height,
            hotspot_x: info.hotspot_x,
            hotspot_y: info.hotspot_y,
            pitch: info.pitch as usize,
        },
    )
}

/// Take the pixels out of a buffer with rows `pitch` bytes apart.
pub fn compact_rows(shape: &Shape, rows: &[u8]) -> (r: Vec<u8>)
    requires
        shape.wf(rows@.len() as int),
    ensures
        r@ == shape.pixels(rows@),
        r@.len() <= CURSOR_MAX_DIM * CURSOR_MAX_DIM * 4,
{
    let mut out: Vec<u8> = Vec::new();
    let row_bytes: usize = (shape.width * 4) as usize;
    let height: usize = shape.height as usize;
    let total: usize = rows.len();
    let ghost want = shape.pixels(rows@);
    assert(height * row_bytes <= 256 * 1024) by (nonlinear_arith)
        requires
            height <= 256,
            row_bytes <= 1024,
    ;
    let mut row: usize = 0;
    assert(out@ =~= want.take(0));
    while row < height
        invariant
            row <= height,
            total == rows@.len(),
            shape.wf(rows@.len() as int),
            row_bytes == shape.row_bytes(),
            height == shape.height,
            want == shape.pixels(rows@),
            want.len() == height * row_bytes,
            out@.len() == row * row_bytes,
            out@ == want.take(row * row_bytes),
        decreases height - row,
    {
        proof {
            assert(row * shape.pitch + shape.pitch <= height * shape.pitch) by (nonlinear_arith)
                requires
                    row + 1 <= height,
                    shape.pitch >= 0,
            ;
            assert(row * row_bytes + row_bytes <= height * row_bytes) by (nonlinear_arith)
                requires
                    row + 1 <= height,
                    row_bytes >= 0,
            ;
        }
        let from: usize = row * shape.pitch;
        let mut i: usize = 0;
        while i < row_bytes
            invariant
                i <= row_bytes,
                row < height,
                total == rows@.len(),
                shape.wf(rows@.len() as int),
                row_bytes == shape.row_bytes(),
                height == shape.height,
                want == shape.pixels(rows@),
                want.len() == height * row_bytes,
                row * row_bytes + row_bytes <= height * row_bytes,
                from == row * shape.pitch,
                from + shape.pitch <= rows@.len(),
                out@.len() == row * row_bytes + i,
                out@ == want.take(row * row_bytes + i),
            decreases row_bytes - i,
        {
            out.push(rows[from + i]);
            proof {
                let at = row * row_bytes + i;
                assert(at / (row_bytes as int) == row && at % (row_bytes as int) == i) by {
                    lemma_fundamental_div_mod_converse(
                        at,
                        row_bytes as int,
                        row as int,
                        i as int,
                    );
                }
                assert(want[at] == rows@[from + i]);
                assert(out@ =~= want.take(at + 1));
            }
            i += 1;
        }
        row += 1;
        assert(row * row_bytes == (row - 1) * row_bytes + row_bytes) by (nonlinear_arith);
    }
    assert(want.take(height * row_bytes) =~= want);
    out
}

/// The generation while a shape is being written, and after it.
pub open spec fn generation_open(start: u32) -> u32 {
    if start % 2 == 1 {
        start
    } else {
        (start + 1) as u32
    }
}

pub open spec fn generation_closed(start: u32) -> u32 {
    if generation_open(start) == u32::MAX {
        0
    } else {
        (generation_open(start) + 1) as u32
    }
}

/// The stores that make a zeroed section a cursor section.
pub open spec fn cursor_creation_stores() -> Seq<StoreModel> {
    Seq::empty().push(plain(CURSOR_VERSION_AT as int, u32_le(CURSOR_HEADER_VERSION))).push(
        plain(CURSOR_MAGIC_AT as int, u32_le(CURSOR_MAGIC)),
    )
}

/// The stores of a shape, in order.
pub open spec fn shape_stores(shape: Shape, pixels: Seq<u8>, start: u32) -> Seq<StoreModel> {
    Seq::empty().push(releasing(CURSOR_GENERATION_AT as int, u32_le(generation_open(start)))).push(
        plain(CURSOR_KIND_AT as int, u32_le(shape.kind)),
    ).push(plain(CURSOR_WIDTH_AT as int, u32_le(shape.width))).push(
        plain(CURSOR_HEIGHT_AT as int, u32_le(shape.height)),
    ).push(plain(CURSOR_HOTSPOT_X_AT as int, u32_le(shape.hotspot_x))).push(
        plain(CURSOR_HOTSPOT_Y_AT as int, u32_le(shape.hotspot_y)),
    ).push(plain(CURSOR_SHAPE_OFFSET as int, pixels)).push(
        releasing(CURSOR_GENERATION_AT as int, u32_le(generation_closed(start))),
    )
}

/// The stores of a position, in order.
pub open spec fn position_stores(x: i32, y: i32, visible: bool, now_qpc: u64) -> Seq<StoreModel> {
    Seq::empty().push(plain(CURSOR_X_AT as int, i32_le(x))).push(
        plain(CURSOR_Y_AT as int, i32_le(y)),
    ).push(
        plain(
            CURSOR_VISIBLE_AT as int,
            u32_le(
                if visible {
                    1
                } else {
                    0
                },
            ),
        ),
    ).push(plain(CURSOR_POSITION_QPC_AT as int, u64_le(now_qpc)))
}

/// Make a zeroed section a cursor section.
pub fn cursor_created() -> (r: Vec<Store>)
    ensures
        stores_of(r@) == cursor_creation_stores(),
{
    let mut out: Vec<Store> = Vec::new();
    assert(stores_of(out@) =~= Seq::empty());
    push_u32(&mut out, CURSOR_VERSION_AT, CURSOR_HEADER_VERSION, false);
    push_u32(&mut out, CURSOR_MAGIC_AT, CURSOR_MAGIC, false);
    out
}

fn push_i32(out: &mut Vec<Store>, offset: usize, v: i32)
    ensures
        stores_of(final(out)@) == stores_of(old(out)@).push(plain(offset as int, i32_le(v))),
{
    let mut bytes: Vec<u8> = Vec::new();
    put_i32(&mut bytes, v);
    push_bytes(out, offset, bytes, false);
}

/// Append the stores of a position.
pub fn write_position(out: &mut Vec<Store>, x: i32, y: i32, visible: bool, now_qpc: u64)
    ensures
        stores_of(final(out)@) == stores_of(old(out)@) + position_stores(x, y, visible, now_qpc),
{
    push_i32(out, CURSOR_X_AT, x);
    push_i32(out, CURSOR_Y_AT, y);
    let shown: u32 = if visible {
        1
    } else {
        0
    };
    push_u32(out, CURSOR_VISIBLE_AT, shown, false);
    push_u64(out, CURSOR_POSITION_QPC_AT, now_qpc, false);
    assert(stores_of(out@) =~= stores_of(old(out)@) + position_stores(x, y, visible, now_qpc));
}

/// Append the stores of a shape, for a section whose generation is `start`.
pub fn write_shape(out: &mut Vec<Store>, shape: &Shape, rows: &[u8], start: u32)
    requires
        shape.wf(rows@.len() as int),
    ensures
        stores_of(final(out)@) == stores_of(old(out)@) + shape_stores(
            *shape,
            shape.pixels(rows@),
            start,
        ),
{
    let opened: u32 = start | 1;
    assert(opened == if start % 2 == 1 {
        start
    } else {
        (start + 1) as u32
    }) by (bit_vector)
        requires
            opened == start | 1,
    ;
    push_u32(out, CURSOR_GENERATION_AT, opened, true);
    push_u32(out, CURSOR_KIND_AT, shape.kind, false);
    push_u32(out, CURSOR_WIDTH_AT, shape.width, false);
    push_u32(out, CURSOR_HEIGHT_AT, shape.height, false);
    push_u32(out, CURSOR_HOTSPOT_X_AT, shape.hotspot_x, false);
    push_u32(out, CURSOR_HOTSPOT_Y_AT, shape.hotspot_y, false);
    let pixels = compact_rows(shape, rows);
    push_bytes(out, CURSOR_SHAPE_OFFSET, pixels, false);
    push_u32(out, CURSOR_GENERATION_AT, opened.wrapping_add(1), true);
    assert(stores_of(out@) =~= stores_of(old(out)@) + shape_stores(
        *shape,
        shape.pixels(rows@),
        start,
    ));
}

/// What a cursor worker remembers between queries.
#[derive(Clone, Copy, Debug, PartialEq, Eq, Structural)]
pub struct CursorWorker {
    /// The last shape that was taken over.
    pub last_shape_id: u32,
    pub last_query_failed: bool,
}

/// What to do after a query.
pub struct CursorStep {
    pub stores: Vec<Store>,
    /// The first failure after a success; later ones are not worth a word.
    pub report_failure: bool,
}

impl CursorWorker {
    /// The worker after a query, and its stores.
    pub open spec fn after(
        self,
        status: i32,
        answer: CursorQuery,
        buffer: Seq<u8>,
        generation: u32,
        now_qpc: u64,
    ) -> (CursorWorker, Seq<StoreModel>) {
        if status < 0 {
            (CursorWorker { last_query_failed: true, ..self }, Seq::empty())
        } else {
            let shape = match answer.shape {
                Some(info) => taken_shape(info, buffer.len() as int),
                None => None,
            };
            let place = position_stores(answer.x, answer.y, answer.visible, now_qpc);
            match shape {
                Some(s) => (
                    CursorWorker {
                        last_shape_id: answer.shape->0.shape_id,
                        last_query_failed: false,
                    },
                    shape_stores(s, s.pixels(buffer), generation) + place,
                ),
                None => (CursorWorker { last_query_failed: false, ..self }, place),
            }
        }
    }

    pub fn new() -> (r: Self)
        ensures
            r == (CursorWorker { last_shape_id: 0, last_query_failed: false }),
    {
        CursorWorker { last_shape_id: 0, last_query_failed: false }
    }

    /// A query was answered: store what changed.
    pub fn queried(
        &mut self,
        status: i32,
        answer: &CursorQuery,
        buffer: &[u8],
        generation: u32,
        now_qpc: u64,
    ) -> (r: CursorStep)
        ensures
            ({
                let (worker, stores) = old(self).after(
                    status,
                    *answer,
                    buffer@,
                    generation,
                    now_qpc,
                );
                &&& *final(self) == worker
                &&& stores_of(r.stores@) == stores
                &&& r.report_failure == (status < 0 && !old(self).last_query_failed)
            }),
    {
        let mut stores: Vec<Store> = Vec::new();
        assert(stores_of(stores@) =~= Seq::empty());
        if status < 0 {
            let first: bool = !self.last_query_failed;
            self.last_query_failed = true;
            return CursorStep { stores, report_failure: first };
        }
        self.last_query_failed = false;
        if let Some(info) = &answer.shape {
            if let Some(shape) = take_shape(info, buffer.len()) {
                write_shape(&mut stores, &shape, buffer, generation);
                self.last_shape_id = info.shape_id;
            }
        }
        let ghost before = stores_of(stores@);
        write_position(&mut stores, answer.x, answer.y, answer.visible, now_qpc);
        proof {
            let place = position_stores(answer.x, answer.y, answer.visible, now_qpc);
            assert(Seq::<StoreModel>::empty() + place =~= place);
            match answer.shape {
                Some(info) => match taken_shape(info, buffer@.len() as int) {
                    Some(s) => {
                        let shaped = shape_stores(s, s.pixels(buffer@), generation);
                        assert(Seq::<StoreModel>::empty() + shaped =~= shaped);
                    },
                    None => {},
                },
                None => {},
            }
        }
        CursorStep { stores, report_failure: false }
    }
}

/// The memory is a cursor section that starts with this header.
pub open spec fn cursor_in(mem: Seq<u8>, h: CursorHeader) -> bool {
    &&& mem.len() >= CURSOR_SHAPE_OFFSET + CURSOR_MAX_DIM * CURSOR_MAX_DIM * 4
    &&& mem.take(CURSOR_HEADER_SIZE as int) == h.wire()
}

/// The pixels in a section that holds a shape of `len` bytes.
pub open spec fn pixels_in(mem: Seq<u8>, len: int) -> Seq<u8> {
    mem.subrange(CURSOR_SHAPE_OFFSET as int, CURSOR_SHAPE_OFFSET + len)
}

/// The bytes of the generation.
pub open spec fn generation_bytes(mem: Seq<u8>) -> Seq<u8> {
    mem.subrange(CURSOR_GENERATION_AT as int, CURSOR_GENERATION_AT + 4)
}

/// A field of the header is replaced by a store at its place.
proof fn lemma_cursor_fields(mem: Seq<u8>, h: CursorHeader, a: u32, b: i32, c: u64)
    requires
        cursor_in(mem, h),
    ensures
        cursor_in(stored(mem, plain(0, u32_le(a))), CursorHeader { magic: a, ..h }),
        cursor_in(stored(mem, plain(4, u32_le(a))), CursorHeader { version: a, ..h }),
        cursor_in(stored(mem, releasing(8, u32_le(a))), CursorHeader { shape_generation: a, ..h }),
        cursor_in(stored(mem, plain(12, u32_le(a))), CursorHeader { width: a, ..h }),
        cursor_in(stored(mem, plain(16, u32_le(a))), CursorHeader { height: a, ..h }),
        cursor_in(stored(mem, plain(20, u32_le(a))), CursorHeader { hotspot_x: a, ..h }),
        cursor_in(stored(mem, plain(24, u32_le(a))), CursorHeader { hotspot_y: a, ..h }),
        cursor_in(stored(mem, plain(28, u32_le(a))), CursorHeader { kind: a, ..h }),
        cursor_in(stored(mem, plain(32, i32_le(b))), CursorHeader { x: b, ..h }),
        cursor_in(stored(mem, plain(36, i32_le(b))), CursorHeader { y: b, ..h }),
        cursor_in(stored(mem, plain(40, u32_le(a))), CursorHeader { visible: a, ..h }),
        cursor_in(stored(mem, plain(48, u64_le(c))), CursorHeader { position_qpc: c, ..h }),
{
    assert forall|i: int| 0 <= i < 64 implies #[trigger] mem[i] == h.wire()[i] by {
        assert(mem.take(64)[i] == mem[i]);
    }
    assert(stored(mem, plain(0, u32_le(a))).take(64) =~= (CursorHeader { magic: a, ..h }).wire());
    assert(stored(mem, plain(4, u32_le(a))).take(64) =~= (CursorHeader { version: a, ..h }).wire());
    assert(stored(mem, releasing(8, u32_le(a))).take(64) =~= (CursorHeader {
        shape_generation: a,
        ..h
    }).wire());
    assert(stored(mem, plain(12, u32_le(a))).take(64) =~= (CursorHeader { width: a, ..h }).wire());
    assert(stored(mem, plain(16, u32_le(a))).take(64) =~= (CursorHeader { height: a, ..h }).wire());
    assert(stored(mem, plain(20, u32_le(a))).take(64) =~= (CursorHeader {
        hotspot_x: a,
        ..h
    }).wire());
    assert(stored(mem, plain(24, u32_le(a))).take(64) =~= (CursorHeader {
        hotspot_y: a,
        ..h
    }).wire());
    assert(stored(mem, plain(28, u32_le(a))).take(64) =~= (CursorHeader { kind: a, ..h }).wire());
    assert(stored(mem, plain(32, i32_le(b))).take(64) =~= (CursorHeader { x: b, ..h }).wire());
    assert(stored(mem, plain(36, i32_le(b))).take(64) =~= (CursorHeader { y: b, ..h }).wire());
    assert(stored(mem, plain(40, u32_le(a))).take(64) =~= (CursorHeader { visible: a, ..h }).wire());
    assert(stored(mem, plain(48, u64_le(c))).take(64) =~= (CursorHeader {
        position_qpc: c,
        ..h
    }).wire());
}

/// The header of a cursor section that was just created.
pub open spec fn fresh_cursor() -> CursorHeader {
    CursorHeader {
        magic: CURSOR_MAGIC,
        version: CURSOR_HEADER_VERSION,
        shape_generation: 0,
        width: 0,
        height: 0,
        hotspot_x: 0,
        hotspot_y: 0,
        kind: 0,
        x: 0,
        y: 0,
        visible: 0,
        reserved0: 0,
        position_qpc: 0,
        reserved1: 0,
    }
}

/// The stores of a new cursor section turn zeros into a valid header without a shape,
/// and the magic is the last of them.
pub proof fn law_cursor_section_is_complete_when_marked(mem: Seq<u8>)
    requires
        mem.len() >= CURSOR_SHAPE_OFFSET + CURSOR_MAX_DIM * CURSOR_MAX_DIM * 4,
        forall|i: int| 0 <= i < mem.len() ==> #[trigger] mem[i] == 0,
    ensures
        cursor_in(stored_all(mem, cursor_creation_stores()), fresh_cursor()),
        cursor_creation_stores().last() == plain(CURSOR_MAGIC_AT as int, u32_le(CURSOR_MAGIC)),
{
    let h0 = CursorHeader { magic: 0, version: 0, ..fresh_cursor() };
    let h1 = CursorHeader { version: CURSOR_HEADER_VERSION, ..h0 };
    let stores = cursor_creation_stores();
    lemma_zeros();
    assert(i32_le(0) == u32_le(0)) by {
        reveal(i32_le);
    }
    assert(mem.take(64) =~= h0.wire());
    let s0 = Seq::<StoreModel>::empty();
    let s1 = s0.push(stores[0]);
    assert(s1.push(stores[1]) =~= stores);
    lemma_stored_push(mem, s0, stores[0]);
    lemma_stored_push(mem, s1, stores[1]);
    lemma_cursor_fields(mem, h0, CURSOR_HEADER_VERSION, 0, 0);
    lemma_cursor_fields(stored_all(mem, s1), h1, CURSOR_MAGIC, 0, 0);
}

/// Storing a position changes the position and nothing else: neither the shape nor
/// its generation.
pub proof fn law_position_leaves_the_shape(
    mem: Seq<u8>,
    h: CursorHeader,
    x: i32,
    y: i32,
    visible: bool,
    now_qpc: u64,
)
    requires
        cursor_in(mem, h),
    ensures
        ({
            let now = stored_all(mem, position_stores(x, y, visible, now_qpc));
            &&& cursor_in(
                now,
                CursorHeader {
                    x,
                    y,
                    visible: if visible {
                        1
                    } else {
                        0
                    },
                    position_qpc: now_qpc,
                    ..h
                },
            )
            &&& now.skip(CURSOR_SHAPE_OFFSET as int) == mem.skip(CURSOR_SHAPE_OFFSET as int)
        }),
{
    let stores = position_stores(x, y, visible, now_qpc);
    let shown: u32 = if visible {
        1
    } else {
        0
    };
    let h1 = CursorHeader { x, ..h };
    let h2 = CursorHeader { y, ..h1 };
    let h3 = CursorHeader { visible: shown, ..h2 };
    let s0 = Seq::<StoreModel>::empty();
    let s1 = s0.push(stores[0]);
    let s2 = s1.push(stores[1]);
    let s3 = s2.push(stores[2]);
    assert(s3.push(stores[3]) =~= stores);
    lemma_stored_push(mem, s0, stores[0]);
    lemma_stored_push(mem, s1, stores[1]);
    lemma_stored_push(mem, s2, stores[2]);
    lemma_stored_push(mem, s3, stores[3]);
    lemma_cursor_fields(mem, h, 0, x, 0);
    lemma_cursor_fields(stored_all(mem, s1), h1, 0, y, 0);
    lemma_cursor_fields(stored_all(mem, s2), h2, shown, 0, 0);
    lemma_cursor_fields(stored_all(mem, s3), h3, 0, 0, now_qpc);
    lemma_stored_all(mem, stores, 64, mem.len() as int);
    let now = stored_all(mem, stores);
    assert(now.skip(64) =~= now.subrange(64, mem.len() as int));
    assert(mem.skip(64) =~= mem.subrange(64, mem.len() as int));
}

/// Storing a shape puts it into the section, whole.
pub proof fn law_shape_is_stored_whole(
    mem: Seq<u8>,
    h: CursorHeader,
    shape: Shape,
    rows: Seq<u8>,
)
    requires
        cursor_in(mem, h),
        shape.wf(rows.len() as int),
    ensures
        ({
            let pixels = shape.pixels(rows);
            let now = stored_all(mem, shape_stores(shape, pixels, h.shape_generation));
            &&& cursor_in(
                now,
                CursorHeader {
                    shape_generation: generation_closed(h.shape_generation),
                    kind: shape.kind,
                    width: shape.width,
                    height: shape.height,
                    hotspot_x: shape.hotspot_x,
                    hotspot_y: shape.hotspot_y,
                    ..h
                },
            )
            &&& pixels_in(now, shape.byte_len()) == pixels
        }),
{
    let pixels = shape.pixels(rows);
    let start = h.shape_generation;
    let stores = shape_stores(shape, pixels, start);
    lemma_shape_len(shape);
    let h1 = CursorHeader { shape_generation: generation_open(start), ..h };
    let h2 = CursorHeader { kind: shape.kind, ..h1 };
    let h3 = CursorHeader { width: shape.width, ..h2 };
    let h4 = CursorHeader { height: shape.height, ..h3 };
    let h5 = CursorHeader { hotspot_x: shape.hotspot_x, ..h4 };
    let h6 = CursorHeader { hotspot_y: shape.hotspot_y, ..h5 };
    let s0 = Seq::<StoreModel>::empty();
    let s1 = s0.push(stores[0]);
    let s2 = s1.push(stores[1]);
    let s3 = s2.push(stores[2]);
    let s4 = s3.push(stores[3]);
    let s5 = s4.push(stores[4]);
    let s6 = s5.push(stores[5]);
    let s7 = s6.push(stores[6]);
    assert(s7.push(stores[7]) =~= stores);
    lemma_stored_push(mem, s0, stores[0]);
    lemma_stored_push(mem, s1, stores[1]);
    lemma_stored_push(mem, s2, stores[2]);
    lemma_stored_push(mem, s3, stores[3]);
    lemma_stored_push(mem, s4, stores[4]);
    lemma_stored_push(mem, s5, stores[5]);
    lemma_stored_push(mem, s6, stores[6]);
    lemma_stored_push(mem, s7, stores[7]);
    lemma_cursor_fields(mem, h, generation_open(start), 0, 0);
    lemma_cursor_fields(stored_all(mem, s1), h1, shape.kind, 0, 0);
    lemma_cursor_fields(stored_all(mem, s2), h2, shape.width, 0, 0);
    lemma_cursor_fields(stored_all(mem, s3), h3, shape.height, 0, 0);
    lemma_cursor_fields(stored_all(mem, s4), h4, shape.hotspot_x, 0, 0);
    lemma_cursor_fields(stored_all(mem, s5), h5, shape.hotspot_y, 0, 0);
    let m6 = stored_all(mem, s6);
    let m7 = stored_all(mem, s7);
    assert(cursor_in(m6, h6));
    lemma_stored(m6, stores[6]);
    assert(m7.take(64) =~= m7.subrange(0, 64));
    assert(m6.take(64) =~= m6.subrange(0, 64));
    assert(m7.subrange(64, 64 + shape.byte_len()) =~= pixels);
    lemma_cursor_fields(m7, h6, generation_closed(start), 0, 0);
    lemma_stored(m7, stores[7]);
}

proof fn lemma_shape_len(shape: Shape)
    requires
        shape.width <= CURSOR_MAX_DIM,
        shape.height <= CURSOR_MAX_DIM,
    ensures
        0 <= shape.byte_len() <= CURSOR_MAX_DIM * CURSOR_MAX_DIM * 4,
{
    assert(0 <= shape.height * (shape.width * 4) <= 256 * 1024) by (nonlinear_arith)
        requires
            shape.width <= 256,
            shape.height <= 256,
    ;
}

/// Between the first and the last store of a shape the generation is odd, and the
/// last makes it even and another than before. So a reader that finds the same even
/// generation before and after reading has read while no shape was being stored.
pub proof fn law_half_stored_shape_shows(
    mem: Seq<u8>,
    h: CursorHeader,
    shape: Shape,
    rows: Seq<u8>,
)
    requires
        cursor_in(mem, h),
        shape.wf(rows.len() as int),
    ensures
        ({
            let start = h.shape_generation;
            let stores = shape_stores(shape, shape.pixels(rows), start);
            &&& generation_open(start) % 2 == 1
            &&& generation_closed(start) % 2 == 0
            &&& generation_closed(start) != start
            &&& forall|k: int|
                0 < k < stores.len() ==> generation_bytes(
                    #[trigger] stored_all(mem, stores.take(k)),
                ) == u32_le(generation_open(start))
            &&& generation_bytes(stored_all(mem, stores)) == u32_le(generation_closed(start))
            &&& u32_le(generation_closed(start)) != u32_le(start)
        }),
{
    let start = h.shape_generation;
    let stores = shape_stores(shape, shape.pixels(rows), start);
    lemma_shape_len(shape);
    if u32_le(generation_closed(start)) == u32_le(start) {
        lemma_u32_le_injective(generation_closed(start), start);
    }
    let first = stored(mem, stores[0]);
    lemma_stored(mem, stores[0]);
    assert(first.subrange(8, 12) =~= u32_le(generation_open(start)));
    assert forall|k: int| 0 < k < stores.len() implies generation_bytes(
        #[trigger] stored_all(mem, stores.take(k)),
    ) == u32_le(generation_open(start)) by {
        lemma_generation_kept(mem, stores, k);
    }
    assert(stores.drop_last() =~= stores.take(7));
    let m7 = stored_all(mem, stores.take(7));
    lemma_stored_all(mem, stores.take(7), 0, 0);
    assert(stored_all(mem, stores) == stored(m7, stores[7]));
    assert(stored(m7, stores[7]).subrange(8, 12) =~= u32_le(generation_closed(start)));
}

/// Stores after the first keep the generation it stored.
proof fn lemma_generation_kept(mem: Seq<u8>, stores: Seq<StoreModel>, k: int)
    requires
        0 < k <= stores.len(),
        forall|i: int| 0 <= i < k ==> (#[trigger] stores[i]).fits(mem.len() as int),
        forall|i: int| 0 < i < k ==> (#[trigger] stores[i]).misses(8, 12),
        mem.len() >= 12,
    ensures
        stored_all(mem, stores.take(k)).len() == mem.len(),
        generation_bytes(stored_all(mem, stores.take(k))) == generation_bytes(
            stored(mem, stores[0]),
        ),
    decreases k,
{
    if k == 1 {
        assert(stores.take(1).drop_last() =~= Seq::empty());
        assert(stored_all(mem, stores.take(1).drop_last()) == mem);
        lemma_stored(mem, stores[0]);
    } else {
        lemma_generation_kept(mem, stores, k - 1);
        assert(stores.take(k).drop_last() =~= stores.take(k - 1));
        lemma_stored(stored_all(mem, stores.take(k - 1)), stores[k - 1]);
    }
}

/// Which shapes are taken over, in numbers: at most 256 pixels a side, none that is empty,
/// none whose rows are shorter than its pixels or reach beyond the buffer. The kind and the
/// hot spot are those that were reported.
pub proof fn law_taken_shape_values(info: ShapeInfo, buffer_len: int)
    ensures
        ({
            let r = taken_shape(info, buffer_len);
            let w = if info.width < 256 {
                info.width as int
            } else {
                256
            };
            let h = if info.height < 256 {
                info.height as int
            } else {
                256
            };
            &&& r is Some <==> w > 0 && h > 0 && info.pitch >= 4 * w && h * info.pitch <= buffer_len
            &&& r matches Some(s) ==> {
                &&& s.width == w
                &&& s.height == h
                &&& s.hotspot_x == info.hotspot_x
                &&& s.hotspot_y == info.hotspot_y
                &&& s.pitch == info.pitch
                &&& s.kind == (if info.masked {
                    3int
                } else {
                    1
                })
            }
        }),
{
}

/// Pixel `(x, y)` of a shape is pixel `(x, y)` of the buffer it came in: byte `c` of it
/// stands `pitch` bytes per row further there, and `4 * width` here.
pub proof fn law_pixels_keep_their_place(shape: Shape, rows: Seq<u8>, x: int, y: int, c: int)
    requires
        0 <= x < shape.width,
        0 <= y < shape.height,
        0 <= c < 4,
    ensures
        shape.pixels(rows).len() == 4 * shape.width * shape.height,
        0 <= y * (4 * shape.width) + 4 * x + c < 4 * shape.width * shape.height,
        shape.pixels(rows)[y * (4 * shape.width) + 4 * x + c] == rows[y * shape.pitch + 4 * x + c],
{
    let n = 4 * shape.width;
    let at = y * n + 4 * x + c;
    lemma_fundamental_div_mod_converse(at, n, y, 4 * x + c);
    assert(0 <= y * n && y * n + n <= shape.height * n) by (nonlinear_arith)
        requires
            0 <= y < shape.height,
            n >= 0,
    ;
    assert(shape.height * n == 4 * shape.width * shape.height) by (nonlinear_arith)
        requires
            n == 4 * shape.width,
    ;
}

proof fn lemma_cursor_reads(mem: Seq<u8>, h: CursorHeader)
    requires
        cursor_in(mem, h),
    ensures
        forall|k: int| 0 <= k <= 60 ==> #[trigger] u32_at(mem, k) == u32_at(h.wire(), k),
        forall|k: int| 0 <= k <= 60 ==> #[trigger] i32_at(mem, k) == i32_at(h.wire(), k),
        forall|k: int| 0 <= k <= 56 ==> #[trigger] u64_at(mem, k) == u64_at(h.wire(), k),
{
    let w = mem.take(64);
    assert forall|i: int| 0 <= i < 64 implies #[trigger] mem[i] == h.wire()[i] by {
        assert(w[i] == mem[i]);
    }
}

/// What a host finds in a cursor section: the magic and version once it is made, the
/// position that was stored last, and the shape with a generation that has moved on to an
/// even number. The pixels stand behind the header.
#[verifier::rlimit(80)]
#[verifier::spinoff_prover]
pub proof fn law_cursor_section_reads(
    mem: Seq<u8>,
    h: CursorHeader,
    shape: Shape,
    rows: Seq<u8>,
    x: i32,
    y: i32,
    visible: bool,
    now_qpc: u64,
)
    requires
        cursor_in(mem, h),
        shape.wf(rows.len() as int),
    ensures
        ({
            let placed = stored_all(mem, position_stores(x, y, visible, now_qpc));
            let shaped = stored_all(
                mem,
                shape_stores(shape, shape.pixels(rows), h.shape_generation),
            );
            let g = u32_at(shaped, 8);
            &&& i32_at(placed, 32) == x
            &&& i32_at(placed, 36) == y
            &&& u32_at(placed, 40) == (if visible {
                1int
            } else {
                0
            })
            &&& u64_at(placed, 48) == now_qpc
            &&& u32_at(placed, 0) == h.magic && u32_at(placed, 4) == h.version && u32_at(placed, 8)
                == h.shape_generation && u32_at(placed, 12) == h.width && u32_at(placed, 16)
                == h.height && u32_at(placed, 20) == h.hotspot_x && u32_at(placed, 24) == h.hotspot_y
                && u32_at(placed, 28) == h.kind
            &&& u32_at(shaped, 12) == shape.width
            &&& u32_at(shaped, 16) == shape.height
            &&& u32_at(shaped, 20) == shape.hotspot_x
            &&& u32_at(shaped, 24) == shape.hotspot_y
            &&& u32_at(shaped, 28) == shape.kind
            &&& g % 2 == 0
            &&& g == (h.shape_generation + (if h.shape_generation % 2 == 0 {
                2int
            } else {
                1
            })) % 0x1_0000_0000
            &&& i32_at(shaped, 32) == h.x && i32_at(shaped, 36) == h.y && u32_at(shaped, 40)
                == h.visible && u64_at(shaped, 48) == h.position_qpc && u32_at(shaped, 0) == h.magic
                && u32_at(shaped, 4) == h.version
            &&& shaped.subrange(64, 64 + 4 * shape.width * shape.height) == shape.pixels(rows)
        }),
{
    let placed = stored_all(mem, position_stores(x, y, visible, now_qpc));
    let shaped = stored_all(mem, shape_stores(shape, shape.pixels(rows), h.shape_generation));
    let hp = CursorHeader {
        x,
        y,
        visible: if visible {
            1
        } else {
            0
        },
        position_qpc: now_qpc,
        ..h
    };
    let hs = CursorHeader {
        shape_generation: generation_closed(h.shape_generation),
        kind: shape.kind,
        width: shape.width,
        height: shape.height,
        hotspot_x: shape.hotspot_x,
        hotspot_y: shape.hotspot_y,
        ..h
    };
    law_position_leaves_the_shape(mem, h, x, y, visible, now_qpc);
    law_shape_is_stored_whole(mem, h, shape, rows);
    law_cursor_header_layout(hp);
    law_cursor_header_layout(hs);
    lemma_cursor_reads(placed, hp);
    lemma_cursor_reads(shaped, hs);
    assert(shape.byte_len() == 4 * shape.width * shape.height) by (nonlinear_arith)
        requires
            shape.byte_len() == shape.height * (shape.width * 4),
    ;
}

/// What a host finds in a cursor section that was just made of zeros.
pub proof fn law_new_cursor_section_reads(mem: Seq<u8>)
    requires
        mem.len() >= 64 + 256 * 256 * 4,
        forall|i: int| 0 <= i < mem.len() ==> #[trigger] mem[i] == 0,
    ensures
        ({
            let now = stored_all(mem, cursor_creation_stores());
            &&& u32_at(now, 0) == 0x4C56_4743
            &&& u32_at(now, 4) == 1
            &&& u32_at(now, 8) == 0
            &&& u32_at(now, 12) == 0
            &&& u32_at(now, 16) == 0
            &&& u32_at(now, 28) == 0
            &&& u32_at(now, 40) == 0
        }),
{
    law_cursor_section_is_complete_when_marked(mem);
    law_cursor_header_layout(fresh_cursor());
    lemma_cursor_reads(stored_all(mem, cursor_creation_stores()), fresh_cursor());
}

/// What a query leaves behind. A failed one stores nothing; any other stores the position,
/// and before it the shape if one came that can be taken over, whose number is then the
/// last one.
pub proof fn law_query_cases(
    w: CursorWorker,
    status: i32,
    answer: CursorQuery,
    buffer: Seq<u8>,
    generation: u32,
    now_qpc: u64,
)
    ensures
        ({
            let (n, stores) = w.after(status, answer, buffer, generation, now_qpc);
            let place = position_stores(answer.x, answer.y, answer.visible, now_qpc);
            let shape = if answer.shape is Some {
                taken_shape(answer.shape->0, buffer.len() as int)
            } else {
                None
            };
            &&& n.last_query_failed <==> status < 0
            &&& status < 0 ==> stores.len() == 0 && n.last_shape_id == w.last_shape_id
            &&& status >= 0 && shape is None ==> stores == place && n.last_shape_id
                == w.last_shape_id
            &&& status >= 0 && shape is Some ==> stores == shape_stores(
                shape->0,
                shape->0.pixels(buffer),
                generation,
            ) + place && n.last_shape_id == answer.shape->0.shape_id
        }),
{
}

/// The claims are tried from the best on; at plug time only the first.
pub proof fn law_variants_in_order(phase: u32)
    ensures
        variants_of(phase).len() == (if phase == 0 {
            1int
        } else {
            3
        }),
        variants_of(phase)[0] == XorSupport::Emulation,
        phase != 0 ==> variants_of(phase)[1] == XorSupport::Full && variants_of(phase)[2]
            == XorSupport::Unsupported,
{
}

/// The phases of setting a cursor up, in numbers.
pub proof fn law_phase_values()
    ensures
        PHASE_PLUG == 0 && PHASE_ASSIGN == 1,
{
}

} // verus!
