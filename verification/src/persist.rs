//! Driver state that survives a restart: connector reservations and the permanent
//! pool, in a versioned blob.
//!
//! Layout, little-endian, no padding: magic, schema and reservation count (32 bits
//! each); per reservation the identity (64 bits) and the connector (32 bits); a
//! 32-bit word that is not zero when a pool follows; the pool. Bytes behind that
//! are ignored. Stored bytes are never trusted: anything else is no state at all.
use vstd::prelude::*;

use crate::proto::messages::PERMANENT_POOL_CONFIG_SIZE;
use crate::proto::wire;
use crate::proto::wire::{
    lemma_u32_le_injective, lemma_u32_le_len, lemma_u64_le_injective, lemma_u64_le_len, put_bytes,
    put_u32, put_u64, u32_le, u64_le, Reader,
};
use crate::proto::PermanentPoolConfig;

verus! {

pub const PERSIST_MAGIC: u32 = 0x4C56_4750;

pub const PERSIST_SCHEMA: u32 = 1;

/// More reservations than this are garbage.
pub const MAX_STORED_RESERVATIONS: u32 = 1024;

#[derive(Debug, PartialEq, Eq)]
pub struct PersistedState {
    /// Identities and their connectors.
    pub reservations: Vec<(u64, u32)>,
    pub pool: Option<PermanentPoolConfig>,
}

/// What a blob says.
pub struct PersistedModel {
    pub reservations: Seq<(u64, u32)>,
    pub pool: Option<PermanentPoolConfig>,
}

impl View for PersistedState {
    type V = PersistedModel;

    open spec fn view(&self) -> PersistedModel {
        PersistedModel { reservations: self.reservations@, pool: self.pool }
    }
}

impl Default for PersistedState {
    fn default() -> (r: Self)
        ensures
            r@ == (PersistedModel { reservations: Seq::empty(), pool: None }),
    {
        PersistedState { reservations: Vec::new(), pool: None }
    }
}

/// The encoded reservations, in order.
pub open spec fn reservations_wire(s: Seq<(u64, u32)>) -> Seq<u8>
    decreases s.len(),
{
    if s.len() == 0 {
        Seq::empty()
    } else {
        reservations_wire(s.drop_last()) + u64_le(s.last().0) + u32_le(s.last().1)
    }
}

/// The encoded pool, behind the word that announces it.
pub open spec fn pool_wire(pool: Option<PermanentPoolConfig>) -> Seq<u8> {
    match pool {
        Some(p) => u32_le(1) + p.wire(),
        None => u32_le(0),
    }
}

/// The blob of a state.
pub open spec fn blob_of(state: PersistedModel) -> Seq<u8> {
    u32_le(PERSIST_MAGIC) + u32_le(PERSIST_SCHEMA) + u32_le(
        (state.reservations.len() % 0x1_0000_0000) as u32,
    ) + reservations_wire(state.reservations) + pool_wire(state.pool)
}

/// The 32-bit value at an offset.
pub open spec fn u32_at(b: Seq<u8>, at: int) -> u32 {
    choose|v: u32| u32_le(v) == b.subrange(at, at + 4)
}

/// The 64-bit value at an offset.
pub open spec fn u64_at(b: Seq<u8>, at: int) -> u64 {
    choose|v: u64| u64_le(v) == b.subrange(at, at + 8)
}

/// The pool at an offset.
pub open spec fn pool_at(b: Seq<u8>, at: int) -> PermanentPoolConfig {
    choose|p: PermanentPoolConfig| p.wire() == b.subrange(at, at + PERMANENT_POOL_CONFIG_SIZE)
}

/// The `n` reservations behind the header.
pub open spec fn reservations_at(b: Seq<u8>, n: int) -> Seq<(u64, u32)> {
    Seq::new(n as nat, |i: int| (u64_at(b, 12 + 12 * i), u32_at(b, 20 + 12 * i)))
}

/// What a blob says, if it says anything.
pub open spec fn state_of(b: Seq<u8>) -> Option<PersistedModel> {
    let n = u32_at(b, 8) as int;
    let rest = 12 + 12 * n;
    if b.len() < 12 || u32_at(b, 0) != PERSIST_MAGIC || u32_at(b, 4) != PERSIST_SCHEMA || n
        > MAX_STORED_RESERVATIONS || b.len() < rest + 4 {
        None
    } else if u32_at(b, rest) == 0 {
        Some(PersistedModel { reservations: reservations_at(b, n), pool: None })
    } else if b.len() < rest + 4 + PERMANENT_POOL_CONFIG_SIZE {
        None
    } else {
        Some(
            PersistedModel {
                reservations: reservations_at(b, n),
                pool: Some(pool_at(b, rest + 4)),
            },
        )
    }
}

proof fn lemma_u32_at(b: Seq<u8>, at: int, v: u32)
    requires
        u32_le(v) == b.subrange(at, at + 4),
    ensures
        u32_at(b, at) == v,
{
    lemma_u32_le_injective(u32_at(b, at), v);
}

proof fn lemma_u64_at(b: Seq<u8>, at: int, v: u64)
    requires
        u64_le(v) == b.subrange(at, at + 8),
    ensures
        u64_at(b, at) == v,
{
    lemma_u64_le_injective(u64_at(b, at), v);
}

proof fn lemma_pool_at(b: Seq<u8>, at: int, p: PermanentPoolConfig)
    requires
        p.wire() == b.subrange(at, at + PERMANENT_POOL_CONFIG_SIZE),
    ensures
        pool_at(b, at) == p,
{
    crate::proto::messages::law_permanent_pool_config_round_trip(pool_at(b, at), p);
}

/// The blob of `state`.
pub fn serialize(state: &PersistedState) -> (r: Vec<u8>)
    ensures
        r@ == blob_of(state@),
{
    let mut out: Vec<u8> = Vec::new();
    let n: usize = state.reservations.len();
    put_u32(&mut out, PERSIST_MAGIC);
    put_u32(&mut out, PERSIST_SCHEMA);
    put_u32(&mut out, (n as u64 % 0x1_0000_0000) as u32);
    let ghost header = out@;
    assert(header =~= u32_le(PERSIST_MAGIC) + u32_le(PERSIST_SCHEMA) + u32_le(
        (n as nat % 0x1_0000_0000) as u32,
    ));
    let mut i: usize = 0;
    assert(out@ =~= header + reservations_wire(state.reservations@.take(0)));
    while i < n
        invariant
            i <= n,
            n == state.reservations@.len(),
            out@ == header + reservations_wire(state.reservations@.take(i as int)),
        decreases n - i,
    {
        let (display_id, connector) = state.reservations[i];
        put_u64(&mut out, display_id);
        put_u32(&mut out, connector);
        proof {
            let upto = state.reservations@.take(i + 1);
            assert(upto.drop_last() =~= state.reservations@.take(i as int));
            assert(out@ =~= header + reservations_wire(upto));
        }
        i += 1;
    }
    assert(state.reservations@.take(i as int) =~= state.reservations@);
    let ghost body = out@;
    match &state.pool {
        Some(p) => {
            put_u32(&mut out, 1);
            put_bytes(&mut out, p.to_bytes().as_slice());
        },
        None => {
            put_u32(&mut out, 0);
        },
    }
    assert(out@ =~= body + pool_wire(state.pool));
    out
}

/// What `blob` says, if it says anything.
pub fn parse(blob: &[u8]) -> (r: Option<PersistedState>)
    ensures
        match r {
            Some(s) => state_of(blob@) == Some(s@),
            None => state_of(blob@) is None,
        },
{
    broadcast use {lemma_u32_le_len, lemma_u64_le_len};

    let mut r = Reader::new(blob);
    let magic: u32 = r.u32()?;
    let schema: u32 = match r.u32() {
        Some(v) => v,
        None => return None,
    };
    let count: u32 = match r.u32() {
        Some(v) => v,
        None => return None,
    };
    proof {
        lemma_u32_at(blob@, 0, magic);
        lemma_u32_at(blob@, 4, schema);
        lemma_u32_at(blob@, 8, count);
    }
    if magic != PERSIST_MAGIC || schema != PERSIST_SCHEMA || count > MAX_STORED_RESERVATIONS {
        return None;
    }
    let mut reservations: Vec<(u64, u32)> = Vec::new();
    let mut i: u32 = 0;
    while i < count
        invariant
            i <= count <= MAX_STORED_RESERVATIONS,
            r.wf(),
            r.data@ == blob@,
            r.at == 12 + 12 * i,
            blob@.len() >= 12,
            u32_at(blob@, 8) == count,
            reservations@ == reservations_at(blob@, i as int),
        decreases count - i,
    {
        broadcast use {lemma_u32_le_len, lemma_u64_le_len};

        let display_id: u64 = match r.u64() {
            Some(v) => v,
            None => return None,
        };
        let connector: u32 = match r.u32() {
            Some(v) => v,
            None => return None,
        };
        proof {
            lemma_u64_at(blob@, 12 + 12 * i, display_id);
            lemma_u32_at(blob@, 20 + 12 * i, connector);
        }
        reservations.push((display_id, connector));
        i += 1;
        assert(reservations@ =~= reservations_at(blob@, i as int));
    }
    let ghost rest = r.at as int;
    let present: u32 = match r.u32() {
        Some(v) => v,
        None => return None,
    };
    proof {
        lemma_u32_at(blob@, rest, present);
    }
    if present == 0 {
        return Some(PersistedState { reservations, pool: None });
    }
    let bytes = match r.bytes(PERMANENT_POOL_CONFIG_SIZE) {
        Some(b) => b,
        None => return None,
    };
    let pool: PermanentPoolConfig = match PermanentPoolConfig::from_bytes(bytes) {
        Some(p) => p,
        None => return None,
    };
    proof {
        assert(bytes@.take(PERMANENT_POOL_CONFIG_SIZE as int) =~= bytes@);
        lemma_pool_at(blob@, rest + 4, pool);
    }
    Some(PersistedState { reservations, pool: Some(pool) })
}

proof fn lemma_reservations_wire_len(s: Seq<(u64, u32)>)
    ensures
        reservations_wire(s).len() == 12 * s.len(),
    decreases s.len(),
{
    broadcast use {lemma_u32_le_len, lemma_u64_le_len};

    if s.len() > 0 {
        lemma_reservations_wire_len(s.drop_last());
    }
}

/// Each reservation stands where the layout puts it.
proof fn lemma_reservation_place(s: Seq<(u64, u32)>, i: int)
    requires
        0 <= i < s.len(),
    ensures
        reservations_wire(s).len() == 12 * s.len(),
        reservations_wire(s).subrange(12 * i, 12 * i + 8) == u64_le(s[i].0),
        reservations_wire(s).subrange(12 * i + 8, 12 * i + 12) == u32_le(s[i].1),
    decreases s.len(),
{
    broadcast use {lemma_u32_le_len, lemma_u64_le_len};

    lemma_reservations_wire_len(s);
    lemma_reservations_wire_len(s.drop_last());
    let w = reservations_wire(s);
    if i < s.len() - 1 {
        lemma_reservation_place(s.drop_last(), i);
        let v = reservations_wire(s.drop_last());
        assert(w.subrange(12 * i, 12 * i + 8) =~= v.subrange(12 * i, 12 * i + 8));
        assert(w.subrange(12 * i + 8, 12 * i + 12) =~= v.subrange(12 * i + 8, 12 * i + 12));
    } else {
        assert(w.subrange(12 * i, 12 * i + 8) =~= u64_le(s[i].0));
        assert(w.subrange(12 * i + 8, 12 * i + 12) =~= u32_le(s[i].1));
    }
}

/// The parts of a blob, wherever it was cut.
proof fn lemma_blob_parts(state: PersistedModel, tail: Seq<u8>)
    requires
        state.reservations.len() <= MAX_STORED_RESERVATIONS,
    ensures
        ({
            let b = blob_of(state) + tail;
            let n = state.reservations.len() as int;
            &&& blob_of(state).len() == 16 + 12 * n + (if state.pool is Some {
                PERMANENT_POOL_CONFIG_SIZE as int
            } else {
                0
            })
            &&& u32_at(b, 0) == PERSIST_MAGIC
            &&& u32_at(b, 4) == PERSIST_SCHEMA
            &&& u32_at(b, 8) == n
            &&& reservations_at(b, n) == state.reservations
            &&& u32_at(b, 12 + 12 * n) == (if state.pool is Some {
                1u32
            } else {
                0
            })
            &&& state.pool matches Some(p) ==> pool_at(b, 16 + 12 * n) == p
        }),
{
    broadcast use {lemma_u32_le_len, lemma_u64_le_len};

    let b = blob_of(state) + tail;
    let rs = state.reservations;
    let n = rs.len() as int;
    let w = reservations_wire(rs);
    lemma_reservations_wire_len(rs);
    if let Some(p) = state.pool {
        p.lemma_wire_len();
        assert(b.subrange(12 + 12 * n, 16 + 12 * n) =~= u32_le(1));
        assert(b.subrange(16 + 12 * n, 16 + 12 * n + PERMANENT_POOL_CONFIG_SIZE) =~= p.wire());
        lemma_u32_at(b, 12 + 12 * n, 1);
        lemma_pool_at(b, 16 + 12 * n, p);
    } else {
        assert(b.subrange(12 + 12 * n, 16 + 12 * n) =~= u32_le(0));
        lemma_u32_at(b, 12 + 12 * n, 0);
    }
    assert(b.subrange(0, 4) =~= u32_le(PERSIST_MAGIC));
    assert(b.subrange(4, 8) =~= u32_le(PERSIST_SCHEMA));
    assert(b.subrange(8, 12) =~= u32_le(n as u32));
    lemma_u32_at(b, 0, PERSIST_MAGIC);
    lemma_u32_at(b, 4, PERSIST_SCHEMA);
    lemma_u32_at(b, 8, n as u32);
    assert(b.subrange(12, 12 + 12 * n) =~= w);
    assert forall|i: int| 0 <= i < n implies #[trigger] reservations_at(b, n)[i] == rs[i] by {
        lemma_reservation_place(rs, i);
        assert(b.subrange(12 + 12 * i, 20 + 12 * i) =~= w.subrange(12 * i, 12 * i + 8));
        assert(b.subrange(20 + 12 * i, 24 + 12 * i) =~= w.subrange(12 * i + 8, 12 * i + 12));
        lemma_u64_at(b, 12 + 12 * i, rs[i].0);
        lemma_u32_at(b, 20 + 12 * i, rs[i].1);
    }
    assert(reservations_at(b, n) =~= rs);
}

/// What was stored is read back, whatever a later writer appended.
pub proof fn law_stored_state_is_read_back(state: PersistedModel, tail: Seq<u8>)
    requires
        state.reservations.len() <= MAX_STORED_RESERVATIONS,
    ensures
        state_of(blob_of(state) + tail) == Some(state),
        state_of(blob_of(state)) == Some(state),
{
    lemma_blob_parts(state, tail);
    lemma_blob_parts(state, Seq::empty());
    assert(blob_of(state) + Seq::<u8>::empty() =~= blob_of(state));
}

/// A blob that lost part of its end says nothing.
pub proof fn law_truncated_state_is_refused(state: PersistedModel, len: int)
    requires
        state.reservations.len() <= MAX_STORED_RESERVATIONS,
        0 <= len < blob_of(state).len(),
    ensures
        state_of(blob_of(state).take(len)) is None,
{
    broadcast use {lemma_u32_le_len, lemma_u64_le_len};

    let whole = blob_of(state);
    let b = whole.take(len);
    let n = state.reservations.len() as int;
    lemma_blob_parts(state, Seq::empty());
    assert(whole + Seq::<u8>::empty() =~= whole);
    if len >= 12 {
        assert(b.subrange(8, 12) =~= whole.subrange(8, 12));
        lemma_reservations_wire_len(state.reservations);
        assert(whole.subrange(8, 12) =~= u32_le(n as u32));
        lemma_u32_at(b, 8, n as u32);
        if len >= 16 + 12 * n {
            assert(b.subrange(12 + 12 * n, 16 + 12 * n) =~= whole.subrange(12 + 12 * n, 16 + 12 * n));
            if let Some(p) = state.pool {
                p.lemma_wire_len();
                assert(whole.subrange(12 + 12 * n, 16 + 12 * n) =~= u32_le(1));
                lemma_u32_at(b, 12 + 12 * n, 1);
            }
        }
    }
}

/// A blob of another format or of a newer schema says nothing.
pub proof fn law_foreign_state_is_refused(b: Seq<u8>)
    requires
        u32_at(b, 0) != PERSIST_MAGIC || u32_at(b, 4) != PERSIST_SCHEMA || u32_at(b, 8)
            > MAX_STORED_RESERVATIONS,
    ensures
        state_of(b) is None,
{
}

/// Where the parts of a blob stand: a magic, the schema, the number of reservations, each
/// reservation as identity and connector, and then a word that is one when the pool
/// follows and zero when there is none.
pub proof fn law_blob_layout(state: PersistedModel)
    requires
        state.reservations.len() <= 1024,
    ensures
        ({
            let b = blob_of(state);
            let n = state.reservations.len() as int;
            &&& wire::u32_at(b, 0) == 0x4C56_4750
            &&& wire::u32_at(b, 4) == 1
            &&& wire::u32_at(b, 8) == n
            &&& forall|i: int|
                0 <= i < n ==> {
                    &&& wire::u64_at(b, 12 + 12 * i) == (#[trigger] state.reservations[i]).0
                    &&& wire::u32_at(b, 20 + 12 * i) == state.reservations[i].1
                }
            &&& wire::u32_at(b, 12 + 12 * n) == (if state.pool is Some {
                1int
            } else {
                0
            })
            &&& state.pool is None ==> b.len() == 16 + 12 * n
            &&& state.pool matches Some(p) ==> b.len() == 112 + 12 * n && b.subrange(
                16 + 12 * n,
                112 + 12 * n,
            ) == p.wire()
        }),
{
    broadcast use {lemma_u32_le_len, lemma_u64_le_len};

    let b = blob_of(state);
    let rs = state.reservations;
    let n = rs.len() as int;
    let w = reservations_wire(rs);
    lemma_reservations_wire_len(rs);
    wire::law_u32_reads_back(PERSIST_MAGIC);
    wire::law_u32_reads_back(PERSIST_SCHEMA);
    wire::law_u32_reads_back(n as u32);
    wire::law_u32_reads_back(1);
    wire::law_u32_reads_back(0);
    assert(b.subrange(0, 4) =~= u32_le(PERSIST_MAGIC));
    assert(b.subrange(4, 8) =~= u32_le(PERSIST_SCHEMA));
    assert(b.subrange(8, 12) =~= u32_le(n as u32));
    lemma_reads_part(b, 0, 4);
    lemma_reads_part(b, 4, 4);
    lemma_reads_part(b, 8, 4);
    assert(b.subrange(12, 12 + 12 * n) =~= w);
    assert forall|i: int| 0 <= i < n implies wire::u64_at(b, 12 + 12 * i) == (
    #[trigger] rs[i]).0 && wire::u32_at(b, 20 + 12 * i) == rs[i].1 by {
        lemma_reservation_place(rs, i);
        assert(b.subrange(12 + 12 * i, 20 + 12 * i) =~= w.subrange(12 * i, 12 * i + 8));
        assert(b.subrange(20 + 12 * i, 24 + 12 * i) =~= w.subrange(12 * i + 8, 12 * i + 12));
        wire::law_u64_reads_back(rs[i].0);
        wire::law_u32_reads_back(rs[i].1);
        lemma_reads_part(b, 12 + 12 * i, 8);
        lemma_reads_part(b, 20 + 12 * i, 4);
    }
    if let Some(p) = state.pool {
        p.lemma_wire_len();
        assert(b.subrange(12 + 12 * n, 16 + 12 * n) =~= u32_le(1));
        assert(b.subrange(16 + 12 * n, 112 + 12 * n) =~= p.wire());
    } else {
        assert(b.subrange(12 + 12 * n, 16 + 12 * n) =~= u32_le(0));
    }
    lemma_reads_part(b, 12 + 12 * n, 4);
}

proof fn lemma_reads_part(b: Seq<u8>, at: int, len: int)
    requires
        0 <= at,
        at + len <= b.len(),
        len == 4 || len == 8,
    ensures
        wire::u32_at(b, at) == wire::u32_at(b.subrange(at, at + len), 0),
        len == 8 ==> wire::u64_at(b, at) == wire::u64_at(b.subrange(at, at + len), 0),
{
    let p = b.subrange(at, at + len);
    assert forall|i: int| 0 <= i < len implies #[trigger] p[i] == b[at + i] by {}
    assert(p[0] == b[at] && p[1] == b[at + 1] && p[2] == b[at + 2] && p[3] == b[at + 3]);
    if len == 8 {
        assert(p[4] == b[at + 4] && p[5] == b[at + 5] && p[6] == b[at + 6] && p[7] == b[at + 7]);
    }
}

/// The value at an offset is the one its bytes spell.
#[verifier::rlimit(80)]
#[verifier::spinoff_prover]
proof fn lemma_u32_at_bytes(b: Seq<u8>, at: int)
    requires
        0 <= at,
        at + 4 <= b.len(),
    ensures
        u32_at(b, at) == wire::u32_at(b, at),
        0 <= wire::u32_at(b, at) < 0x1_0000_0000,
        u32_le(wire::u32_at(b, at) as u32) == b.subrange(at, at + 4),
{
    let v = wire::u32_at(b, at) as u32;
    assert(u32_le(v) =~= b.subrange(at, at + 4)) by {
        reveal(crate::proto::wire::u16_le);
        reveal(crate::proto::wire::u32_le);
        let (b0, b1, b2, b3) = (
            b[at] as int,
            b[at + 1] as int,
            b[at + 2] as int,
            b[at + 3] as int,
        );
        assert(v % 0x1_0000 == b0 + 0x100 * b1);
        assert(v / 0x1_0000 == b2 + 0x100 * b3);
    }
    lemma_u32_at(b, at, v);
}

proof fn lemma_u64_at_bytes(b: Seq<u8>, at: int)
    requires
        0 <= at,
        at + 8 <= b.len(),
    ensures
        u64_at(b, at) == wire::u64_at(b, at),
{
    broadcast use {lemma_u32_le_len, lemma_u64_le_len};

    lemma_u32_at_bytes(b, at);
    lemma_u32_at_bytes(b, at + 4);
    let (lo, hi) = (wire::u32_at(b, at) as u32, wire::u32_at(b, at + 4) as u32);
    let v = wire::u64_at(b, at) as u64;
    assert(v % 0x1_0000_0000 == lo && v / 0x1_0000_0000 == hi);
    assert(u64_le(v) == u32_le(lo) + u32_le(hi)) by {
        reveal(crate::proto::wire::u64_le);
    }
    assert(b.subrange(at, at + 4) + b.subrange(at + 4, at + 8) =~= b.subrange(at, at + 8));
    lemma_u64_at(b, at, v);
}

/// Which blobs say anything, and what: one of the right magic and schema, with at most 1024
/// reservations and all of its parts there. Each reservation is read where it stands.
pub proof fn law_blob_acceptance_is_exact(b: Seq<u8>)
    ensures
        ({
            let n = wire::u32_at(b, 8);
            let headed = b.len() >= 12 && wire::u32_at(b, 0) == 0x4C56_4750 && wire::u32_at(b, 4) == 1
                && n <= 1024 && b.len() >= 16 + 12 * n;
            let pool = wire::u32_at(b, 12 + 12 * n) != 0;
            &&& state_of(b) is Some <==> headed && (pool ==> b.len() >= 112 + 12 * n)
            &&& state_of(b) matches Some(s) ==> {
                &&& s.reservations.len() == n
                &&& s.pool is Some <==> pool
                &&& forall|i: int|
                    0 <= i < n ==> {
                        &&& (#[trigger] s.reservations[i]).0 == wire::u64_at(b, 12 + 12 * i)
                        &&& s.reservations[i].1 == wire::u32_at(b, 20 + 12 * i)
                    }
            }
        }),
{
    if b.len() >= 12 {
        lemma_u32_at_bytes(b, 0);
        lemma_u32_at_bytes(b, 4);
        lemma_u32_at_bytes(b, 8);
        let n = wire::u32_at(b, 8);
        if n <= 1024 && b.len() >= 16 + 12 * n {
            lemma_u32_at_bytes(b, 12 + 12 * n);
            assert forall|i: int| 0 <= i < n implies (#[trigger] reservations_at(b, n)[i]).0
                == wire::u64_at(b, 12 + 12 * i) && reservations_at(b, n)[i].1 == wire::u32_at(
                b,
                20 + 12 * i,
            ) by {
                lemma_u64_at_bytes(b, 12 + 12 * i);
                lemma_u32_at_bytes(b, 20 + 12 * i);
            }
        }
    }
}

} // verus!
