//! Little-endian encoding of integers, and a cursor over untrusted bytes.
use vstd::prelude::*;

verus! {

/// The two bytes of `v`, least significant first.
#[verifier::opaque]
pub open spec fn u16_le(v: u16) -> Seq<u8> {
    seq![(v % 256) as u8, (v / 256) as u8]
}

/// The four bytes of `v`, least significant first.
#[verifier::opaque]
pub open spec fn u32_le(v: u32) -> Seq<u8> {
    u16_le((v % 0x1_0000) as u16) + u16_le((v / 0x1_0000) as u16)
}

/// The eight bytes of `v`, least significant first.
#[verifier::opaque]
pub open spec fn u64_le(v: u64) -> Seq<u8> {
    u32_le((v % 0x1_0000_0000) as u32) + u32_le((v / 0x1_0000_0000) as u32)
}

/// The two's complement bit pattern of `v`.
pub open spec fn i32_bits(v: i32) -> u32 {
    if v >= 0 {
        v as u32
    } else {
        (v + 0x1_0000_0000) as u32
    }
}

/// The four bytes of a signed value, least significant first.
#[verifier::opaque]
pub open spec fn i32_le(v: i32) -> Seq<u8> {
    u32_le(i32_bits(v))
}

/// The bytes of a sequence of 16-bit values, in order.
pub open spec fn u16s_le(s: Seq<u16>) -> Seq<u8>
    decreases s.len(),
{
    if s.len() == 0 {
        Seq::empty()
    } else {
        u16s_le(s.drop_last()) + u16_le(s.last())
    }
}

/// The bytes of a sequence of 32-bit values, in order.
pub open spec fn u32s_le(s: Seq<u32>) -> Seq<u8>
    decreases s.len(),
{
    if s.len() == 0 {
        Seq::empty()
    } else {
        u32s_le(s.drop_last()) + u32_le(s.last())
    }
}

pub broadcast proof fn lemma_u16_le_len(v: u16)
    ensures
        #[trigger] u16_le(v).len() == 2,
{
    reveal(u16_le);
}

pub broadcast proof fn lemma_u32_le_len(v: u32)
    ensures
        #[trigger] u32_le(v).len() == 4,
{
    reveal(u16_le);
    reveal(u32_le);
}

pub broadcast proof fn lemma_u64_le_len(v: u64)
    ensures
        #[trigger] u64_le(v).len() == 8,
{
    reveal(u64_le);
    lemma_u32_le_len((v % 0x1_0000_0000) as u32);
    lemma_u32_le_len((v / 0x1_0000_0000) as u32);
}

pub broadcast proof fn lemma_i32_le_len(v: i32)
    ensures
        #[trigger] i32_le(v).len() == 4,
{
    reveal(i32_le);
    lemma_u32_le_len(i32_bits(v));
}

pub broadcast group group_le_len {
    lemma_u16_le_len,
    lemma_u32_le_len,
    lemma_u64_le_len,
    lemma_i32_le_len,
}

pub proof fn lemma_u16_le_injective(a: u16, b: u16)
    requires
        u16_le(a) == u16_le(b),
    ensures
        a == b,
{
    reveal(u16_le);
    assert(u16_le(a)[0] == u16_le(b)[0]);
    assert(u16_le(a)[1] == u16_le(b)[1]);
}

pub proof fn lemma_u32_le_injective(a: u32, b: u32)
    requires
        u32_le(a) == u32_le(b),
    ensures
        a == b,
{
    reveal(u32_le);
    broadcast use lemma_u16_le_len;

    let (al, ah) = ((a % 0x1_0000) as u16, (a / 0x1_0000) as u16);
    let (bl, bh) = ((b % 0x1_0000) as u16, (b / 0x1_0000) as u16);
    assert(u32_le(a).take(2) =~= u16_le(al));
    assert(u32_le(b).take(2) =~= u16_le(bl));
    assert(u32_le(a).skip(2) =~= u16_le(ah));
    assert(u32_le(b).skip(2) =~= u16_le(bh));
    lemma_u16_le_injective(al, bl);
    lemma_u16_le_injective(ah, bh);
}

pub proof fn lemma_u64_le_injective(a: u64, b: u64)
    requires
        u64_le(a) == u64_le(b),
    ensures
        a == b,
{
    reveal(u64_le);
    broadcast use lemma_u32_le_len;

    let (al, ah) = ((a % 0x1_0000_0000) as u32, (a / 0x1_0000_0000) as u32);
    let (bl, bh) = ((b % 0x1_0000_0000) as u32, (b / 0x1_0000_0000) as u32);
    assert(u64_le(a).take(4) =~= u32_le(al));
    assert(u64_le(b).take(4) =~= u32_le(bl));
    assert(u64_le(a).skip(4) =~= u32_le(ah));
    assert(u64_le(b).skip(4) =~= u32_le(bh));
    lemma_u32_le_injective(al, bl);
    lemma_u32_le_injective(ah, bh);
}

pub proof fn lemma_i32_le_injective(a: i32, b: i32)
    requires
        i32_le(a) == i32_le(b),
    ensures
        a == b,
{
    reveal(i32_le);
    lemma_u32_le_injective(i32_bits(a), i32_bits(b));
}

pub proof fn lemma_u16s_le_len(s: Seq<u16>)
    ensures
        u16s_le(s).len() == 2 * s.len(),
    decreases s.len(),
{
    broadcast use lemma_u16_le_len;

    if s.len() > 0 {
        lemma_u16s_le_len(s.drop_last());
    }
}

pub proof fn lemma_u32s_le_len(s: Seq<u32>)
    ensures
        u32s_le(s).len() == 4 * s.len(),
    decreases s.len(),
{
    broadcast use lemma_u32_le_len;

    if s.len() > 0 {
        lemma_u32s_le_len(s.drop_last());
    }
}

pub proof fn lemma_u16s_le_injective(a: Seq<u16>, b: Seq<u16>)
    requires
        a.len() == b.len(),
        u16s_le(a) == u16s_le(b),
    ensures
        a == b,
    decreases a.len(),
{
    broadcast use lemma_u16_le_len;

    lemma_u16s_le_len(a);
    lemma_u16s_le_len(b);
    if a.len() > 0 {
        let n = 2 * (a.len() - 1);
        lemma_u16s_le_len(a.drop_last());
        lemma_u16s_le_len(b.drop_last());
        assert(u16s_le(a).take(n) =~= u16s_le(a.drop_last()));
        assert(u16s_le(b).take(n) =~= u16s_le(b.drop_last()));
        assert(u16s_le(a).skip(n) =~= u16_le(a.last()));
        assert(u16s_le(b).skip(n) =~= u16_le(b.last()));
        lemma_u16_le_injective(a.last(), b.last());
        lemma_u16s_le_injective(a.drop_last(), b.drop_last());
        assert(a =~= a.drop_last().push(a.last()));
        assert(b =~= b.drop_last().push(b.last()));
    } else {
        assert(a =~= b);
    }
}

pub proof fn lemma_u32s_le_injective(a: Seq<u32>, b: Seq<u32>)
    requires
        a.len() == b.len(),
        u32s_le(a) == u32s_le(b),
    ensures
        a == b,
    decreases a.len(),
{
    broadcast use lemma_u32_le_len;

    lemma_u32s_le_len(a);
    lemma_u32s_le_len(b);
    if a.len() > 0 {
        let n = 4 * (a.len() - 1);
        lemma_u32s_le_len(a.drop_last());
        lemma_u32s_le_len(b.drop_last());
        assert(u32s_le(a).take(n) =~= u32s_le(a.drop_last()));
        assert(u32s_le(b).take(n) =~= u32s_le(b.drop_last()));
        assert(u32s_le(a).skip(n) =~= u32_le(a.last()));
        assert(u32s_le(b).skip(n) =~= u32_le(b.last()));
        lemma_u32_le_injective(a.last(), b.last());
        lemma_u32s_le_injective(a.drop_last(), b.drop_last());
        assert(a =~= a.drop_last().push(a.last()));
        assert(b =~= b.drop_last().push(b.last()));
    } else {
        assert(a =~= b);
    }
}

/// Two encodings with tails of equal length agree piece by piece.
pub proof fn lemma_peel(x: Seq<u8>, u: Seq<u8>, y: Seq<u8>, v: Seq<u8>)
    requires
        x + u == y + v,
        u.len() == v.len(),
    ensures
        x == y,
        u == v,
{
    let n = x.len() as int;
    assert((x + u).len() == x.len() + u.len());
    assert((y + v).len() == y.len() + v.len());
    assert((x + u).take(n) =~= x);
    assert((y + v).take(n) =~= y);
    assert((x + u).skip(n) =~= u);
    assert((y + v).skip(n) =~= v);
}

pub fn put_u16(out: &mut Vec<u8>, v: u16)
    ensures
        final(out)@ == old(out)@ + u16_le(v),
{
    proof {
        reveal(u16_le);
    }
    out.push((v % 256) as u8);
    out.push((v / 256) as u8);
    assert(out@ =~= old(out)@ + u16_le(v));
}

pub fn put_u32(out: &mut Vec<u8>, v: u32)
    ensures
        final(out)@ == old(out)@ + u32_le(v),
{
    proof {
        reveal(u32_le);
    }
    put_u16(out, (v % 0x1_0000) as u16);
    put_u16(out, (v / 0x1_0000) as u16);
    assert(out@ =~= old(out)@ + u32_le(v));
}

pub fn put_u64(out: &mut Vec<u8>, v: u64)
    ensures
        final(out)@ == old(out)@ + u64_le(v),
{
    proof {
        reveal(u64_le);
    }
    put_u32(out, (v % 0x1_0000_0000) as u32);
    put_u32(out, (v / 0x1_0000_0000) as u32);
    assert(out@ =~= old(out)@ + u64_le(v));
}

pub fn put_i32(out: &mut Vec<u8>, v: i32)
    ensures
        final(out)@ == old(out)@ + i32_le(v),
{
    proof {
        reveal(i32_le);
    }
    let bits: u32 = if v >= 0 {
        v as u32
    } else {
        (v as i64 + 0x1_0000_0000) as u32
    };
    put_u32(out, bits);
}

pub fn put_u16s(out: &mut Vec<u8>, values: &[u16])
    ensures
        final(out)@ == old(out)@ + u16s_le(values@),
{
    let mut i: usize = 0;
    assert(out@ =~= old(out)@ + u16s_le(values@.take(0)));
    while i < values.len()
        invariant
            i <= values@.len(),
            out@ == old(out)@ + u16s_le(values@.take(i as int)),
        decreases values@.len() - i,
    {
        put_u16(out, values[i]);
        proof {
            let upto = values@.take(i + 1);
            assert(upto.drop_last() =~= values@.take(i as int));
            assert(out@ =~= old(out)@ + u16s_le(upto));
        }
        i += 1;
    }
    assert(values@.take(i as int) =~= values@);
}

pub fn put_u32s(out: &mut Vec<u8>, values: &[u32])
    ensures
        final(out)@ == old(out)@ + u32s_le(values@),
{
    let mut i: usize = 0;
    assert(out@ =~= old(out)@ + u32s_le(values@.take(0)));
    while i < values.len()
        invariant
            i <= values@.len(),
            out@ == old(out)@ + u32s_le(values@.take(i as int)),
        decreases values@.len() - i,
    {
        put_u32(out, values[i]);
        proof {
            let upto = values@.take(i + 1);
            assert(upto.drop_last() =~= values@.take(i as int));
            assert(out@ =~= old(out)@ + u32s_le(upto));
        }
        i += 1;
    }
    assert(values@.take(i as int) =~= values@);
}

pub fn put_bytes(out: &mut Vec<u8>, bytes: &[u8])
    ensures
        final(out)@ == old(out)@ + bytes@,
{
    let mut i: usize = 0;
    assert(out@ =~= old(out)@ + bytes@.take(0));
    while i < bytes.len()
        invariant
            i <= bytes@.len(),
            out@ == old(out)@ + bytes@.take(i as int),
        decreases bytes@.len() - i,
    {
        out.push(bytes[i]);
        i += 1;
        assert(out@ =~= old(out)@ + bytes@.take(i as int));
    }
    assert(bytes@.take(i as int) =~= bytes@);
}

/// A cursor over bytes of unknown origin. Every read either advances past
/// the bytes it decoded or fails and stays where it was.
pub struct Reader<'a> {
    pub data: &'a [u8],
    pub at: usize,
}

impl<'a> Reader<'a> {
    pub open spec fn wf(&self) -> bool {
        self.at <= self.data@.len()
    }

    /// What has been read so far.
    pub open spec fn consumed(&self) -> Seq<u8> {
        self.data@.take(self.at as int)
    }

    /// `next` is this cursor after decoding `bytes`.
    pub open spec fn advanced(&self, next: &Self, bytes: Seq<u8>) -> bool {
        &&& next.wf()
        &&& next.data@ == self.data@
        &&& next.at == self.at + bytes.len()
        &&& next.consumed() == self.consumed() + bytes
        &&& bytes == self.data@.subrange(self.at as int, next.at as int)
    }

    pub fn new(data: &'a [u8]) -> (r: Self)
        ensures
            r.wf(),
            r.data@ == data@,
            r.at == 0,
            r.consumed() == Seq::<u8>::empty(),
    {
        Reader { data, at: 0 }
    }

    pub fn u16(&mut self) -> (r: Option<u16>)
        requires
            old(self).wf(),
        ensures
            r is Some <==> old(self).at + 2 <= old(self).data@.len(),
            r matches Some(v) ==> old(self).advanced(final(self), u16_le(v)),
            r is None ==> *final(self) == *old(self),
    {
        proof {
            reveal(u16_le);
        }
        if self.data.len() - self.at < 2 {
            return None;
        }
        let v: u16 = self.data[self.at] as u16 + 256 * (self.data[self.at + 1] as u16);
        self.at += 2;
        assert(u16_le(v) =~= self.data@.subrange(old(self).at as int, self.at as int));
        assert(self.consumed() =~= old(self).consumed() + u16_le(v));
        Some(v)
    }

    pub fn u32(&mut self) -> (r: Option<u32>)
        requires
            old(self).wf(),
        ensures
            r is Some <==> old(self).at + 4 <= old(self).data@.len(),
            r matches Some(v) ==> old(self).advanced(final(self), u32_le(v)),
            r is None ==> *final(self) == *old(self),
    {
        proof {
            reveal(u32_le);
        }
        broadcast use lemma_u16_le_len;

        if self.data.len() - self.at < 4 {
            return None;
        }
        let (Some(lo), Some(hi)) = (self.u16(), self.u16()) else {
            return None;
        };
        let v: u32 = lo as u32 + 0x1_0000 * (hi as u32);
        assert((v % 0x1_0000) as u16 == lo && (v / 0x1_0000) as u16 == hi);
        assert(self.consumed() =~= old(self).consumed() + u32_le(v));
        assert(u32_le(v) =~= self.data@.subrange(old(self).at as int, self.at as int));
        Some(v)
    }

    pub fn u64(&mut self) -> (r: Option<u64>)
        requires
            old(self).wf(),
        ensures
            r is Some <==> old(self).at + 8 <= old(self).data@.len(),
            r matches Some(v) ==> old(self).advanced(final(self), u64_le(v)),
            r is None ==> *final(self) == *old(self),
    {
        proof {
            reveal(u64_le);
        }
        broadcast use lemma_u32_le_len;

        if self.data.len() - self.at < 8 {
            return None;
        }
        let (Some(lo), Some(hi)) = (self.u32(), self.u32()) else {
            return None;
        };
        let v: u64 = lo as u64 + 0x1_0000_0000 * (hi as u64);
        assert((v % 0x1_0000_0000) as u32 == lo && (v / 0x1_0000_0000) as u32 == hi);
        assert(self.consumed() =~= old(self).consumed() + u64_le(v));
        assert(u64_le(v) =~= self.data@.subrange(old(self).at as int, self.at as int));
        Some(v)
    }

    pub fn i32(&mut self) -> (r: Option<i32>)
        requires
            old(self).wf(),
        ensures
            r is Some <==> old(self).at + 4 <= old(self).data@.len(),
            r matches Some(v) ==> old(self).advanced(final(self), i32_le(v)),
            r is None ==> *final(self) == *old(self),
    {
        proof {
            reveal(i32_le);
        }
        let bits: u32 = self.u32()?;
        let v: i32 = if bits < 0x8000_0000 {
            bits as i32
        } else {
            (bits as i64 - 0x1_0000_0000) as i32
        };
        assert(i32_bits(v) == bits);
        Some(v)
    }

    /// The next `n` bytes as they stand.
    pub fn bytes(&mut self, n: usize) -> (r: Option<&'a [u8]>)
        requires
            old(self).wf(),
        ensures
            r is Some <==> old(self).at + n <= old(self).data@.len(),
            r matches Some(b) ==> b@.len() == n && old(self).advanced(final(self), b@),
            r is None ==> *final(self) == *old(self),
    {
        if self.data.len() - self.at < n {
            return None;
        }
        let b = vstd::slice::slice_subrange(self.data, self.at, self.at + n);
        self.at += n;
        assert(self.consumed() =~= old(self).consumed() + b@);
        Some(b)
    }

    /// `N` consecutive 16-bit values.
    pub fn u16s<const N: usize>(&mut self) -> (r: Option<[u16; N]>)
        requires
            old(self).wf(),
        ensures
            r is Some <==> old(self).at + 2 * N <= old(self).data@.len(),
            r matches Some(v) ==> old(self).advanced(final(self), u16s_le(v@)),
            r is Some ==> final(self).at == old(self).at + 2 * N,
    {
        broadcast use lemma_u16_le_len;

        let mut out: [u16; N] = [0u16; N];
        let mut i: usize = 0;
        assert(self.consumed() =~= old(self).consumed() + u16s_le(out@.take(0)));
        assert(u16s_le(out@.take(0)) =~= self.data@.subrange(self.at as int, self.at as int));
        while i < N
            invariant
                i <= N,
                out@.len() == N,
                old(self).wf(),
                u16s_le(out@.take(i as int)).len() == 2 * i,
                old(self).advanced(self, u16s_le(out@.take(i as int))),
            decreases N - i,
        {
            let ghost before = out@.take(i as int);
            let v: u16 = self.u16()?;
            out[i] = v;
            proof {
                let upto = out@.take(i + 1);
                assert(upto.drop_last() =~= before);
                lemma_u16s_le_len(upto);
                assert(self.consumed() =~= old(self).consumed() + u16s_le(upto));
                assert(u16s_le(upto) =~= self.data@.subrange(old(self).at as int, self.at as int));
            }
            i += 1;
        }
        assert(out@.take(i as int) =~= out@);
        Some(out)
    }

    /// `N` consecutive 32-bit values.
    pub fn u32s<const N: usize>(&mut self) -> (r: Option<[u32; N]>)
        requires
            old(self).wf(),
        ensures
            r is Some <==> old(self).at + 4 * N <= old(self).data@.len(),
            r matches Some(v) ==> old(self).advanced(final(self), u32s_le(v@)),
            r is Some ==> final(self).at == old(self).at + 4 * N,
    {
        broadcast use lemma_u32_le_len;

        let mut out: [u32; N] = [0u32; N];
        let mut i: usize = 0;
        assert(self.consumed() =~= old(self).consumed() + u32s_le(out@.take(0)));
        assert(u32s_le(out@.take(0)) =~= self.data@.subrange(self.at as int, self.at as int));
        while i < N
            invariant
                i <= N,
                out@.len() == N,
                old(self).wf(),
                u32s_le(out@.take(i as int)).len() == 4 * i,
                old(self).advanced(self, u32s_le(out@.take(i as int))),
            decreases N - i,
        {
            let ghost before = out@.take(i as int);
            let v: u32 = self.u32()?;
            out[i] = v;
            proof {
                let upto = out@.take(i + 1);
                assert(upto.drop_last() =~= before);
                lemma_u32s_le_len(upto);
                assert(self.consumed() =~= old(self).consumed() + u32s_le(upto));
                assert(u32s_le(upto) =~= self.data@.subrange(old(self).at as int, self.at as int));
            }
            i += 1;
        }
        assert(out@.take(i as int) =~= out@);
        Some(out)
    }
}

/// The 16-bit value that stands at `at`, least significant byte first.
pub open spec fn u16_at(b: Seq<u8>, at: int) -> int {
    b[at] + 0x100 * b[at + 1]
}

/// The 32-bit value that stands at `at`, least significant byte first.
pub open spec fn u32_at(b: Seq<u8>, at: int) -> int {
    b[at] + 0x100 * b[at + 1] + 0x1_0000 * b[at + 2] + 0x100_0000 * b[at + 3]
}

/// The 64-bit value that stands at `at`, least significant byte first.
pub open spec fn u64_at(b: Seq<u8>, at: int) -> int {
    u32_at(b, at) + 0x1_0000_0000 * u32_at(b, at + 4)
}

/// The signed 32-bit value that stands at `at`, in two's complement.
pub open spec fn i32_at(b: Seq<u8>, at: int) -> int {
    if u32_at(b, at) < 0x8000_0000 {
        u32_at(b, at)
    } else {
        u32_at(b, at) - 0x1_0000_0000
    }
}

/// Reading an encoded 16-bit value byte by byte gives the value back.
pub proof fn law_u16_reads_back(v: u16)
    ensures
        u16_le(v).len() == 2,
        u16_at(u16_le(v), 0) == v,
{
    reveal(u16_le);
}

/// Reading an encoded 32-bit value byte by byte gives the value back.
pub proof fn law_u32_reads_back(v: u32)
    ensures
        u32_le(v).len() == 4,
        u32_at(u32_le(v), 0) == v,
{
    reveal(u16_le);
    reveal(u32_le);
}

/// Reading an encoded 64-bit value byte by byte gives the value back.
pub proof fn law_u64_reads_back(v: u64)
    ensures
        u64_le(v).len() == 8,
        u64_at(u64_le(v), 0) == v,
{
    reveal(u64_le);
    let (lo, hi) = ((v % 0x1_0000_0000) as u32, (v / 0x1_0000_0000) as u32);
    law_u32_reads_back(lo);
    law_u32_reads_back(hi);
    assert(u32_at(u64_le(v), 0) == u32_at(u32_le(lo), 0));
    assert(u32_at(u64_le(v), 4) == u32_at(u32_le(hi), 0));
}

/// Reading an encoded signed value byte by byte gives the value back.
pub proof fn law_i32_reads_back(v: i32)
    ensures
        i32_le(v).len() == 4,
        i32_at(i32_le(v), 0) == v,
{
    reveal(i32_le);
    law_u32_reads_back(i32_bits(v));
}

/// Encoded 16-bit values stand side by side in their order.
pub proof fn law_u16s_read_back(s: Seq<u16>)
    ensures
        u16s_le(s).len() == 2 * s.len(),
        forall|i: int| 0 <= i < s.len() ==> u16_at(u16s_le(s), 2 * i) == #[trigger] s[i],
    decreases s.len(),
{
    if s.len() > 0 {
        let rest = s.drop_last();
        law_u16s_read_back(rest);
        law_u16_reads_back(s.last());
        assert forall|i: int| 0 <= i < s.len() implies u16_at(u16s_le(s), 2 * i) == #[trigger] s[i] by {
            if i < rest.len() {
                assert(rest[i] == s[i]);
                assert(u16_at(u16s_le(rest), 2 * i) == rest[i]);
            }
        }
    }
}

/// Encoded 32-bit values stand side by side in their order.
pub proof fn law_u32s_read_back(s: Seq<u32>)
    ensures
        u32s_le(s).len() == 4 * s.len(),
        forall|i: int| 0 <= i < s.len() ==> u32_at(u32s_le(s), 4 * i) == #[trigger] s[i],
    decreases s.len(),
{
    if s.len() > 0 {
        let rest = s.drop_last();
        law_u32s_read_back(rest);
        law_u32_reads_back(s.last());
        assert forall|i: int| 0 <= i < s.len() implies u32_at(u32s_le(s), 4 * i) == #[trigger] s[i] by {
            if i < rest.len() {
                assert(rest[i] == s[i]);
                assert(u32_at(u32s_le(rest), 4 * i) == rest[i]);
            }
        }
    }
}

} // verus!
