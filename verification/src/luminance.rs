//! Luminance codes of the HDR static metadata block.
//!
//! Peak luminance is coded as `50 * 2^(code/32)` nits, minimum luminance as
//! `peak * (code/255)^2 / 100` nits. Finding the nearest code means comparing
//! logarithms and roots; here both sides are raised to a power that makes them
//! integers, and compared exactly.
use vstd::arithmetic::power::{lemma_pow_positive, pow};
use vstd::prelude::*;

verus! {

pub const HDR_MAX_LUMINANCE_CODE: u8 = 138;

pub const HDR_MAX_FALL_CODE: u8 = 96;

pub const HDR_MIN_LUMINANCE_CODE: u8 = 18;

/// The three luminance codes of a monitor.
#[derive(Clone, Copy, Debug, PartialEq, Eq, Structural)]
pub struct HdrLuminanceCodes {
    pub max: u8,
    pub max_fall: u8,
    pub min: u8,
}

/// The number that little-endian limbs stand for.
pub open spec fn limbs_value(s: Seq<u32>) -> int
    decreases s.len(),
{
    if s.len() == 0 {
        0
    } else {
        limbs_value(s.drop_last()) + s.last() * pow(0x1_0000_0000, (s.len() - 1) as nat)
    }
}

/// A natural number of any size.
struct Big {
    limbs: Vec<u32>,
}

impl Big {
    spec fn value(&self) -> int {
        limbs_value(self.limbs@)
    }

    fn of(v: u32) -> (r: Big)
        ensures
            r.value() == v,
    {
        let mut limbs: Vec<u32> = Vec::new();
        limbs.push(v);
        proof {
            reveal(pow);
            assert(limbs@.drop_last() =~= Seq::<u32>::empty());
            assert(limbs_value(limbs@.drop_last()) == 0);
        }
        Big { limbs }
    }

    /// Multiply by `m`.
    fn scale(&mut self, m: u32)
        ensures
            final(self).value() == old(self).value() * m,
    {
        let mut carry: u32 = 0;
        let mut i: usize = 0;
        let n: usize = self.limbs.len();
        let ghost before = self.limbs@;
        proof {
            assert(before.take(0) =~= Seq::<u32>::empty());
            assert(0 * pow(0x1_0000_0000, 0) == 0) by (nonlinear_arith);
        }
        while i < n
            invariant
                i <= n,
                n == self.limbs@.len() == before.len(),
                forall|j: int| i <= j < n ==> self.limbs@[j] == before[j],
                limbs_value(self.limbs@.take(i as int)) + carry * pow(0x1_0000_0000, i as nat)
                    == limbs_value(before.take(i as int)) * m,
            decreases n - i,
        {
            let ghost low = self.limbs@.take(i as int);
            let digit: u32 = self.limbs[i];
            assert(digit * m + carry <= 0xFFFF_FFFF * 0xFFFF_FFFF + 0xFFFF_FFFF) by (nonlinear_arith)
                requires
                    digit <= 0xFFFF_FFFF,
                    m <= 0xFFFF_FFFF,
                    carry <= 0xFFFF_FFFF,
            ;
            assert(0 <= digit * m) by (nonlinear_arith)
                requires
                    0 <= digit,
                    0 <= m,
            ;
            let t: u64 = digit as u64 * m as u64 + carry as u64;
            let out: u32 = (t % 0x1_0000_0000) as u32;
            let next: u32 = (t / 0x1_0000_0000) as u32;
            self.limbs[i] = out;
            proof {
                let p = pow(0x1_0000_0000, i as nat);
                reveal(pow);
                let b = 0x1_0000_0000int;
                assert(pow(b, (i + 1) as nat) == b * p);
                assert(self.limbs@.take(i + 1).drop_last() =~= low);
                assert(before.take(i + 1).drop_last() =~= before.take(i as int));
                let (lo, lb) = (limbs_value(low), limbs_value(before.take(i as int)));
                assert(limbs_value(self.limbs@.take(i + 1)) == lo + out * p);
                assert(limbs_value(before.take(i + 1)) == lb + digit * p);
                assert(t == digit * m + carry);
                assert(t == next * b + out);
                assert(lo + out * p + next * (b * p) == (lb + digit * p) * m) by (nonlinear_arith)
                    requires
                        lo + carry * p == lb * m,
                        next * b + out == digit * m + carry,
                ;
            }
            carry = next;
            i += 1;
        }
        proof {
            assert(self.limbs@.take(n as int) =~= self.limbs@);
            assert(before.take(n as int) =~= before);
        }
        if carry > 0 {
            let ghost now = self.limbs@;
            self.limbs.push(carry);
            assert(self.limbs@.drop_last() =~= now);
        } else {
            assert(0 * pow(0x1_0000_0000, n as nat) == 0) by (nonlinear_arith);
        }
    }

    /// Append zero limbs up to `n` limbs.
    fn pad(&mut self, n: usize)
        ensures
            final(self).value() == old(self).value(),
            final(self).limbs@.len() == (if n >= old(self).limbs@.len() {
                n as nat
            } else {
                old(self).limbs@.len()
            }),
    {
        while self.limbs.len() < n
            invariant
                self.value() == old(self).value(),
                self.limbs@.len() >= old(self).limbs@.len(),
                n >= old(self).limbs@.len() ==> self.limbs@.len() <= n,
                n < old(self).limbs@.len() ==> self.limbs@.len() == old(self).limbs@.len(),
            decreases n - self.limbs@.len(),
        {
            let ghost now = self.limbs@;
            self.limbs.push(0);
            assert(self.limbs@.drop_last() =~= now);
            assert(0 * pow(0x1_0000_0000, now.len()) == 0) by (nonlinear_arith);
        }
    }

    /// Whether this number is below `other`.
    fn below(&mut self, other: &mut Big) -> (r: bool)
        ensures
            final(self).value() == old(self).value(),
            final(other).value() == old(other).value(),
            r == (old(self).value() < old(other).value()),
    {
        self.pad(other.limbs.len());
        other.pad(self.limbs.len());
        let n: usize = self.limbs.len();
        let mut i: usize = n;
        let ghost (a, b) = (self.limbs@, other.limbs@);
        assert(a.take(n as int) =~= a);
        assert(b.take(n as int) =~= b);
        while i > 0
            invariant
                i <= n,
                a == self.limbs@,
                b == other.limbs@,
                a.len() == n,
                b.len() == n,
                self.value() == old(self).value(),
                other.value() == old(other).value(),
                self.value() - other.value() == limbs_value(a.take(i as int)) - limbs_value(
                    b.take(i as int),
                ),
            decreases i,
        {
            let (x, y) = (self.limbs[i - 1], other.limbs[i - 1]);
            proof {
                let k = i - 1;
                assert(a.take(i as int).drop_last() =~= a.take(k));
                assert(b.take(i as int).drop_last() =~= b.take(k));
                lemma_limbs_bound(a.take(k));
                lemma_limbs_bound(b.take(k));
                let p = pow(0x1_0000_0000, k as nat);
                let (la, lb) = (limbs_value(a.take(k)), limbs_value(b.take(k)));
                if x < y {
                    assert(la + x * p < lb + y * p) by (nonlinear_arith)
                        requires
                            x + 1 <= y,
                            la < p,
                            0 <= lb,
                            0 < p,
                    ;
                } else if x > y {
                    assert(la + x * p > lb + y * p) by (nonlinear_arith)
                        requires
                            y + 1 <= x,
                            lb < p,
                            0 <= la,
                            0 < p,
                    ;
                }
            }
            if x < y {
                return true;
            }
            if x > y {
                return false;
            }
            i -= 1;
        }
        false
    }

    /// `base` to the power `e`.
    fn power(base: u32, e: u32) -> (r: Big)
        ensures
            r.value() == pow(base as int, e as nat),
    {
        let mut r = Big::of(1);
        let mut i: u32 = 0;
        proof {
            reveal(pow);
        }
        while i < e
            invariant
                i <= e,
                r.value() == pow(base as int, i as nat),
            decreases e - i,
        {
            r.scale(base);
            proof {
                reveal(pow);
                assert(pow(base as int, (i + 1) as nat) == base * pow(base as int, i as nat));
                assert(pow(base as int, i as nat) * base == base * pow(base as int, i as nat))
                    by (nonlinear_arith);
            }
            i += 1;
        }
        r
    }
}

proof fn lemma_limbs_bound(s: Seq<u32>)
    ensures
        0 <= limbs_value(s) < pow(0x1_0000_0000, s.len()),
        0 < pow(0x1_0000_0000, s.len()),
    decreases s.len(),
{
    lemma_pow_positive(0x1_0000_0000, s.len());
    reveal(pow);
    if s.len() > 0 {
        lemma_limbs_bound(s.drop_last());
        let p = pow(0x1_0000_0000, (s.len() - 1) as nat);
        let v = limbs_value(s.drop_last());
        let d = s.last() as int;
        assert(0 <= v + d * p < 0x1_0000_0000 * p) by (nonlinear_arith)
            requires
                0 <= v < p,
                0 <= d <= 0xFFFF_FFFF,
        ;
    }
}

/// Raising by 64, the peak halfway between code `c - 1` and code `c` is
/// `50^64 * 2^(2c - 1)`.
pub open spec fn peak_step(c: int) -> int {
    pow(50, 64) * pow(2, (2 * c - 1) as nat)
}

/// `c` is the code nearest to a peak of `nits`. Code 0 means "no data" and is never
/// used.
pub open spec fn is_max_code(nits: u32, c: u8) -> bool {
    &&& 1 <= c
    &&& c > 1 ==> peak_step(c as int) <= pow(nits as int, 64)
    &&& c < 255 ==> pow(nits as int, 64) < peak_step(c + 1)
}

pub open spec fn max_code(nits: u32) -> u8 {
    choose|c: u8| is_max_code(nits, c)
}

/// Raising by 64, twice the minimum code for 0.05 nits under the peak code `max` is
/// `510^64 / (10^32 * 2^max)`; this is what `n^64` must not exceed, multiplied out.
pub open spec fn floor_step(n: int, max: u8) -> int {
    pow(n, 64) * pow(10, 32) * pow(2, max as nat)
}

/// `m` is the minimum-luminance code nearest to 0.05 nits under the peak code `max`.
pub open spec fn is_min_code(max: u8, m: u8) -> bool {
    &&& m > 0 ==> floor_step(2 * m - 1, max) <= pow(510, 64)
    &&& m < 255 ==> pow(510, 64) < floor_step(2 * m + 1, max)
}

pub open spec fn min_code(max: u8) -> u8 {
    choose|m: u8| is_min_code(max, m)
}

/// The average-luminance code that keeps the default distance from the peak.
pub open spec fn max_fall_code(max: u8) -> u8 {
    if max > 43 {
        (max - 42) as u8
    } else {
        1
    }
}

/// The codes for a requested peak; 0 asks for the defaults.
pub open spec fn luminance_codes(max_nits: u32) -> HdrLuminanceCodes {
    if max_nits == 0 {
        HdrLuminanceCodes {
            max: HDR_MAX_LUMINANCE_CODE,
            max_fall: HDR_MAX_FALL_CODE,
            min: HDR_MIN_LUMINANCE_CODE,
        }
    } else {
        let max = max_code(max_nits);
        HdrLuminanceCodes { max, max_fall: max_fall_code(max), min: min_code(max) }
    }
}

proof fn lemma_peak_step_increases(a: int, b: int)
    requires
        1 <= a <= b,
    ensures
        peak_step(a) <= peak_step(b),
{
    lemma_pow_positive(50, 64);
    vstd::arithmetic::power::lemma_pow_increases(2, (2 * a - 1) as nat, (2 * b - 1) as nat);
    assert(peak_step(a) <= peak_step(b)) by (nonlinear_arith)
        requires
            peak_step(a) == pow(50, 64) * pow(2, (2 * a - 1) as nat),
            peak_step(b) == pow(50, 64) * pow(2, (2 * b - 1) as nat),
            pow(2, (2 * a - 1) as nat) <= pow(2, (2 * b - 1) as nat),
            0 < pow(50, 64),
    ;
}

/// There is one nearest code.
pub proof fn lemma_max_code_unique(nits: u32, a: u8, b: u8)
    requires
        is_max_code(nits, a),
        is_max_code(nits, b),
    ensures
        a == b,
{
    if a < b {
        lemma_peak_step_increases(a + 1, b as int);
    }
    if b < a {
        lemma_peak_step_increases(b + 1, a as int);
    }
}

proof fn lemma_pow_grows(a: int, b: int, e: nat)
    requires
        0 <= a <= b,
    ensures
        0 <= pow(a, e) <= pow(b, e),
    decreases e,
{
    reveal(pow);
    if e > 0 {
        lemma_pow_grows(a, b, (e - 1) as nat);
        let (x, y) = (pow(a, (e - 1) as nat), pow(b, (e - 1) as nat));
        assert(0 <= a * x <= b * y) by (nonlinear_arith)
            requires
                0 <= a <= b,
                0 <= x <= y,
        ;
    }
}

proof fn lemma_floor_step_increases(a: int, b: int, max: u8)
    requires
        0 <= a <= b,
    ensures
        floor_step(a, max) <= floor_step(b, max),
{
    lemma_pow_grows(a, b, 64);
    lemma_pow_positive(10, 32);
    lemma_pow_positive(2, max as nat);
    let (x, y, t, q) = (pow(a, 64), pow(b, 64), pow(10, 32), pow(2, max as nat));
    assert(x * t * q <= y * t * q) by (nonlinear_arith)
        requires
            x <= y,
            0 < t,
            0 < q,
    ;
}

pub proof fn lemma_min_code_unique(max: u8, a: u8, b: u8)
    requires
        is_min_code(max, a),
        is_min_code(max, b),
    ensures
        a == b,
{
    if a < b {
        lemma_floor_step_increases(2 * a + 1, 2 * b - 1, max);
    }
    if b < a {
        lemma_floor_step_increases(2 * b + 1, 2 * a - 1, max);
    }
}

/// The code nearest to a peak of `nits`.
pub fn max_luminance_code(nits: u32) -> (r: u8)
    ensures
        is_max_code(nits, r),
        r == max_code(nits),
{
    let mut peak = Big::power(nits, 64);
    let mut step = Big::power(50, 64);
    step.scale(8);
    let mut c: u8 = 1;
    proof {
        assert(pow(2, 3) == 8) by {
            reveal_with_fuel(pow, 4);
        }
    }
    let mut more: bool = true;
    while c < 255 && more
        invariant
            1 <= c,
            peak.value() == pow(nits as int, 64),
            c < 255 ==> step.value() == peak_step(c + 1),
            c > 1 ==> peak_step(c as int) <= pow(nits as int, 64),
            !more ==> pow(nits as int, 64) < peak_step(c + 1),
        decreases 255 - c + (if more { 1int } else { 0int }),
    {
        if peak.below(&mut step) {
            more = false;
        } else {
            step.scale(4);
            proof {
                let k = (2 * (c + 1) - 1) as nat;
                reveal(pow);
                assert(pow(2, (k + 2) as nat) == 2 * pow(2, (k + 1) as nat));
                assert(pow(2, (k + 1) as nat) == 2 * pow(2, k));
                assert(pow(50, 64) * pow(2, k) * 4 == pow(50, 64) * (4 * pow(2, k))) by (nonlinear_arith);
            }
            c += 1;
        }
    }
    proof {
        assert(is_max_code(nits, c));
        lemma_max_code_unique(nits, c, max_code(nits));
    }
    c
}

/// The minimum-luminance code for 0.05 nits under the peak code `max`.
pub fn min_luminance_code(max: u8) -> (r: u8)
    ensures
        is_min_code(max, r),
        r == min_code(max),
{
    let mut limit = Big::power(510, 64);
    let mut m: u8 = 0;
    let mut more: bool = true;
    while m < 255 && more
        invariant
            limit.value() == pow(510, 64),
            m > 0 ==> floor_step(2 * m - 1, max) <= pow(510, 64),
            !more ==> pow(510, 64) < floor_step(2 * m + 1, max),
        decreases 255 - m + (if more { 1int } else { 0int }),
    {
        let n: u32 = 2 * (m as u32) + 1;
        let mut step = Big::power(n, 64);
        let mut i: u32 = 0;
        let ghost base = pow(n as int, 64);
        proof {
            reveal(pow);
        }
        while i < 32
            invariant
                i <= 32,
                step.value() == base * pow(10, i as nat),
            decreases 32 - i,
        {
            step.scale(10);
            proof {
                reveal(pow);
                let q = pow(10, i as nat);
                assert(pow(10, (i + 1) as nat) == 10 * q);
                assert(base * q * 10 == base * (10 * q)) by (nonlinear_arith);
            }
            i += 1;
        }
        let ghost scaled = step.value();
        let mut j: u8 = 0;
        proof {
            reveal(pow);
        }
        while j < max
            invariant
                j <= max,
                step.value() == scaled * pow(2, j as nat),
            decreases max - j,
        {
            step.scale(2);
            proof {
                reveal(pow);
                let q = pow(2, j as nat);
                assert(pow(2, (j + 1) as nat) == 2 * q);
                assert(scaled * q * 2 == scaled * (2 * q)) by (nonlinear_arith);
            }
            j += 1;
        }
        if limit.below(&mut step) {
            more = false;
        } else {
            m += 1;
        }
    }
    proof {
        assert(is_min_code(max, m));
        lemma_min_code_unique(max, m, min_code(max));
    }
    m
}

/// The luminance codes for a requested peak. 0 keeps the defaults; otherwise the
/// peak is the nearest code, the average keeps its default ratio to the peak, and
/// the minimum stays at 0.05 nits.
pub fn hdr_luminance_codes(max_nits: u32) -> (r: HdrLuminanceCodes)
    ensures
        r == luminance_codes(max_nits),
{
    if max_nits == 0 {
        return HdrLuminanceCodes {
            max: HDR_MAX_LUMINANCE_CODE,
            max_fall: HDR_MAX_FALL_CODE,
            min: HDR_MIN_LUMINANCE_CODE,
        };
    }
    let max: u8 = max_luminance_code(max_nits);
    let max_fall: u8 = if max > 43 {
        max - 42
    } else {
        1
    };
    HdrLuminanceCodes { max, max_fall, min: min_luminance_code(max) }
}

/// A brighter request never gets a smaller peak code.
pub proof fn law_peak_code_monotonic(a: u32, b: u32, ca: u8, cb: u8)
    requires
        a <= b,
        is_max_code(a, ca),
        is_max_code(b, cb),
    ensures
        ca <= cb,
{
    lemma_pow_grows(a as int, b as int, 64);
    if cb < ca {
        lemma_peak_step_increases(cb + 1, ca as int);
    }
}

/// The codes for a requested peak, with every number written out. The peak code is the
/// one whose luminance of `50 * 2^(code / 32)` nits is nearest to the request, the
/// average stays 42 codes below it, and the minimum code is the one nearest to 0.05 nits
/// under that peak. Nothing asked for gives the codes 138, 96 and 18.
pub proof fn law_luminance_codes_are_nearest(max_nits: u32, max: u8, min: u8)
    requires
        is_max_code(max_nits, max),
        is_min_code(max, min),
    ensures
        ({
            let c = luminance_codes(max_nits);
            &&& max_nits == 0 ==> c.max == 138 && c.max_fall == 96 && c.min == 18
            &&& max_nits > 0 ==> {
                &&& c.max >= 1
                &&& c.max > 1 ==> pow(50, 64) * pow(2, (2 * c.max - 1) as nat) <= pow(
                    max_nits as int,
                    64,
                )
                &&& c.max < 255 ==> pow(max_nits as int, 64) < pow(50, 64) * pow(
                    2,
                    (2 * c.max + 1) as nat,
                )
                &&& c.max_fall == (if c.max >= 44 {
                    c.max - 42
                } else {
                    1
                })
                &&& c.min > 0 ==> pow(2 * c.min - 1, 64) * pow(10, 32) * pow(2, c.max as nat) <= pow(
                    510,
                    64,
                )
                &&& c.min < 255 ==> pow(510, 64) < pow(2 * c.min + 1, 64) * pow(10, 32) * pow(
                    2,
                    c.max as nat,
                )
            }
        }),
{
    if max_nits > 0 {
        let m = max_code(max_nits);
        assert(is_max_code(max_nits, m));
        lemma_max_code_unique(max_nits, max, m);
        assert(is_min_code(max, min_code(max)));
    }
}

} // verus!
