//! Names of the objects shared with the host. Both sides derive them from the
//! session, the ring generation and the slot.
use vstd::prelude::*;

verus! {

/// The lowercase hexadecimal digit of `d`, as a UTF-16 unit.
pub open spec fn hex_digit(d: nat) -> u16 {
    if d < 10 {
        (48 + d) as u16
    } else {
        (87 + d) as u16
    }
}

/// `value` as `digits` lowercase hexadecimal digits, most significant first.
pub open spec fn hex_units(value: nat, digits: nat) -> Seq<u16>
    decreases digits,
{
    if digits == 0 {
        Seq::empty()
    } else {
        hex_units(value / 16, (digits - 1) as nat).push(hex_digit(value % 16))
    }
}

/// ASCII text as UTF-16 units.
pub open spec fn ascii_units(text: Seq<char>) -> Seq<u16> {
    text.map_values(|c: char| c as u16)
}

/// Ring control section: `Global\LuminalVGD-ring-<session>`.
pub open spec fn ring_section_units(session_id: u64) -> Seq<u16> {
    ascii_units("Global\\LuminalVGD-ring-"@) + hex_units(session_id as nat, 16)
}

/// Cursor section: `Global\LuminalVGD-cur-<session>`.
pub open spec fn cursor_section_units(session_id: u64) -> Seq<u16> {
    ascii_units("Global\\LuminalVGD-cur-"@) + hex_units(session_id as nat, 16)
}

/// Slot texture: `Global\LuminalVGD-tex-<session>-g<generation>-s<slot>`.
pub open spec fn slot_texture_units(session_id: u64, generation: u32, slot: u32) -> Seq<u16> {
    ascii_units("Global\\LuminalVGD-tex-"@) + hex_units(session_id as nat, 16) + ascii_units("-g"@)
        + hex_units(generation as nat, 8) + ascii_units("-s"@) + hex_units(slot as nat, 2)
}

/// `units` followed by NULs up to length `len`.
pub open spec fn nul_padded(units: Seq<u16>, len: nat) -> Seq<u16> {
    Seq::new(len, |i: int| if i < units.len() { units[i] } else { 0 })
}

pub proof fn lemma_hex_units_len(value: nat, digits: nat)
    ensures
        hex_units(value, digits).len() == digits,
    decreases digits,
{
    if digits > 0 {
        lemma_hex_units_len(value / 16, (digits - 1) as nat);
    }
}

/// Fixed-width hexadecimal loses nothing of a value that fits.
pub proof fn lemma_hex_units_injective(a: nat, b: nat, digits: nat)
    requires
        hex_units(a, digits) == hex_units(b, digits),
        a < vstd::arithmetic::power::pow(16, digits),
        b < vstd::arithmetic::power::pow(16, digits),
    ensures
        a == b,
    decreases digits,
{
    reveal(vstd::arithmetic::power::pow);
    if digits > 0 {
        let k = (digits - 1) as nat;
        let (x, y) = (hex_units(a / 16, k), hex_units(b / 16, k));
        assert(x.push(hex_digit(a % 16)).drop_last() =~= x);
        assert(y.push(hex_digit(b % 16)).drop_last() =~= y);
        assert(x.push(hex_digit(a % 16)).last() == y.push(hex_digit(b % 16)).last());
        lemma_hex_units_injective(a / 16, b / 16, k);
    }
}

/// Different sessions have different ring sections and different cursor sections,
/// and no ring section is named like a cursor section.
pub proof fn law_section_names_distinct(a: u64, b: u64)
    ensures
        ring_section_units(a) == ring_section_units(b) ==> a == b,
        cursor_section_units(a) == cursor_section_units(b) ==> a == b,
        ring_section_units(a) != cursor_section_units(b),
{
    reveal_strlit("Global\\LuminalVGD-ring-");
    reveal_strlit("Global\\LuminalVGD-cur-");
    lemma_hex_units_len(a as nat, 16);
    lemma_hex_units_len(b as nat, 16);
    lemma_pow16();
    assert(ring_section_units(a).skip(23) =~= hex_units(a as nat, 16));
    assert(ring_section_units(b).skip(23) =~= hex_units(b as nat, 16));
    assert(cursor_section_units(a).skip(22) =~= hex_units(a as nat, 16));
    assert(cursor_section_units(b).skip(22) =~= hex_units(b as nat, 16));
    if ring_section_units(a) == ring_section_units(b) || cursor_section_units(a)
        == cursor_section_units(b) {
        lemma_hex_units_injective(a as nat, b as nat, 16);
    }
    assert(ring_section_units(a).len() != cursor_section_units(b).len());
}

/// A texture name determines session, generation and slot: a rebuilt ring never
/// reuses a name.
pub proof fn law_texture_names_distinct(s1: u64, g1: u32, n1: u32, s2: u64, g2: u32, n2: u32)
    requires
        n1 < 256,
        n2 < 256,
        slot_texture_units(s1, g1, n1) == slot_texture_units(s2, g2, n2),
    ensures
        s1 == s2,
        g1 == g2,
        n1 == n2,
{
    reveal_strlit("Global\\LuminalVGD-tex-");
    reveal_strlit("-g");
    reveal_strlit("-s");
    lemma_texture_parts(s1, g1, n1);
    lemma_texture_parts(s2, g2, n2);
    lemma_pow16();
    lemma_hex_units_injective(s1 as nat, s2 as nat, 16);
    lemma_hex_units_injective(g1 as nat, g2 as nat, 8);
    lemma_hex_units_injective(n1 as nat, n2 as nat, 2);
}

proof fn lemma_texture_parts(s: u64, g: u32, n: u32)
    ensures
        slot_texture_units(s, g, n).subrange(22, 38) == hex_units(s as nat, 16),
        slot_texture_units(s, g, n).subrange(40, 48) == hex_units(g as nat, 8),
        slot_texture_units(s, g, n).subrange(50, 52) == hex_units(n as nat, 2),
{
    reveal_strlit("Global\\LuminalVGD-tex-");
    reveal_strlit("-g");
    reveal_strlit("-s");
    lemma_hex_units_len(s as nat, 16);
    lemma_hex_units_len(g as nat, 8);
    lemma_hex_units_len(n as nat, 2);
    let name = slot_texture_units(s, g, n);
    assert(name.subrange(22, 38) =~= hex_units(s as nat, 16));
    assert(name.subrange(40, 48) =~= hex_units(g as nat, 8));
    assert(name.subrange(50, 52) =~= hex_units(n as nat, 2));
}

proof fn lemma_pow16()
    ensures
        vstd::arithmetic::power::pow(16, 2) == 0x100,
        vstd::arithmetic::power::pow(16, 8) == 0x1_0000_0000,
        vstd::arithmetic::power::pow(16, 16) == 0x1_0000_0000_0000_0000,
{
    reveal_with_fuel(vstd::arithmetic::power::pow, 17);
}

/// Append ASCII `text`.
fn put(out: &mut Vec<u16>, text: &str)
    requires
        forall|i: int| 0 <= i < text@.len() ==> (text@[i] as u32) < 128,
    ensures
        final(out)@ == old(out)@ + ascii_units(text@),
{
    let n: usize = text.unicode_len();
    let mut i: usize = 0;
    assert(out@ =~= old(out)@ + ascii_units(text@.take(0)));
    while i < n
        invariant
            i <= n,
            n == text@.len(),
            forall|i: int| 0 <= i < text@.len() ==> (text@[i] as u32) < 128,
            out@ == old(out)@ + ascii_units(text@.take(i as int)),
        decreases n - i,
    {
        let c: char = text.get_char(i);
        out.push(c as u16);
        i += 1;
        assert(out@ =~= old(out)@ + ascii_units(text@.take(i as int)));
    }
    assert(text@.take(n as int) =~= text@);
}

/// Append `value` as `digits` lowercase hexadecimal digits.
fn put_hex(out: &mut Vec<u16>, value: u64, digits: usize)
    ensures
        final(out)@ == old(out)@ + hex_units(value as nat, digits as nat),
    decreases digits,
{
    if digits > 0 {
        put_hex(out, value / 16, digits - 1);
        let d: u64 = value % 16;
        let unit: u16 = if d < 10 {
            48 + d as u16
        } else {
            87 + d as u16
        };
        out.push(unit);
    }
    assert(out@ =~= old(out)@ + hex_units(value as nat, digits as nat));
}

/// Copy `units` to the front of `out` and clear the rest.
fn store<const N: usize>(out: &mut [u16; N], units: &[u16])
    requires
        units@.len() <= N,
    ensures
        final(out)@ == nul_padded(units@, N as nat),
{
    let mut i: usize = 0;
    while i < N
        invariant
            i <= N,
            units@.len() <= N,
            out@.len() == N,
            forall|j: int| 0 <= j < i ==> out@[j] == nul_padded(units@, N as nat)[j],
        decreases N - i,
    {
        out[i] = if i < units.len() { units[i] } else { 0 };
        i += 1;
    }
    assert(out@ =~= nul_padded(units@, N as nat));
}

/// The name of a session's ring control section, NUL-padded. Returns the number
/// of units in the name.
pub fn ring_section_name(session_id: u64, out: &mut [u16; 64]) -> (r: usize)
    ensures
        r == ring_section_units(session_id).len() == 39,
        final(out)@ == nul_padded(ring_section_units(session_id), 64),
{
    let mut name: Vec<u16> = Vec::new();
    proof {
        reveal_strlit("Global\\LuminalVGD-ring-");
        lemma_hex_units_len(session_id as nat, 16);
    }
    put(&mut name, "Global\\LuminalVGD-ring-");
    put_hex(&mut name, session_id, 16);
    assert(name@ =~= ring_section_units(session_id));
    store(out, name.as_slice());
    name.len()
}

/// The name of a session's cursor section, NUL-padded. Returns the number of
/// units in the name.
pub fn cursor_section_name(session_id: u64, out: &mut [u16; 64]) -> (r: usize)
    ensures
        r == cursor_section_units(session_id).len() == 38,
        final(out)@ == nul_padded(cursor_section_units(session_id), 64),
{
    let mut name: Vec<u16> = Vec::new();
    proof {
        reveal_strlit("Global\\LuminalVGD-cur-");
        lemma_hex_units_len(session_id as nat, 16);
    }
    put(&mut name, "Global\\LuminalVGD-cur-");
    put_hex(&mut name, session_id, 16);
    assert(name@ =~= cursor_section_units(session_id));
    store(out, name.as_slice());
    name.len()
}

/// The name of a slot's shared texture, NUL-padded. The generation is part of the
/// name, so a rebuilt ring can never alias a stale handle. Returns the number of
/// units in the name.
pub fn slot_texture_name(session_id: u64, generation: u32, slot: u32, out: &mut [u16; 96]) -> (r:
    usize)
    ensures
        r == slot_texture_units(session_id, generation, slot).len() == 52,
        final(out)@ == nul_padded(slot_texture_units(session_id, generation, slot), 96),
{
    let mut name: Vec<u16> = Vec::new();
    proof {
        reveal_strlit("Global\\LuminalVGD-tex-");
        reveal_strlit("-g");
        reveal_strlit("-s");
        lemma_hex_units_len(session_id as nat, 16);
        lemma_hex_units_len(generation as nat, 8);
        lemma_hex_units_len(slot as nat, 2);
    }
    put(&mut name, "Global\\LuminalVGD-tex-");
    put_hex(&mut name, session_id, 16);
    put(&mut name, "-g");
    put_hex(&mut name, generation as u64, 8);
    put(&mut name, "-s");
    put_hex(&mut name, slot as u64, 2);
    assert(name@ =~= slot_texture_units(session_id, generation, slot));
    store(out, name.as_slice());
    name.len()
}

/// The value of a lowercase hexadecimal digit.
pub open spec fn digit_value(unit: u16) -> int {
    if 0x30 <= unit <= 0x39 {
        unit - 0x30
    } else if 0x61 <= unit <= 0x66 {
        unit - 0x61 + 10
    } else {
        -1
    }
}

/// Each digit of a number stands at its place, the most significant first.
pub proof fn law_hex_digits(value: nat, digits: nat, i: int)
    requires
        0 <= i < digits,
    ensures
        hex_units(value, digits).len() == digits,
        digit_value(hex_units(value, digits)[i]) == (value as int / vstd::arithmetic::power::pow(
            16,
            (digits - 1 - i) as nat,
        )) % 16,
    decreases digits,
{
    lemma_hex_units_len(value, digits);
    let k = (digits - 1) as nat;
    lemma_hex_units_len(value / 16, k);
    if i == digits - 1 {
        reveal(vstd::arithmetic::power::pow);
        assert(vstd::arithmetic::power::pow(16, 0) == 1);
        assert(value as int / 1 == value);
    } else {
        law_hex_digits(value / 16, k, i);
        let p = vstd::arithmetic::power::pow(16, (k - 1 - i) as nat);
        vstd::arithmetic::power::lemma_pow_positive(16, (k - 1 - i) as nat);
        reveal(vstd::arithmetic::power::pow);
        assert(vstd::arithmetic::power::pow(16, (digits - 1 - i) as nat) == 16 * p);
        vstd::arithmetic::div_mod::lemma_div_denominator(value as int, 16, p);
    }
}

/// How the names are spelled, unit by unit: a fixed text, the session in sixteen digits,
/// and for a texture the generation in eight and the slot in two, set off by "-g" and
/// "-s".
pub proof fn law_names_are_spelled(session_id: u64, generation: u32, slot: u32)
    ensures
        ring_section_units(session_id) == seq![
            0x47u16, 0x6C, 0x6F, 0x62, 0x61, 0x6C, 0x5C, 0x4C, 0x75, 0x6D, 0x69, 0x6E,
            0x61, 0x6C, 0x56, 0x47, 0x44, 0x2D, 0x72, 0x69, 0x6E, 0x67, 0x2D,
        ] + hex_units(session_id as nat, 16),
        cursor_section_units(session_id) == seq![
            0x47u16, 0x6C, 0x6F, 0x62, 0x61, 0x6C, 0x5C, 0x4C, 0x75, 0x6D, 0x69, 0x6E,
            0x61, 0x6C, 0x56, 0x47, 0x44, 0x2D, 0x63, 0x75, 0x72, 0x2D,
        ] + hex_units(session_id as nat, 16),
        slot_texture_units(session_id, generation, slot) == seq![
            0x47u16, 0x6C, 0x6F, 0x62, 0x61, 0x6C, 0x5C, 0x4C, 0x75, 0x6D, 0x69, 0x6E,
            0x61, 0x6C, 0x56, 0x47, 0x44, 0x2D, 0x74, 0x65, 0x78, 0x2D,
        ] + hex_units(session_id as nat, 16) + seq![0x2Du16, 0x67] + hex_units(generation as nat, 8)
            + seq![0x2Du16, 0x73] + hex_units(slot as nat, 2),
{
    reveal_strlit("Global\\LuminalVGD-ring-");
    reveal_strlit("Global\\LuminalVGD-cur-");
    reveal_strlit("Global\\LuminalVGD-tex-");
    reveal_strlit("-g");
    reveal_strlit("-s");
    assert(ascii_units("Global\\LuminalVGD-ring-"@) =~= seq![
            0x47u16, 0x6C, 0x6F, 0x62, 0x61, 0x6C, 0x5C, 0x4C, 0x75, 0x6D, 0x69, 0x6E,
            0x61, 0x6C, 0x56, 0x47, 0x44, 0x2D, 0x72, 0x69, 0x6E, 0x67, 0x2D,
        ]);
    assert(ascii_units("Global\\LuminalVGD-cur-"@) =~= seq![
            0x47u16, 0x6C, 0x6F, 0x62, 0x61, 0x6C, 0x5C, 0x4C, 0x75, 0x6D, 0x69, 0x6E,
            0x61, 0x6C, 0x56, 0x47, 0x44, 0x2D, 0x63, 0x75, 0x72, 0x2D,
        ]);
    assert(ascii_units("Global\\LuminalVGD-tex-"@) =~= seq![
            0x47u16, 0x6C, 0x6F, 0x62, 0x61, 0x6C, 0x5C, 0x4C, 0x75, 0x6D, 0x69, 0x6E,
            0x61, 0x6C, 0x56, 0x47, 0x44, 0x2D, 0x74, 0x65, 0x78, 0x2D,
        ]);
    assert(ascii_units("-g"@) =~= seq![0x2Du16, 0x67]);
    assert(ascii_units("-s"@) =~= seq![0x2Du16, 0x73]);
}

/// A padded name is the name and then nothing but NULs.
pub proof fn law_padding_is_nul(units: Seq<u16>, len: nat, i: int)
    requires
        units.len() <= len,
        0 <= i < len,
    ensures
        nul_padded(units, len).len() == len,
        i < units.len() ==> nul_padded(units, len)[i] == units[i],
        i >= units.len() ==> nul_padded(units, len)[i] == 0,
{
}

} // verus!
