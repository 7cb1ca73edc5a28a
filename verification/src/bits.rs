//! Bit-field helpers shared by the decoder, the executor and the assembler.
use vstd::prelude::*;

verus! {

/// The field of `raw` that starts at bit `lo`, kept by `mask`.
pub open spec fn field(raw: u32, lo: u32, mask: u32) -> u32 {
    (raw >> lo) & mask
}

/// A 4-bit register number taken from bit `lo` of `raw`.
pub open spec fn nib(raw: u32, lo: u32) -> u8 {
    ((raw >> lo) & 0xF) as u8
}

/// `v`, an unsigned `bits`-wide field, sign-extended to 32 bits: when the
/// field's top bit is set, every bit above the field is set too.
pub open spec fn sext(v: u32, bits: u32) -> u32 {
    if (v >> ((bits - 1) as u32)) & 1 == 1 {
        v | (0xFFFF_FFFFu32 << bits)
    } else {
        v
    }
}

/// Addition modulo 2^32.
pub open spec fn wadd(x: u32, y: u32) -> u32 {
    if x + y > u32::MAX {
        (x + y - 0x1_0000_0000) as u32
    } else {
        (x + y) as u32
    }
}

/// Subtraction modulo 2^32.
pub open spec fn wsub(x: u32, y: u32) -> u32 {
    if x < y {
        (x - y + 0x1_0000_0000) as u32
    } else {
        (x - y) as u32
    }
}

/// The two's-complement value of a 32-bit word.
pub open spec fn signed(x: u32) -> int {
    if x < 0x8000_0000 {
        x as int
    } else {
        x - 0x1_0000_0000
    }
}

/// The two's-complement value of a `bits`-wide field (`v < 2^bits`).
pub open spec fn field_signed(v: u32, bits: u32) -> int {
    if (v >> ((bits - 1) as u32)) & 1 == 1 {
        v - pow2_32(bits)
    } else {
        v as int
    }
}

/// 2^n for shift amounts below 32.
pub open spec fn pow2_32(n: u32) -> int {
    (1u64 << n) as int
}

pub fn field_of(raw: u32, lo: u32, mask: u32) -> (r: u32)
    requires
        lo < 32,
    ensures
        r == field(raw, lo, mask),
        r <= mask,
{
    proof {
        lemma_and_le(raw >> lo, mask);
    }
    (raw >> lo) & mask
}

pub fn nib_of(raw: u32, lo: u32) -> (r: u8)
    requires
        lo < 32,
    ensures
        r == nib(raw, lo),
        r < 16,
{
    proof {
        lemma_and_le(raw >> lo, 0xF);
    }
    ((raw >> lo) & 0xF) as u8
}

pub fn sign_ext(v: u32, bits: u32) -> (r: u32)
    requires
        1 <= bits < 32,
    ensures
        r == sext(v, bits),
{
    if (v >> (bits - 1)) & 1 == 1 {
        v | (0xFFFF_FFFFu32 << bits)
    } else {
        v
    }
}

pub proof fn lemma_and_le(x: u32, m: u32)
    ensures
        x & m <= m,
{
    assert(x & m <= m) by (bit_vector);
}

pub proof fn lemma_nib_lt16(raw: u32, lo: u32)
    ensures
        nib(raw, lo) < 16,
{
    lemma_and_le(raw >> lo, 0xF);
}

/// Sign extension gives the field's two's-complement value: read as a signed
/// 32-bit word, the extended field equals the field read as a signed number.
pub proof fn lemma_sext_value(v: u32, bits: u32)
    requires
        1 <= bits < 32,
        (v as int) < pow2_32(bits),
    ensures
        signed(sext(v, bits)) == field_signed(v, bits),
{
    let s = sext(v, bits);
    let b1 = (bits - 1) as u32;
    let p = 1u64 << bits;
    assert(p == pow2_32(bits));
    assert((v as u64) < p ==> ((v >> b1) & 1 == 1 ==> (v | (0xFFFF_FFFFu32 << bits)) as int == v + 0x1_0000_0000 - p)) by (bit_vector)
        requires
            1 <= bits < 32,
            b1 == bits - 1,
            p == 1u64 << bits;
    assert((v as u64) < p ==> ((v >> b1) & 1 == 1 <==> v as u64 >= (p >> 1u64))) by (bit_vector)
        requires
            1 <= bits < 32,
            b1 == bits - 1,
            p == 1u64 << bits;
    assert(p <= 0x8000_0000) by (bit_vector)
        requires
            1 <= bits < 32,
            p == 1u64 << bits;
    assert(p >> 1u64 == p / 2) by (bit_vector);
}


/// Facts about the low bits of a word: masking a value that fits its mask
/// keeps it, and a field that fits its signed width sign-extends back to the
/// same word; a byte or halfword is sign-extended by adding the bits above
/// it when its top bit is set.
pub proof fn lemma_low_bits(x: u32)
    ensures
        x < 16 ==> x & 0xF == x,
        (x < 0x100 || x >= 0xFFFF_FF00) ==> sext(x & 0x1FF, 9) == x,
        x < 0x200 ==> x & 0x1FF == x,
        x < 32 ==> (x & 0x1FF) & 31 == x,
        (x < 0x8000 || x >= 0xFFFF_8000) ==> sext(x & 0xFFFF, 16) == x,
        x < 0x1_0000 ==> x & 0xFFFF == x && (x & 0xFFFF) << 16u32 == (x * 0x1_0000) as u32,
        (x & 0xF000_3C3F) | (0u32 << 6u32) == x & 0xF000_3C3F,
        x < 0x100 ==> sext(x, 8) == if x < 0x80 { x } else { (x + 0xFFFF_FF00) as u32 },
        x < 0x1_0000 ==> sext(x, 16) == if x < 0x8000 { x } else { (x + 0xFFFF_0000) as u32 },
        (x & 0xFF) % 256 == x % 256,
        (x & 0xFFFF) % 256 == x % 256 && ((x & 0xFFFF) / 256) % 256 == (x / 256) % 256,
        (x % 65536) % 256 == x % 256 && ((x % 65536) / 256) % 256 == (x / 256) % 256,
        ((x / 65536) % 65536) % 256 == (x / 65536) % 256 && (((x / 65536) % 65536) / 256) % 256 == x
            / 16777216,
{
    assert((x < 16 ==> x & 0xF == x) && ((x < 0x100 || x >= 0xFFFF_FF00) ==> sext(x & 0x1FF, 9) == x) && (x
        < 0x200 ==> x & 0x1FF == x) && (x < 32 ==> (x & 0x1FF) & 31 == x) && ((x < 0x8000 || x
        >= 0xFFFF_8000) ==> sext(x & 0xFFFF, 16) == x) && (x < 0x1_0000 ==> x & 0xFFFF == x && (x & 0xFFFF)
        << 16u32 == (x * 0x1_0000) as u32) && (x & 0xF000_3C3F) | (0u32 << 6u32) == x & 0xF000_3C3F && (x
        < 0x100 ==> sext(x, 8) == if x < 0x80 { x } else { (x + 0xFFFF_FF00) as u32 }) && (x < 0x1_0000
        ==> sext(x, 16) == if x < 0x8000 { x } else { (x + 0xFFFF_0000) as u32 }) && (x & 0xFF) % 256 == x
        % 256 && (x & 0xFFFF) % 256 == x % 256 && ((x & 0xFFFF) / 256) % 256 == (x / 256) % 256 && (x % 65536)
        % 256 == x % 256 && ((x % 65536) / 256) % 256 == (x / 256) % 256 && ((x / 65536) % 65536) % 256 == (x
        / 65536) % 256 && (((x / 65536) % 65536) / 256) % 256 == x / 16777216) by (bit_vector);
}

} // verus!
