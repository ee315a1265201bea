//! Forward error detection and short block codes: CRC family and Hamming(7,4).
//!
//! The CRCs are the reflected, bit-at-a-time shift-register form; the Hamming(7,4)
//! code uses the generator/decoder tables of liquid-dsp. Callers own every buffer.
use vstd::prelude::*;
use vstd::arithmetic::power2::*;
use vstd::arithmetic::div_mod::*;
use crate::types::Status;

verus! {

// ─────────────────────────────────────────────────────────────────────────────
// Encoded length
// ─────────────────────────────────────────────────────────────────────────────

/// Encoded length for `n_bytes` data bytes: each byte becomes two 7-bit codewords stored in
/// two output bytes. Saturates at `usize::MAX`.
pub fn hamming74_encoded_len(n_bytes: usize) -> (r: usize)
    ensures
        r == if 2 * n_bytes <= usize::MAX { 2 * n_bytes } else { usize::MAX as int },
{
    if n_bytes <= usize::MAX / 2 {
        n_bytes * 2
    } else {
        usize::MAX
    }
}

// ─────────────────────────────────────────────────────────────────────────────
// Bit reversal
// ─────────────────────────────────────────────────────────────────────────────

/// The low `w` bits of `x` in reverse order: bit `k` of `x` (for `k < w`) lands at bit
/// `w - 1 - k` of the result.
pub open spec fn reflect(x: nat, w: nat) -> nat
    decreases w,
{
    if w == 0 {
        0
    } else {
        2 * reflect(x, (w - 1) as nat) + (x / pow2((w - 1) as nat)) % 2
    }
}

proof fn lemma_shift_step()
    by (bit_vector)
    ensures
        forall|r: u32, x: u32|
            #[trigger] ((r << 1u32) | (x & 1u32)) == ((2 * r + x % 2) % 0x1_0000_0000) as u32,
        forall|x: u32| #[trigger] (x >> 1u32) == x / 2,
{
}

/// Reverses the low `width` bits of `x`. For `width > 32` the reversed value is taken modulo
/// `2^32`, which is what shifting a 32-bit register further left leaves.
pub fn reverse_bits(x: u32, width: u32) -> (r: u32)
    ensures
        r == reflect(x as nat, width as nat) % 0x1_0000_0000,
{
    let ghost x0 = x;
    let mut x = x;
    let mut r = 0u32;
    let mut i = 0u32;
    proof {
        lemma_pow2_pos(0);
        lemma2_to64();
    }
    while i < width
        invariant
            i <= width,
            r == reflect(x0 as nat, i as nat) % 0x1_0000_0000,
            x == x0 as nat / pow2(i as nat),
        decreases width - i,
    {
        proof {
            lemma_shift_step();
            lemma_pow2_pos(i as nat);
            lemma_div_denominator(x0 as int, pow2(i as nat) as int, 2);
            lemma_pow2_adds(i as nat, 1);
            lemma2_to64();
            let rr = reflect(x0 as nat, i as nat);
            assert(reflect(x0 as nat, (i + 1) as nat) == 2 * rr + (x0 as nat / pow2(i as nat)) % 2);
            lemma_mul_mod_noop_right(2, rr as int, 0x1_0000_0000);
            lemma_add_mod_noop(2 * rr as int, (x % 2) as int, 0x1_0000_0000);
            lemma_add_mod_noop(2 * (rr % 0x1_0000_0000) as int, (x % 2) as int, 0x1_0000_0000);
            lemma_small_mod((x % 2) as nat, 0x1_0000_0000);
        }
        r = (r << 1) | (x & 1);
        x = x >> 1;
        i += 1;
    }
    r
}

// ─────────────────────────────────────────────────────────────────────────────
// CRC family
// ─────────────────────────────────────────────────────────────────────────────

/// Reflected CRC-8 generator `0x07`.
pub const CRC8_POLY: u32 = 0xE0;
/// Reflected CRC-16 generator `0x8005`.
pub const CRC16_POLY: u32 = 0xA001;
/// Reflected CRC-24 generator `0x5D6DCB`.
pub const CRC24_POLY: u32 = 0xD3B6BA;
/// Reflected CRC-32 generator `0x04C11DB7`.
pub const CRC32_POLY: u32 = 0xEDB8_8320;

/// The reflected generator constants are the bit reversals of the textbook polynomials.
pub proof fn lemma_crc_polys_are_reflected()
    ensures
        reflect(0x07, 8) == CRC8_POLY,
        reflect(0x8005, 16) == CRC16_POLY,
        reflect(0x5D6DCB, 24) == CRC24_POLY,
        reflect(0x04C11DB7, 32) == CRC32_POLY,
{
    lemma2_to64();
    assert(reflect(0x7, 0) == 0);
    assert((0x7nat / 0x1) % 2 == 1);
    assert(reflect(0x7, 1) == 0x1);
    assert((0x7nat / 0x2) % 2 == 1);
    assert(reflect(0x7, 2) == 0x3);
    assert((0x7nat / 0x4) % 2 == 1);
    assert(reflect(0x7, 3) == 0x7);
    assert((0x7nat / 0x8) % 2 == 0);
    assert(reflect(0x7, 4) == 0xE);
    assert((0x7nat / 0x10) % 2 == 0);
    assert(reflect(0x7, 5) == 0x1C);
    assert((0x7nat / 0x20) % 2 == 0);
    assert(reflect(0x7, 6) == 0x38);
    assert((0x7nat / 0x40) % 2 == 0);
    assert(reflect(0x7, 7) == 0x70);
    assert((0x7nat / 0x80) % 2 == 0);
    assert(reflect(0x7, 8) == 0xE0);
    assert(reflect(0x8005, 0) == 0);
    assert((0x8005nat / 0x1) % 2 == 1);
    assert(reflect(0x8005, 1) == 0x1);
    assert((0x8005nat / 0x2) % 2 == 0);
    assert(reflect(0x8005, 2) == 0x2);
    assert((0x8005nat / 0x4) % 2 == 1);
    assert(reflect(0x8005, 3) == 0x5);
    assert((0x8005nat / 0x8) % 2 == 0);
    assert(reflect(0x8005, 4) == 0xA);
    assert((0x8005nat / 0x10) % 2 == 0);
    assert(reflect(0x8005, 5) == 0x14);
    assert((0x8005nat / 0x20) % 2 == 0);
    assert(reflect(0x8005, 6) == 0x28);
    assert((0x8005nat / 0x40) % 2 == 0);
    assert(reflect(0x8005, 7) == 0x50);
    assert((0x8005nat / 0x80) % 2 == 0);
    assert(reflect(0x8005, 8) == 0xA0);
    assert((0x8005nat / 0x100) % 2 == 0);
    assert(reflect(0x8005, 9) == 0x140);
    assert((0x8005nat / 0x200) % 2 == 0);
    assert(reflect(0x8005, 10) == 0x280);
    assert((0x8005nat / 0x400) % 2 == 0);
    assert(reflect(0x8005, 11) == 0x500);
    assert((0x8005nat / 0x800) % 2 == 0);
    assert(reflect(0x8005, 12) == 0xA00);
    assert((0x8005nat / 0x1000) % 2 == 0);
    assert(reflect(0x8005, 13) == 0x1400);
    assert((0x8005nat / 0x2000) % 2 == 0);
    assert(reflect(0x8005, 14) == 0x2800);
    assert((0x8005nat / 0x4000) % 2 == 0);
    assert(reflect(0x8005, 15) == 0x5000);
    assert((0x8005nat / 0x8000) % 2 == 1);
    assert(reflect(0x8005, 16) == 0xA001);
    assert(reflect(0x5D6DCB, 0) == 0);
    assert((0x5D6DCBnat / 0x1) % 2 == 1);
    assert(reflect(0x5D6DCB, 1) == 0x1);
    assert((0x5D6DCBnat / 0x2) % 2 == 1);
    assert(reflect(0x5D6DCB, 2) == 0x3);
    assert((0x5D6DCBnat / 0x4) % 2 == 0);
    assert(reflect(0x5D6DCB, 3) == 0x6);
    assert((0x5D6DCBnat / 0x8) % 2 == 1);
    assert(reflect(0x5D6DCB, 4) == 0xD);
    assert((0x5D6DCBnat / 0x10) % 2 == 0);
    assert(reflect(0x5D6DCB, 5) == 0x1A);
    assert((0x5D6DCBnat / 0x20) % 2 == 0);
    assert(reflect(0x5D6DCB, 6) == 0x34);
    assert((0x5D6DCBnat / 0x40) % 2 == 1);
    assert(reflect(0x5D6DCB, 7) == 0x69);
    assert((0x5D6DCBnat / 0x80) % 2 == 1);
    assert(reflect(0x5D6DCB, 8) == 0xD3);
    assert((0x5D6DCBnat / 0x100) % 2 == 1);
    assert(reflect(0x5D6DCB, 9) == 0x1A7);
    assert((0x5D6DCBnat / 0x200) % 2 == 0);
    assert(reflect(0x5D6DCB, 10) == 0x34E);
    assert((0x5D6DCBnat / 0x400) % 2 == 1);
    assert(reflect(0x5D6DCB, 11) == 0x69D);
    assert((0x5D6DCBnat / 0x800) % 2 == 1);
    assert(reflect(0x5D6DCB, 12) == 0xD3B);
    assert((0x5D6DCBnat / 0x1000) % 2 == 0);
    assert(reflect(0x5D6DCB, 13) == 0x1A76);
    assert((0x5D6DCBnat / 0x2000) % 2 == 1);
    assert(reflect(0x5D6DCB, 14) == 0x34ED);
    assert((0x5D6DCBnat / 0x4000) % 2 == 1);
    assert(reflect(0x5D6DCB, 15) == 0x69DB);
    assert((0x5D6DCBnat / 0x8000) % 2 == 0);
    assert(reflect(0x5D6DCB, 16) == 0xD3B6);
    assert((0x5D6DCBnat / 0x10000) % 2 == 1);
    assert(reflect(0x5D6DCB, 17) == 0x1A76D);
    assert((0x5D6DCBnat / 0x20000) % 2 == 0);
    assert(reflect(0x5D6DCB, 18) == 0x34EDA);
    assert((0x5D6DCBnat / 0x40000) % 2 == 1);
    assert(reflect(0x5D6DCB, 19) == 0x69DB5);
    assert((0x5D6DCBnat / 0x80000) % 2 == 1);
    assert(reflect(0x5D6DCB, 20) == 0xD3B6B);
    assert((0x5D6DCBnat / 0x100000) % 2 == 1);
    assert(reflect(0x5D6DCB, 21) == 0x1A76D7);
    assert((0x5D6DCBnat / 0x200000) % 2 == 0);
    assert(reflect(0x5D6DCB, 22) == 0x34EDAE);
    assert((0x5D6DCBnat / 0x400000) % 2 == 1);
    assert(reflect(0x5D6DCB, 23) == 0x69DB5D);
    assert((0x5D6DCBnat / 0x800000) % 2 == 0);
    assert(reflect(0x5D6DCB, 24) == 0xD3B6BA);
    assert(reflect(0x4C11DB7, 0) == 0);
    assert((0x4C11DB7nat / 0x1) % 2 == 1);
    assert(reflect(0x4C11DB7, 1) == 0x1);
    assert((0x4C11DB7nat / 0x2) % 2 == 1);
    assert(reflect(0x4C11DB7, 2) == 0x3);
    assert((0x4C11DB7nat / 0x4) % 2 == 1);
    assert(reflect(0x4C11DB7, 3) == 0x7);
    assert((0x4C11DB7nat / 0x8) % 2 == 0);
    assert(reflect(0x4C11DB7, 4) == 0xE);
    assert((0x4C11DB7nat / 0x10) % 2 == 1);
    assert(reflect(0x4C11DB7, 5) == 0x1D);
    assert((0x4C11DB7nat / 0x20) % 2 == 1);
    assert(reflect(0x4C11DB7, 6) == 0x3B);
    assert((0x4C11DB7nat / 0x40) % 2 == 0);
    assert(reflect(0x4C11DB7, 7) == 0x76);
    assert((0x4C11DB7nat / 0x80) % 2 == 1);
    assert(reflect(0x4C11DB7, 8) == 0xED);
    assert((0x4C11DB7nat / 0x100) % 2 == 1);
    assert(reflect(0x4C11DB7, 9) == 0x1DB);
    assert((0x4C11DB7nat / 0x200) % 2 == 0);
    assert(reflect(0x4C11DB7, 10) == 0x3B6);
    assert((0x4C11DB7nat / 0x400) % 2 == 1);
    assert(reflect(0x4C11DB7, 11) == 0x76D);
    assert((0x4C11DB7nat / 0x800) % 2 == 1);
    assert(reflect(0x4C11DB7, 12) == 0xEDB);
    assert((0x4C11DB7nat / 0x1000) % 2 == 1);
    assert(reflect(0x4C11DB7, 13) == 0x1DB7);
    assert((0x4C11DB7nat / 0x2000) % 2 == 0);
    assert(reflect(0x4C11DB7, 14) == 0x3B6E);
    assert((0x4C11DB7nat / 0x4000) % 2 == 0);
    assert(reflect(0x4C11DB7, 15) == 0x76DC);
    assert((0x4C11DB7nat / 0x8000) % 2 == 0);
    assert(reflect(0x4C11DB7, 16) == 0xEDB8);
    assert((0x4C11DB7nat / 0x10000) % 2 == 1);
    assert(reflect(0x4C11DB7, 17) == 0x1DB71);
    assert((0x4C11DB7nat / 0x20000) % 2 == 0);
    assert(reflect(0x4C11DB7, 18) == 0x3B6E2);
    assert((0x4C11DB7nat / 0x40000) % 2 == 0);
    assert(reflect(0x4C11DB7, 19) == 0x76DC4);
    assert((0x4C11DB7nat / 0x80000) % 2 == 0);
    assert(reflect(0x4C11DB7, 20) == 0xEDB88);
    assert((0x4C11DB7nat / 0x100000) % 2 == 0);
    assert(reflect(0x4C11DB7, 21) == 0x1DB710);
    assert((0x4C11DB7nat / 0x200000) % 2 == 0);
    assert(reflect(0x4C11DB7, 22) == 0x3B6E20);
    assert((0x4C11DB7nat / 0x400000) % 2 == 1);
    assert(reflect(0x4C11DB7, 23) == 0x76DC41);
    assert((0x4C11DB7nat / 0x800000) % 2 == 1);
    assert(reflect(0x4C11DB7, 24) == 0xEDB883);
    assert((0x4C11DB7nat / 0x1000000) % 2 == 0);
    assert(reflect(0x4C11DB7, 25) == 0x1DB7106);
    assert((0x4C11DB7nat / 0x2000000) % 2 == 0);
    assert(reflect(0x4C11DB7, 26) == 0x3B6E20C);
    assert((0x4C11DB7nat / 0x4000000) % 2 == 1);
    assert(reflect(0x4C11DB7, 27) == 0x76DC419);
    assert((0x4C11DB7nat / 0x8000000) % 2 == 0);
    assert(reflect(0x4C11DB7, 28) == 0xEDB8832);
    assert((0x4C11DB7nat / 0x10000000) % 2 == 0);
    assert(reflect(0x4C11DB7, 29) == 0x1DB71064);
    assert((0x4C11DB7nat / 0x20000000) % 2 == 0);
    assert(reflect(0x4C11DB7, 30) == 0x3B6E20C8);
    assert((0x4C11DB7nat / 0x40000000) % 2 == 0);
    assert(reflect(0x4C11DB7, 31) == 0x76DC4190);
    assert((0x4C11DB7nat / 0x80000000) % 2 == 0);
    assert(reflect(0x4C11DB7, 32) == 0xEDB88320);
}

/// All-ones mask of the low `width` bits.
pub open spec fn crc_mask(width: nat) -> u32 {
    if width >= 32 {
        0xffff_ffffu32
    } else {
        (pow2(width) - 1) as u32
    }
}

/// One shift of the reflected CRC register.
pub open spec fn crc_bit(key: u32, poly: u32) -> u32 {
    if key % 2 == 1 {
        (key / 2) ^ poly
    } else {
        key / 2
    }
}

/// `n` shifts of the reflected CRC register.
pub open spec fn crc_shifts(key: u32, poly: u32, n: nat) -> u32
    decreases n,
{
    if n == 0 {
        key
    } else {
        crc_shifts(crc_bit(key, poly), poly, (n - 1) as nat)
    }
}

/// Feeds one byte into the register: XOR it into the low bits, then shift eight times.
pub open spec fn crc_byte(key: u32, b: u8, poly: u32) -> u32 {
    crc_shifts(key ^ (b as u32), poly, 8)
}

/// The register after feeding `msg`, byte by byte from the front, starting from `init`.
pub open spec fn crc_register(msg: Seq<u8>, init: u32, poly: u32) -> u32
    decreases msg.len(),
{
    if msg.len() == 0 {
        init
    } else {
        crc_byte(crc_register(msg.drop_last(), init, poly), msg.last(), poly)
    }
}

/// Reflected CRC of width `width`: register preset to all ones, output complemented and masked.
pub open spec fn crc_spec(msg: Seq<u8>, width: nat, poly: u32) -> u32 {
    (!crc_register(msg, crc_mask(width), poly)) & crc_mask(width)
}

proof fn lemma_crc_bit_exec()
    by (bit_vector)
    ensures
        forall|key: u32, poly: u32|
            #[trigger] crc_bit(key, poly) == (if key & 1u32 != 0 { (key >> 1u32) ^ poly } else { key >> 1u32 }),
{
}

fn crc_reflected(msg: &[u8], width: u32, poly: u32) -> (r: u32)
    requires
        width <= 32,
    ensures
        r == crc_spec(msg@, width as nat, poly),
{
    let mask = if width == 32 {
        u32::MAX
    } else {
        proof {
            lemma_pow2_strictly_increases(width as nat, 32);
            lemma2_to64();
            vstd::bits::lemma_u32_shl_is_mul(1, width);
        }
        (1u32 << width) - 1
    };
    assert(mask == crc_mask(width as nat));
    let mut key = mask;
    let mut j: usize = 0;
    let n = msg.len();
    while j < n
        invariant
            n == msg@.len(),
            0 <= j <= n,
            mask == crc_mask(width as nat),
            key == crc_register(msg@.subrange(0, j as int), mask, poly),
        decreases n - j,
    {
        let b = msg[j];
        let ghost start = key ^ (b as u32);
        key ^= b as u32;
        let mut k: u32 = 0;
        while k < 8
            invariant
                0 <= k <= 8,
                crc_shifts(key, poly, (8 - k) as nat) == crc_shifts(start, poly, 8),
            decreases 8 - k,
        {
            proof {
                lemma_crc_bit_exec();
            }
            let odd = key & 1;
            key >>= 1;
            if odd != 0 {
                key ^= poly;
            }
            k += 1;
        }
        proof {
            let pre = msg@.subrange(0, j as int);
            let post = msg@.subrange(0, j + 1);
            assert(post.drop_last() =~= pre);
        }
        j += 1;
    }
    proof {
        assert(msg@.subrange(0, n as int) =~= msg@);
    }
    (!key) & mask
}

/// CRC-8 (poly `0x07`, reflected, init/xor-out all ones).
pub fn crc8(msg: &[u8]) -> (r: u8)
    ensures
        r == crc_spec(msg@, 8, CRC8_POLY) as u8,
{
    crc_reflected(msg, 8, CRC8_POLY) as u8
}

/// CRC-16 (poly `0x8005`, reflected, init/xor-out all ones).
pub fn crc16(msg: &[u8]) -> (r: u16)
    ensures
        r == crc_spec(msg@, 16, CRC16_POLY) as u16,
{
    crc_reflected(msg, 16, CRC16_POLY) as u16
}

/// CRC-24 (poly `0x5D6DCB`, reflected, init/xor-out all ones).
pub fn crc24(msg: &[u8]) -> (r: u32)
    ensures
        r == crc_spec(msg@, 24, CRC24_POLY),
{
    crc_reflected(msg, 24, CRC24_POLY)
}

/// CRC-32 (poly `0x04C11DB7`, reflected, init/xor-out all ones; ISO-HDLC / zlib).
pub fn crc32(msg: &[u8]) -> (r: u32)
    ensures
        r == crc_spec(msg@, 32, CRC32_POLY),
{
    crc_reflected(msg, 32, CRC32_POLY)
}

/// Returns `true` when `crc32(msg)` equals `key`.
pub fn crc32_verify(msg: &[u8], key: u32) -> (r: bool)
    ensures
        r == (crc_spec(msg@, 32, CRC32_POLY) == key),
{
    crc32(msg) == key
}

// ─────────────────────────────────────────────────────────────────────────────
// Checksum
// ─────────────────────────────────────────────────────────────────────────────

/// Sum of the bytes of `msg`.
pub open spec fn byte_sum(msg: Seq<u8>) -> nat
    decreases msg.len(),
{
    if msg.len() == 0 {
        0
    } else {
        byte_sum(msg.drop_last()) + msg.last() as nat
    }
}

/// Two's-complement 8-bit checksum: `~(sum) + 1` of the message bytes, i.e. the byte that
/// brings the sum of the message to zero modulo 256.
///
/// The sum is accumulated in a `u32`, so the message's byte sum must fit in one.
pub fn checksum8(msg: &[u8]) -> (r: u8)
    requires
        byte_sum(msg@) <= u32::MAX,
    ensures
        r as nat == (256 - byte_sum(msg@) % 256) % 256,
{
    let mut sum: u32 = 0;
    let mut j: usize = 0;
    let n = msg.len();
    proof {
        lemma_byte_sum_prefix_le(msg@, 0);
    }
    while j < n
        invariant
            n == msg@.len(),
            0 <= j <= n,
            byte_sum(msg@) <= u32::MAX,
            sum == byte_sum(msg@.subrange(0, j as int)),
        decreases n - j,
    {
        proof {
            let post = msg@.subrange(0, j + 1);
            assert(post.drop_last() =~= msg@.subrange(0, j as int));
            lemma_byte_sum_prefix_le(msg@, j + 1);
        }
        sum += msg[j] as u32;
        j += 1;
    }
    proof {
        assert(msg@.subrange(0, n as int) =~= msg@);
        lemma_checksum_bits(sum);
    }
    (!(sum as u8)).wrapping_add(1)
}

proof fn lemma_checksum_bits(sum: u32)
    by (bit_vector)
    ensures
        (!(sum as u8)).wrapping_add(1) == ((256 - sum % 256) % 256) as u8,
{
}

/// A prefix never sums to more than the whole message.
pub proof fn lemma_byte_sum_prefix_le(msg: Seq<u8>, k: int)
    requires
        0 <= k <= msg.len(),
    ensures
        byte_sum(msg.subrange(0, k)) <= byte_sum(msg),
    decreases msg.len() - k,
{
    if k < msg.len() {
        lemma_byte_sum_prefix_le(msg, k + 1);
        assert(msg.subrange(0, k + 1).drop_last() =~= msg.subrange(0, k));
    } else {
        assert(msg.subrange(0, k) =~= msg);
    }
}

/// Appending the checksum to a message makes the byte sum a multiple of 256.
pub proof fn lemma_checksum8_zeroes_sum(msg: Seq<u8>, c: u8)
    requires
        c as nat == (256 - byte_sum(msg) % 256) % 256,
    ensures
        byte_sum(msg.push(c)) % 256 == 0,
{
    assert(msg.push(c).drop_last() =~= msg);
    let s = byte_sum(msg);
    lemma_fundamental_div_mod(s as int, 256);
    if s % 256 == 0 {
    } else {
        assert(s + c == 256 * (s / 256 + 1));
        lemma_mod_multiples_basic((s / 256 + 1) as int, 256);
    }
}

// ─────────────────────────────────────────────────────────────────────────────
// Hamming(7,4)
// ─────────────────────────────────────────────────────────────────────────────

/// The Hamming(7,4) codeword of the low nibble of `n`: the XOR of the generator rows
/// `0x69, 0x2a, 0x4c, 0x70` selected by the nibble's bits.
pub open spec fn hamming74_codeword(n: u8) -> u8 {
    (if n & 1 == 1 { 0x69u8 } else { 0u8 }) ^ (if n & 2 == 2 { 0x2au8 } else { 0u8 }) ^ (if n & 4
        == 4 { 0x4cu8 } else { 0u8 }) ^ (if n & 8 == 8 { 0x70u8 } else { 0u8 })
}

/// Number of set bits among the low seven bits of `v`.
pub open spec fn weight7(v: u8) -> u8 {
    ((v & 1) + ((v >> 1) & 1) + ((v >> 2) & 1) + ((v >> 3) & 1) + ((v >> 4) & 1) + ((v >> 5) & 1)
        + ((v >> 6) & 1)) as u8
}

/// Encoder table of liquid-dsp (`hamming74_enc_gentab`), indexed by a nibble.
pub open spec fn hamming74_enc_table(n: u8) -> u8 {
    match n {
        0 => 0x00u8,
        1 => 0x69u8,
        2 => 0x2au8,
        3 => 0x43u8,
        4 => 0x4cu8,
        5 => 0x25u8,
        6 => 0x66u8,
        7 => 0x0fu8,
        8 => 0x70u8,
        9 => 0x19u8,
        10 => 0x5au8,
        11 => 0x33u8,
        12 => 0x3cu8,
        13 => 0x55u8,
        14 => 0x16u8,
        _ => 0x7fu8,
    }
}

/// Decoder table of liquid-dsp (`hamming74_dec_gentab`), indexed by a 7-bit word.
pub open spec fn hamming74_dec_table(c: u8) -> u8 {
    match c {
        0 => 0x00u8,
        1 => 0x00u8,
        2 => 0x00u8,
        3 => 0x03u8,
        4 => 0x00u8,
        5 => 0x05u8,
        6 => 0x0eu8,
        7 => 0x07u8,
        8 => 0x00u8,
        9 => 0x09u8,
        10 => 0x02u8,
        11 => 0x07u8,
        12 => 0x04u8,
        13 => 0x07u8,
        14 => 0x07u8,
        15 => 0x07u8,
        16 => 0x00u8,
        17 => 0x09u8,
        18 => 0x0eu8,
        19 => 0x0bu8,
        20 => 0x0eu8,
        21 => 0x0du8,
        22 => 0x0eu8,
        23 => 0x0eu8,
        24 => 0x09u8,
        25 => 0x09u8,
        26 => 0x0au8,
        27 => 0x09u8,
        28 => 0x0cu8,
        29 => 0x09u8,
        30 => 0x0eu8,
        31 => 0x07u8,
        32 => 0x00u8,
        33 => 0x05u8,
        34 => 0x02u8,
        35 => 0x0bu8,
        36 => 0x05u8,
        37 => 0x05u8,
        38 => 0x06u8,
        39 => 0x05u8,
        40 => 0x02u8,
        41 => 0x01u8,
        42 => 0x02u8,
        43 => 0x02u8,
        44 => 0x0cu8,
        45 => 0x05u8,
        46 => 0x02u8,
        47 => 0x07u8,
        48 => 0x08u8,
        49 => 0x0bu8,
        50 => 0x0bu8,
        51 => 0x0bu8,
        52 => 0x0cu8,
        53 => 0x05u8,
        54 => 0x0eu8,
        55 => 0x0bu8,
        56 => 0x0cu8,
        57 => 0x09u8,
        58 => 0x02u8,
        59 => 0x0bu8,
        60 => 0x0cu8,
        61 => 0x0cu8,
        62 => 0x0cu8,
        63 => 0x0fu8,
        64 => 0x00u8,
        65 => 0x03u8,
        66 => 0x03u8,
        67 => 0x03u8,
        68 => 0x04u8,
        69 => 0x0du8,
        70 => 0x06u8,
        71 => 0x03u8,
        72 => 0x04u8,
        73 => 0x01u8,
        74 => 0x0au8,
        75 => 0x03u8,
        76 => 0x04u8,
        77 => 0x04u8,
        78 => 0x04u8,
        79 => 0x07u8,
        80 => 0x08u8,
        81 => 0x0du8,
        82 => 0x0au8,
        83 => 0x03u8,
        84 => 0x0du8,
        85 => 0x0du8,
        86 => 0x0eu8,
        87 => 0x0du8,
        88 => 0x0au8,
        89 => 0x09u8,
        90 => 0x0au8,
        91 => 0x0au8,
        92 => 0x04u8,
        93 => 0x0du8,
        94 => 0x0au8,
        95 => 0x0fu8,
        96 => 0x08u8,
        97 => 0x01u8,
        98 => 0x06u8,
        99 => 0x03u8,
        100 => 0x06u8,
        101 => 0x05u8,
        102 => 0x06u8,
        103 => 0x06u8,
        104 => 0x01u8,
        105 => 0x01u8,
        106 => 0x02u8,
        107 => 0x01u8,
        108 => 0x04u8,
        109 => 0x01u8,
        110 => 0x06u8,
        111 => 0x0fu8,
        112 => 0x08u8,
        113 => 0x08u8,
        114 => 0x08u8,
        115 => 0x0bu8,
        116 => 0x08u8,
        117 => 0x0du8,
        118 => 0x06u8,
        119 => 0x0fu8,
        120 => 0x08u8,
        121 => 0x01u8,
        122 => 0x0au8,
        123 => 0x0fu8,
        124 => 0x0cu8,
        125 => 0x0fu8,
        126 => 0x0fu8,
        _ => 0x0fu8,
    }
}

/// Decoding of a received byte: the table entry of its low seven bits.
pub open spec fn hamming74_decode_spec(c: u8) -> u8 {
    hamming74_dec_table(c & 0x7f)
}

/// Facts about the code checked over every input: the decoder table returns the nibble
/// whose codeword is within one bit of the received word, and that nibble is unique.
proof fn lemma_hamming74_tables()
    by (bit_vector)
    ensures
        forall|c: u8|
            #![trigger hamming74_dec_table(c)]
            c < 128 ==> hamming74_dec_table(c) < 16 && weight7(
                hamming74_codeword(hamming74_dec_table(c)) ^ c,
            ) <= 1,
        forall|a: u8, b: u8|
            #![trigger hamming74_codeword(a), hamming74_codeword(b)]
            a < 16 && b < 16 && a != b ==> weight7(hamming74_codeword(a) ^ hamming74_codeword(b))
                >= 3,
        forall|n: u8| #![trigger hamming74_codeword(n)] hamming74_codeword(n) < 128,
{
}

/// The encoder table lists the codewords of all sixteen nibbles.
proof fn lemma_hamming74_enc_table()
    by (bit_vector)
    ensures
        forall|n: u8| #![trigger hamming74_enc_table(n)] n < 16 ==> hamming74_enc_table(n) == hamming74_codeword(n),
        forall|x: u8| #![trigger (x & 0x0f)] (x & 0x0f) < 16,
        forall|x: u8| #![trigger (x & 0x7f)] (x & 0x7f) < 128,
        forall|x: u8| #![trigger (x & 0x7f)] hamming74_codeword(x & 0x0f) == hamming74_codeword(x),
{
}

/// Encodes a data nibble (`0..=15`) to a 7-bit Hamming(7,4) codeword in the low bits.
pub fn hamming74_encode_nibble(nibble: u8) -> (r: u8)
    ensures
        r == hamming74_codeword(nibble & 0x0f),
        r < 128,
{
    let n = nibble & 0x0f;
    proof {
        lemma_hamming74_enc_table();
        lemma_hamming74_tables();
    }
    let r = match n {
            0 => 0x00,
            1 => 0x69,
            2 => 0x2a,
            3 => 0x43,
            4 => 0x4c,
            5 => 0x25,
            6 => 0x66,
            7 => 0x0f,
            8 => 0x70,
            9 => 0x19,
            10 => 0x5a,
            11 => 0x33,
            12 => 0x3c,
            13 => 0x55,
            14 => 0x16,
            _ => 0x7f,
        };
    proof {
        assert(r == hamming74_enc_table(n));
    }
    r
}

/// Decodes a 7-bit Hamming(7,4) codeword (low 7 bits) to a data nibble, correcting
/// a single-bit error.
pub fn hamming74_decode_nibble(codeword: u8) -> (r: u8)
    ensures
        r == hamming74_decode_spec(codeword),
        r < 16,
        weight7(hamming74_codeword(r) ^ (codeword & 0x7f)) <= 1,
{
    let c = codeword & 0x7f;
    proof {
        lemma_hamming74_enc_table();
        lemma_hamming74_tables();
    }
    let r = match c {
            0 => 0x00,
            1 => 0x00,
            2 => 0x00,
            3 => 0x03,
            4 => 0x00,
            5 => 0x05,
            6 => 0x0e,
            7 => 0x07,
            8 => 0x00,
            9 => 0x09,
            10 => 0x02,
            11 => 0x07,
            12 => 0x04,
            13 => 0x07,
            14 => 0x07,
            15 => 0x07,
            16 => 0x00,
            17 => 0x09,
            18 => 0x0e,
            19 => 0x0b,
            20 => 0x0e,
            21 => 0x0d,
            22 => 0x0e,
            23 => 0x0e,
            24 => 0x09,
            25 => 0x09,
            26 => 0x0a,
            27 => 0x09,
            28 => 0x0c,
            29 => 0x09,
            30 => 0x0e,
            31 => 0x07,
            32 => 0x00,
            33 => 0x05,
            34 => 0x02,
            35 => 0x0b,
            36 => 0x05,
            37 => 0x05,
            38 => 0x06,
            39 => 0x05,
            40 => 0x02,
            41 => 0x01,
            42 => 0x02,
            43 => 0x02,
            44 => 0x0c,
            45 => 0x05,
            46 => 0x02,
            47 => 0x07,
            48 => 0x08,
            49 => 0x0b,
            50 => 0x0b,
            51 => 0x0b,
            52 => 0x0c,
            53 => 0x05,
            54 => 0x0e,
            55 => 0x0b,
            56 => 0x0c,
            57 => 0x09,
            58 => 0x02,
            59 => 0x0b,
            60 => 0x0c,
            61 => 0x0c,
            62 => 0x0c,
            63 => 0x0f,
            64 => 0x00,
            65 => 0x03,
            66 => 0x03,
            67 => 0x03,
            68 => 0x04,
            69 => 0x0d,
            70 => 0x06,
            71 => 0x03,
            72 => 0x04,
            73 => 0x01,
            74 => 0x0a,
            75 => 0x03,
            76 => 0x04,
            77 => 0x04,
            78 => 0x04,
            79 => 0x07,
            80 => 0x08,
            81 => 0x0d,
            82 => 0x0a,
            83 => 0x03,
            84 => 0x0d,
            85 => 0x0d,
            86 => 0x0e,
            87 => 0x0d,
            88 => 0x0a,
            89 => 0x09,
            90 => 0x0a,
            91 => 0x0a,
            92 => 0x04,
            93 => 0x0d,
            94 => 0x0a,
            95 => 0x0f,
            96 => 0x08,
            97 => 0x01,
            98 => 0x06,
            99 => 0x03,
            100 => 0x06,
            101 => 0x05,
            102 => 0x06,
            103 => 0x06,
            104 => 0x01,
            105 => 0x01,
            106 => 0x02,
            107 => 0x01,
            108 => 0x04,
            109 => 0x01,
            110 => 0x06,
            111 => 0x0f,
            112 => 0x08,
            113 => 0x08,
            114 => 0x08,
            115 => 0x0b,
            116 => 0x08,
            117 => 0x0d,
            118 => 0x06,
            119 => 0x0f,
            120 => 0x08,
            121 => 0x01,
            122 => 0x0a,
            123 => 0x0f,
            124 => 0x0c,
            125 => 0x0f,
            126 => 0x0f,
            _ => 0x0f,
        };
    proof {
        assert(r == hamming74_dec_table(c));
    }
    r
}

/// The byte stream `hamming74_encode_bytes` writes for `src`: two codewords per byte, the
/// high nibble's first.
pub open spec fn hamming74_encode_seq(src: Seq<u8>) -> Seq<u8> {
    Seq::new(
        2 * src.len(),
        |i: int|
            if i % 2 == 0 {
                hamming74_codeword((src[i / 2] >> 4u8) & 0x0f)
            } else {
                hamming74_codeword(src[i / 2] & 0x0f)
            },
    )
}

/// The bytes `hamming74_decode_bytes` writes for `src`: one byte per pair of codewords,
/// the first decoding to the high nibble.
pub open spec fn hamming74_decode_seq(src: Seq<u8>) -> Seq<u8> {
    Seq::new(
        src.len() / 2,
        |i: int|
            (hamming74_decode_spec(src[2 * i]) * 16 + hamming74_decode_spec(src[2 * i + 1])) as u8,
    )
}

proof fn lemma_hamming74_bytes()
    by (bit_vector)
    ensures
        forall|b: u8|
            #![trigger (b >> 4u8)]
            (b >> 4u8) & 0x0f == b >> 4u8 && (b >> 4u8) < 16 && (b >> 4u8) * 16 + (b & 0x0f) == b,
        forall|hi: u8, lo: u8|
            #![trigger (hi << 4u8) | lo]
            hi < 16 && lo < 16 ==> ((hi << 4u8) | lo) == hi * 16 + lo,
        forall|n: u8|
            #![trigger hamming74_decode_spec(hamming74_codeword(n))]
            n < 16 ==> hamming74_decode_spec(hamming74_codeword(n)) == n,
        forall|n: u8, k: u8|
            #![trigger hamming74_decode_spec(hamming74_codeword(n) ^ (1u8 << k))]
            n < 16 && k < 7 ==> hamming74_decode_spec(hamming74_codeword(n) ^ (1u8 << k)) == n,
{
}

/// Encodes each source byte as two Hamming(7,4) codewords (high nibble, then low).
///
/// `dst.len()` must be `2 * src.len()`; otherwise `LengthError` is returned and `dst` is
/// left as it was.
pub fn hamming74_encode_bytes(src: &[u8], dst: &mut [u8]) -> (st: Status)
    requires
        2 * src@.len() <= usize::MAX,
    ensures
        st == Status::Success || st == Status::LengthError,
        (st == Status::LengthError) <==> old(dst)@.len() != 2 * src@.len(),
        st == Status::LengthError ==> final(dst)@ == old(dst)@,
        st == Status::Success ==> final(dst)@ == hamming74_encode_seq(src@),
{
    if dst.len() != src.len() * 2 {
        return Status::LengthError;
    }
    let n = src.len();
    let mut i: usize = 0;
    while i < n
        invariant
            n == src@.len(),
            dst@.len() == 2 * n,
            2 * n <= usize::MAX,
            0 <= i <= n,
            forall|j: int| 0 <= j < 2 * i ==> dst@[j] == #[trigger] hamming74_encode_seq(src@)[j],
        decreases n - i,
    {
        let b = src[i];
        proof {
            lemma_hamming74_bytes();
        }
        dst[2 * i] = hamming74_encode_nibble(b >> 4);
        dst[2 * i + 1] = hamming74_encode_nibble(b);
        proof {
            assert forall|j: int| 0 <= j < 2 * (i + 1) implies dst@[j]
                == #[trigger] hamming74_encode_seq(src@)[j] by {
                if j >= 2 * i {
                    assert(j / 2 == i as int);
                }
            }
        }
        i += 1;
    }
    assert(dst@ =~= hamming74_encode_seq(src@));
    Status::Success
}

/// Inverse of [`hamming74_encode_bytes`]: each pair of codewords decodes, with single-bit
/// correction, to one byte.
///
/// `src.len()` must be `2 * dst.len()`; otherwise `LengthError` is returned and `dst` is
/// left as it was.
pub fn hamming74_decode_bytes(src: &[u8], dst: &mut [u8]) -> (st: Status)
    requires
        2 * old(dst)@.len() <= usize::MAX,
    ensures
        st == Status::Success || st == Status::LengthError,
        (st == Status::LengthError) <==> src@.len() != 2 * old(dst)@.len(),
        st == Status::LengthError ==> final(dst)@ == old(dst)@,
        st == Status::Success ==> final(dst)@ == hamming74_decode_seq(src@),
{
    if src.len() != dst.len() * 2 {
        return Status::LengthError;
    }
    let n = dst.len();
    let mut i: usize = 0;
    while i < n
        invariant
            n == dst@.len(),
            src@.len() == 2 * n,
            2 * n <= usize::MAX,
            0 <= i <= n,
            forall|j: int| 0 <= j < i ==> dst@[j] == #[trigger] hamming74_decode_seq(src@)[j],
        decreases n - i,
    {
        let hi = hamming74_decode_nibble(src[2 * i]);
        let lo = hamming74_decode_nibble(src[2 * i + 1]);
        proof {
            lemma_hamming74_bytes();
        }
        dst[i] = (hi << 4) | lo;
        i += 1;
    }
    assert(dst@ =~= hamming74_decode_seq(src@));
    Status::Success
}

/// Decoding a nibble's codeword gives the nibble back, and so does decoding it with any one
/// of its seven bits flipped.
pub proof fn lemma_hamming74_nibble_roundtrip(n: u8, k: u8)
    requires
        k < 7,
    ensures
        hamming74_decode_spec(hamming74_codeword(n & 0x0f)) == n & 0x0f,
        hamming74_decode_spec(hamming74_codeword(n & 0x0f) ^ (1u8 << k)) == n & 0x0f,
{
    lemma_hamming74_enc_table();
    lemma_hamming74_bytes();
}

/// Decoding the bytes that encoding wrote gives the source bytes back.
pub proof fn lemma_hamming74_bytes_roundtrip(src: Seq<u8>)
    ensures
        hamming74_decode_seq(hamming74_encode_seq(src)) == src,
{
    lemma_hamming74_bytes();
    let enc = hamming74_encode_seq(src);
    let dec = hamming74_decode_seq(enc);
    assert(dec.len() == src.len());
    assert forall|i: int| 0 <= i < src.len() implies dec[i] == src[i] by {
        assert((2 * i) / 2 == i);
        assert((2 * i + 1) / 2 == i);
        assert((2 * i + 1) % 2 == 1);
        let b = src[i];
        assert(hamming74_decode_spec(hamming74_codeword(b >> 4u8)) == b >> 4u8);
        lemma_hamming74_enc_table();
        assert(hamming74_decode_spec(hamming74_codeword(b & 0x0f)) == b & 0x0f);
    }
    assert(dec =~= src);
}

} // verus!
