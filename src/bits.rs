//! Reading unsigned integers of any width from any bit offset of a byte buffer.
use vstd::prelude::*;
use vstd::arithmetic::power2::{pow2, lemma_pow2_unfold, lemma_pow2_strictly_increases, lemma2_to64};
use vstd::arithmetic::div_mod::{lemma_fundamental_div_mod, lemma_mod_multiples_vanish};

verus! {

/// Failure of a bit-field read.
#[derive(Clone, Copy, Debug, PartialEq, Eq, Structural)]
pub enum BitError {
    /// The requested bits run past the end of the buffer.
    OutOfRange,
}

/// Bit `i` of `data`: bits are numbered from the most significant bit of
/// `data[0]`, so bit `i` is at position `7 - i % 8` of byte `i / 8`.
pub open spec fn bit_at(data: Seq<u8>, i: int) -> u8 {
    (data[(i / 8) as int] >> ((7 - i % 8) as u8)) & 1u8
}

/// The big-endian value of the `len` bits of `data` that begin at bit `start`:
/// the first bit read is the most significant one.
pub open spec fn bits_value(data: Seq<u8>, start: nat, len: nat) -> nat
    decreases len,
{
    if len == 0 {
        0
    } else {
        2 * bits_value(data, start, (len - 1) as nat) + bit_at(data, start + len - 1) as nat
    }
}

/// Whether the bits `start .. start + len` all lie inside `data`.
pub open spec fn bits_in_range(data: Seq<u8>, start: nat, len: nat) -> bool {
    start + len <= 8 * data.len()
}

/// A field of `len` bits is below `2^len`.
pub proof fn lemma_bits_value_bound(data: Seq<u8>, start: nat, len: nat)
    ensures
        bits_value(data, start, len) < pow2(len),
        len <= 32 ==> bits_value(data, start, len) < 0x1_0000_0000,
    decreases len,
{
    if len > 0 {
        lemma_bits_value_bound(data, start, (len - 1) as nat);
        lemma_pow2_unfold(len);
        let i = start + len - 1;
        lemma_low_bit((data[i / 8] >> ((7 - i % 8) as u8)));
    }
    if len <= 32 {
        lemma2_to64();
        if len < 32 {
            lemma_pow2_strictly_increases(len, 32);
        }
    }
}

proof fn lemma_low_bit(x: u8)
    ensures
        x & 1u8 <= 1,
{
    assert(x & 1u8 <= 1) by (bit_vector);
}

proof fn lemma_append_bit_mod(x: nat, b: nat)
    requires
        b <= 1,
    ensures
        (2 * (x % 0x1_0000_0000) + b) % 0x1_0000_0000 == (2 * x + b) % 0x1_0000_0000,
{
    let m: int = 0x1_0000_0000;
    lemma_fundamental_div_mod(x as int, m);
    let q = x as int / m;
    let r = x as int % m;
    assert(2 * x + b == m * (2 * q) + (2 * r + b));
    lemma_mod_multiples_vanish(2 * q, 2 * r + b, m);
}

/// Reads the `length` bits of `data` that begin at bit `start_bit` as a
/// big-endian unsigned integer. Widths up to 32 bits are returned exactly;
/// of a wider field the low 32 bits are returned.
pub fn parse_bits(data: &[u8], start_bit: usize, length: usize) -> (r: Result<u32, BitError>)
    ensures
        !bits_in_range(data@, start_bit as nat, length as nat) <==> r == Err::<u32, BitError>(
            BitError::OutOfRange,
        ),
        bits_in_range(data@, start_bit as nat, length as nat) ==> r == Ok::<u32, BitError>(
            (bits_value(data@, start_bit as nat, length as nat) % 0x1_0000_0000) as u32,
        ),
        bits_in_range(data@, start_bit as nat, length as nat) && length <= 32 ==> r
            == Ok::<u32, BitError>(bits_value(data@, start_bit as nat, length as nat) as u32),
        length <= 32 ==> (r matches Ok(v) ==> (v as nat) < pow2(length as nat)),
{
    if (start_bit as u128) + (length as u128) > (data.len() as u128) * 8 {
        return Err(BitError::OutOfRange);
    }
    let mut value: u32 = 0;
    let mut i: usize = 0;
    while i < length
        invariant
            i <= length,
            bits_in_range(data@, start_bit as nat, length as nat),
            value as nat == bits_value(data@, start_bit as nat, i as nat) % 0x1_0000_0000,
        decreases length - i,
    {
        let pos: u128 = (start_bit as u128) + (i as u128);
        let byte_index = (pos / 8) as usize;
        let bit_index: u8 = 7 - (pos % 8) as u8;
        let bit: u8 = (data[byte_index] >> bit_index) & 1;
        proof {
            lemma_low_bit(data@[byte_index as int] >> bit_index);
        }
        let b32 = bit as u32;
        let shifted: u32 = ((value & 0x7FFF_FFFF) << 1u32) | b32;
        assert(((value & 0x7FFF_FFFFu32) << 1u32) | b32 == (2 * value + b32) % 0x1_0000_0000)
            by (bit_vector)
            requires
                b32 <= 1,
        ;
        proof {
            lemma_append_bit_mod(bits_value(data@, start_bit as nat, i as nat), bit as nat);
        }
        value = shifted;
        i = i + 1;
    }
    proof {
        lemma_bits_value_bound(data@, start_bit as nat, length as nat);
    }
    Ok(value)
}

} // verus!
