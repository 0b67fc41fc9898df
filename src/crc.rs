//! The CRC24Q checksum that protects every RTCM3 frame.
use vstd::prelude::*;

verus! {

/// Generator polynomial of CRC24Q, including the implicit top bit 24.
pub const CRC24Q_POLY: u32 = 0x1864CFB;

/// One shift of the register: shift left, and reduce by the polynomial
/// when bit 24 becomes set.
pub open spec fn crc_shift(reg: u32) -> u32 {
    let s = reg << 1u32;
    if s & 0x1000000u32 != 0 {
        s ^ CRC24Q_POLY
    } else {
        s
    }
}

/// `n` successive shifts of the register.
pub open spec fn crc_shifts(reg: u32, n: nat) -> u32
    decreases n,
{
    if n == 0 {
        reg
    } else {
        crc_shift(crc_shifts(reg, (n - 1) as nat))
    }
}

/// Absorbs one byte: it is XORed into bits 16..23, then the register is shifted
/// eight times.
pub open spec fn crc_absorb(reg: u32, byte: u8) -> u32 {
    crc_shifts(reg ^ ((byte as u32) << 16u32), 8)
}

/// The register after absorbing every byte of `data`, starting from zero.
pub open spec fn crc_register(data: Seq<u8>) -> u32
    decreases data.len(),
{
    if data.len() == 0 {
        0
    } else {
        crc_absorb(crc_register(data.drop_last()), data.last())
    }
}

/// CRC24Q of `data`: the low 24 bits of the final register.
pub open spec fn crc24q(data: Seq<u8>) -> u32 {
    crc_register(data) & 0xFFFFFFu32
}

/// Computes the CRC24Q checksum of `data` (MSB first, initial value zero,
/// no reflection, no final XOR).
pub fn crc24q_new(data: &[u8]) -> (r: u32)
    ensures
        r == crc24q(data@),
        r < 0x1000000,
        data@.len() == 0 ==> r == 0,
{
    let mut crc: u32 = 0;
    let mut i: usize = 0;
    while i < data.len()
        invariant
            i <= data@.len(),
            crc == crc_register(data@.subrange(0, i as int)),
        decreases data@.len() - i,
    {
        let octet = data[i];
        crc = crc ^ ((octet as u32) << 16u32);
        let ghost start = crc;
        let mut k: usize = 0;
        while k < 8
            invariant
                k <= 8,
                crc == crc_shifts(start, k as nat),
            decreases 8 - k,
        {
            crc = crc << 1u32;
            if crc & 0x1000000 != 0 {
                crc = crc ^ CRC24Q_POLY;
            }
            k = k + 1;
        }
        assert(data@.subrange(0, i + 1).drop_last() =~= data@.subrange(0, i as int));
        i = i + 1;
    }
    assert(data@.subrange(0, data@.len() as int) =~= data@);
    let r = crc & 0xFFFFFF;
    assert(crc & 0xFFFFFFu32 < 0x1000000) by (bit_vector);
    assert(0u32 & 0xFFFFFFu32 == 0) by (bit_vector);
    r
}

proof fn lemma_shift_facts(a: u32, b: u32)
    requires
        a < 0x1000000,
        b < 0x1000000,
    ensures
        crc_shift(a) < 0x1000000,
        a != b ==> crc_shift(a) != crc_shift(b),
{
    assert(a < 0x1000000 ==> (if (a << 1u32) & 0x1000000u32 != 0 {
        (a << 1u32) ^ 0x1864CFBu32
    } else {
        a << 1u32
    }) < 0x1000000) by (bit_vector);
    assert(a < 0x1000000 && b < 0x1000000 && a != b ==> (if (a << 1u32) & 0x1000000u32 != 0 {
        (a << 1u32) ^ 0x1864CFBu32
    } else {
        a << 1u32
    }) != (if (b << 1u32) & 0x1000000u32 != 0 {
        (b << 1u32) ^ 0x1864CFBu32
    } else {
        b << 1u32
    })) by (bit_vector);
}

proof fn lemma_shifts_facts(a: u32, b: u32, n: nat)
    requires
        a < 0x1000000,
        b < 0x1000000,
    ensures
        crc_shifts(a, n) < 0x1000000,
        crc_shifts(b, n) < 0x1000000,
        a != b ==> crc_shifts(a, n) != crc_shifts(b, n),
    decreases n,
{
    if n > 0 {
        lemma_shifts_facts(a, b, (n - 1) as nat);
        lemma_shift_facts(crc_shifts(a, (n - 1) as nat), crc_shifts(b, (n - 1) as nat));
        lemma_shift_facts(crc_shifts(b, (n - 1) as nat), crc_shifts(a, (n - 1) as nat));
    }
}

/// Absorbing a byte keeps the register within 24 bits, and two different
/// (register, byte) pairs that share one of their parts give different
/// registers.
proof fn lemma_absorb_facts(a: u32, b: u32, x: u8, y: u8)
    requires
        a < 0x1000000,
        b < 0x1000000,
    ensures
        crc_absorb(a, x) < 0x1000000,
        (a == b && x != y) || (a != b && x == y) ==> crc_absorb(a, x) != crc_absorb(b, y),
{
    let ia = a ^ ((x as u32) << 16u32);
    let ib = b ^ ((y as u32) << 16u32);
    assert(a < 0x1000000 ==> a ^ ((x as u32) << 16u32) < 0x1000000) by (bit_vector);
    assert(b < 0x1000000 ==> b ^ ((y as u32) << 16u32) < 0x1000000) by (bit_vector);
    assert((a == b && x != y) || (a != b && x == y) ==> a ^ ((x as u32) << 16u32) != b ^ ((
    y as u32) << 16u32)) by (bit_vector);
    lemma_shifts_facts(ia, ib, 8);
}

/// The register never leaves 24 bits, so the final mask loses nothing.
pub proof fn lemma_register_bound(data: Seq<u8>)
    ensures
        crc_register(data) < 0x1000000,
        crc24q(data) == crc_register(data),
    decreases data.len(),
{
    if data.len() > 0 {
        lemma_register_bound(data.drop_last());
        lemma_absorb_facts(crc_register(data.drop_last()), 0, data.last(), 0);
    }
    let r = crc_register(data);
    assert(r < 0x1000000 ==> r & 0xFFFFFFu32 == r) by (bit_vector);
}

proof fn lemma_update_changes_register(data: Seq<u8>, i: int, b: u8)
    requires
        0 <= i < data.len(),
        b != data[i],
    ensures
        crc_register(data.update(i, b)) != crc_register(data),
    decreases data.len(),
{
    let changed = data.update(i, b);
    let n = data.len() - 1;
    lemma_register_bound(data.drop_last());
    lemma_register_bound(changed.drop_last());
    if i == n {
        assert(changed.drop_last() =~= data.drop_last());
    } else {
        assert(changed.drop_last() =~= data.drop_last().update(i, b));
        lemma_update_changes_register(data.drop_last(), i, b);
    }
    lemma_absorb_facts(
        crc_register(changed.drop_last()),
        crc_register(data.drop_last()),
        changed.last(),
        data.last(),
    );
}

/// Replacing any one byte of a sequence by a different value changes its
/// CRC24Q.
pub proof fn lemma_byte_change_changes_checksum(data: Seq<u8>, i: int, b: u8)
    requires
        0 <= i < data.len(),
        b != data[i],
    ensures
        crc24q(data.update(i, b)) != crc24q(data),
{
    lemma_update_changes_register(data, i, b);
    lemma_register_bound(data);
    lemma_register_bound(data.update(i, b));
}

/// A frame whose checksum verifies stops verifying when any one of its bytes
/// is changed.
pub proof fn lemma_corrupted_byte_detected(frame: Seq<u8>, i: int, b: u8)
    requires
        crc24q(frame) == 0,
        0 <= i < frame.len(),
        b != frame[i],
    ensures
        crc24q(frame.update(i, b)) != 0,
{
    lemma_byte_change_changes_checksum(frame, i, b);
}

/// A frame whose checksum verifies stops verifying when any one of its bits is
/// flipped.
pub proof fn lemma_flipped_bit_detected(frame: Seq<u8>, i: int, k: u8)
    requires
        crc24q(frame) == 0,
        0 <= i < frame.len(),
        k < 8,
    ensures
        crc24q(frame.update(i, frame[i] ^ (1u8 << k))) != 0,
{
    let x = frame[i];
    assert(k < 8 ==> x ^ (1u8 << k) != x) by (bit_vector);
    lemma_corrupted_byte_detected(frame, i, x ^ (1u8 << k));
}

} // verus!
