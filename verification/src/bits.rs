//! Turning bytes into bits and bits back into bytes.
use vstd::prelude::*;

verus! {

/// The bits of `input`, eight per byte, least significant bit first, each
/// as a byte that is 0 or 1.
pub open spec fn pixel_bits(input: Seq<u8>) -> Seq<u8> {
    Seq::new(input.len() * 8, |q: int| (input[q / 8] >> ((q % 8) as u8)) & 1u8)
}

/// The byte that `bits` make, most significant bit first: each step shifts
/// what came before left by one (dropping the top bit) and ORs in the next
/// entry.
pub open spec fn spec_bits_to_byte(bits: Seq<u8>) -> u8
    decreases bits.len(),
{
    if bits.len() == 0 {
        0
    } else {
        (spec_bits_to_byte(bits.drop_last()) << 1u8) | bits.last()
    }
}

/// The byte that the `count` entries of `bits` from `start` on make, least
/// significant bit first: entry `start + k` is shifted left by `k` (dropping
/// what leaves the byte) and ORed in.
pub open spec fn packed_byte(bits: Seq<u8>, start: int, count: nat) -> u8
    decreases count,
{
    if count == 0 {
        0
    } else {
        packed_byte(bits, start, (count - 1) as nat) | (bits[start + count - 1] << ((count
            - 1) as u8))
    }
}

/// The bytes that `bits` make, eight entries each, least significant bit
/// first; entries after the last full group of eight are dropped.
pub open spec fn packed(bits: Seq<u8>) -> Seq<u8> {
    Seq::new(bits.len() / 8, |m: int| packed_byte(bits, m * 8, 8))
}

/// Folds `bits` into one byte, most significant bit first:
/// `byte = (byte << 1) | bit` for each entry.
pub fn bits_to_byte(bits: &[u8]) -> (byte: u8)
    ensures
        byte == spec_bits_to_byte(bits@),
{
    let mut byte: u8 = 0;
    let mut i: usize = 0;
    while i < bits.len()
        invariant
            i <= bits@.len(),
            byte == spec_bits_to_byte(bits@.take(i as int)),
        decreases bits@.len() - i,
    {
        let bit = bits[i];
        assert(bits@.take(i + 1).drop_last() =~= bits@.take(i as int));
        byte = (byte << 1u8) | bit;
        i = i + 1;
    }
    assert(bits@.take(i as int) =~= bits@);
    byte
}

/// Spreads every byte of `input` over eight entries, least significant bit
/// first, each entry 0 or 1.
pub fn create_pixel_data(input: &[u8]) -> (pixel_data: Vec<u8>)
    ensures
        pixel_data@ == pixel_bits(input@),
{
    let mut pixel_data: Vec<u8> = Vec::new();
    let mut j: usize = 0;
    while j < input.len()
        invariant
            j <= input@.len(),
            pixel_data@ =~= pixel_bits(input@).take(j * 8),
        decreases input@.len() - j,
    {
        let byte = input[j];
        let mut i: u8 = 0;
        while i < 8
            invariant
                j < input@.len(),
                i <= 8,
                byte == input@[j as int],
                pixel_data@ =~= pixel_bits(input@).take(j * 8 + i),
            decreases 8 - i,
        {
            let ghost q = j * 8 + i;
            assert(q / 8 == j && q % 8 == i);
            pixel_data.push((byte >> i) & 1);
            i = i + 1;
        }
        j = j + 1;
    }
    assert(pixel_bits(input@).take(j * 8) =~= pixel_bits(input@));
    pixel_data
}

/// Packs `bits` into bytes as the decoder does: each entry is shifted left
/// by its place in its group of eight and ORed into the current byte, which
/// is pushed once eight entries are in; a last group of fewer than eight
/// entries is dropped.
pub fn pack_bits(bits: &[u8]) -> (bytes: Vec<u8>)
    ensures
        bytes@ == packed(bits@),
{
    let mut byte_buffer: Vec<u8> = Vec::new();
    let mut bit_buffer: u8 = 0;
    let mut bit_count: u8 = 0;
    let mut i: usize = 0;
    while i < bits.len()
        invariant
            i <= bits@.len(),
            bit_count < 8,
            bit_count == i % 8,
            byte_buffer@.len() == i / 8,
            bit_buffer == packed_byte(bits@, i - bit_count, bit_count as nat),
            forall|m: int|
                0 <= m < byte_buffer@.len() ==> #[trigger] byte_buffer@[m] == packed_byte(
                    bits@,
                    m * 8,
                    8,
                ),
        decreases bits@.len() - i,
    {
        let bit = bits[i];
        bit_buffer = bit_buffer | (bit << bit_count);
        bit_count = bit_count + 1;
        if bit_count == 8 {
            byte_buffer.push(bit_buffer);
            bit_buffer = 0;
            bit_count = 0;
        }
        i = i + 1;
    }
    assert(byte_buffer@ =~= packed(bits@));
    byte_buffer
}

proof fn lemma_spread_entry(input: Seq<u8>, m: int, k: int)
    requires
        0 <= m < input.len(),
        0 <= k < 8,
    ensures
        pixel_bits(input)[m * 8 + k] == (input[m] >> (k as u8)) & 1u8,
{
    assert((m * 8 + k) / 8 == m && (m * 8 + k) % 8 == k);
}

/// Each packed byte is the OR of the eight entries of its group, entry `k`
/// shifted left by `k` (bits shifted out of the byte are dropped), whatever
/// values the entries hold; one byte is made for every full group.
pub proof fn lemma_packed_bytes(bits: Seq<u8>)
    ensures
        packed(bits).len() == bits.len() / 8,
        forall|m: int|
            0 <= m < bits.len() / 8 ==> #[trigger] packed(bits)[m] == ((((((((bits[8 * m] << 0u8)
                | (bits[8 * m + 1] << 1u8)) | (bits[8 * m + 2] << 2u8)) | (bits[8 * m + 3] << 3u8))
                | (bits[8 * m + 4] << 4u8)) | (bits[8 * m + 5] << 5u8)) | (bits[8 * m + 6] << 6u8))
                | (bits[8 * m + 7] << 7u8)),
{
    assert forall|m: int| 0 <= m < bits.len() / 8 implies #[trigger] packed(bits)[m] == ((((((((
        bits[8 * m] << 0u8) | (bits[8 * m + 1] << 1u8)) | (bits[8 * m + 2] << 2u8)) | (bits[8 * m
        + 3] << 3u8)) | (bits[8 * m + 4] << 4u8)) | (bits[8 * m + 5] << 5u8)) | (bits[8 * m + 6]
        << 6u8)) | (bits[8 * m + 7] << 7u8)) by {
        reveal_with_fuel(packed_byte, 9);
        let x = bits[8 * m] << 0u8;
        assert(0u8 | x == x) by (bit_vector);
        assert(m * 8 == 8 * m);
    }
}

/// Packing undoes spreading: the bytes that the bits of `input` make are
/// `input` again.
pub proof fn lemma_pack_spread_roundtrip(input: Seq<u8>)
    ensures
        packed(pixel_bits(input)) == input,
{
    let bits = pixel_bits(input);
    assert forall|m: int| 0 <= m < input.len() implies #[trigger] packed_byte(bits, m * 8, 8)
        == input[m] by {
        let b = input[m];
        reveal_with_fuel(packed_byte, 9);
        lemma_spread_entry(input, m, 0);
        lemma_spread_entry(input, m, 1);
        lemma_spread_entry(input, m, 2);
        lemma_spread_entry(input, m, 3);
        lemma_spread_entry(input, m, 4);
        lemma_spread_entry(input, m, 5);
        lemma_spread_entry(input, m, 6);
        lemma_spread_entry(input, m, 7);
        assert(((((((((0u8 | (((b >> 0u8) & 1u8) << 0u8)) | (((b >> 1u8) & 1u8) << 1u8)) | (((b
            >> 2u8) & 1u8) << 2u8)) | (((b >> 3u8) & 1u8) << 3u8)) | (((b >> 4u8) & 1u8) << 4u8))
            | (((b >> 5u8) & 1u8) << 5u8)) | (((b >> 6u8) & 1u8) << 6u8)) | (((b >> 7u8) & 1u8)
            << 7u8)) == b) by (bit_vector);
    }
    assert(packed(bits) =~= input);
}

} // verus!
