//! Bytes within a machine word of the tracee.
//!
//! The tracee's memory can only be read and written a word at a time, while a
//! software breakpoint replaces one byte. A word is modelled as its eight
//! bytes, least significant first.

use vstd::prelude::*;

verus! {

/// The one-byte instruction that forces a controlled stop.
pub const TRAP_OPCODE: u8 = 0xcc;

/// Byte `k` of `word`, counting from the least significant.
pub open spec fn byte_at(word: u64, k: u64) -> u8 {
    ((word >> ((8 * k) as u64)) & 0xff) as u8
}

/// The eight bytes of `word`, least significant first.
pub open spec fn word_bytes(word: u64) -> Seq<u8> {
    Seq::new(8, |k: int| byte_at(word, k as u64))
}

/// `word` with byte `k` replaced by `val`.
pub open spec fn with_byte(word: u64, k: u64, val: u8) -> u64 {
    (word & !(0xffu64 << ((8 * k) as u64))) | ((val as u64) << ((8 * k) as u64))
}

/// The address of the word that holds the byte at `addr`.
pub open spec fn word_base(addr: u64) -> u64 {
    (addr - addr % 8) as u64
}

/// The address of the word that contains `addr`: `addr` rounded down to a
/// multiple of the word size.
pub fn align_addr_to_word(addr: u64) -> (aligned: u64)
    ensures
        aligned == word_base(addr),
        aligned % 8 == 0,
        aligned <= addr < aligned + 8,
{
    let aligned: u64 = addr & 0xffff_ffff_ffff_fff8;
    assert(addr & 0xffff_ffff_ffff_fff8 == addr - addr % 8) by (bit_vector);
    aligned
}

/// The position of the byte at `addr` within its word.
pub fn byte_offset(addr: u64) -> (k: u64)
    ensures
        k == addr % 8,
        k == addr - word_base(addr),
{
    addr % 8
}

/// Reads byte `k` out of `word`.
pub fn extract_byte(word: u64, k: u64) -> (byte: u8)
    requires
        k < 8,
    ensures
        byte == byte_at(word, k),
{
    let shifted: u64 = (word >> (8 * k)) & 0xff;
    assert((word >> ((8 * k) as u64)) & 0xff < 0x100) by (bit_vector);
    shifted as u8
}

/// Stores `val` as byte `k` of `word` and leaves the other seven bytes alone.
pub fn replace_byte(word: u64, k: u64, val: u8) -> (patched: u64)
    requires
        k < 8,
    ensures
        patched == with_byte(word, k, val),
        word_bytes(patched) == word_bytes(word).update(k as int, val),
{
    let masked: u64 = word & !(0xffu64 << (8 * k));
    let patched: u64 = masked | ((val as u64) << (8 * k));
    proof {
        lemma_with_byte_replaces_one(word, k, val);
    }
    patched
}

/// Replacing byte `k` changes that byte and no other.
pub proof fn lemma_with_byte_replaces_one(word: u64, k: u64, val: u8)
    requires
        k < 8,
    ensures
        word_bytes(with_byte(word, k, val)) == word_bytes(word).update(k as int, val),
{
    let patched = with_byte(word, k, val);
    assert forall|j: int| 0 <= j < 8 implies #[trigger] word_bytes(patched)[j] == word_bytes(
        word,
    ).update(k as int, val)[j] by {
        lemma_with_byte_at(word, k, val, j as u64);
    }
    assert(word_bytes(patched) =~= word_bytes(word).update(k as int, val));
}

proof fn lemma_with_byte_at(word: u64, k: u64, val: u8, j: u64)
    by (bit_vector)
    requires
        k < 8,
        j < 8,
    ensures
        j == k ==> byte_at(with_byte(word, k, val), j) == val,
        j != k ==> byte_at(with_byte(word, k, val), j) == byte_at(word, j),
{
}

/// A word is the sum of its bytes, each weighted by a power of 256.
pub proof fn lemma_word_is_sum_of_bytes(word: u64)
    by (bit_vector)
    ensures
        word == byte_at(word, 0) + byte_at(word, 1) * 0x100 + byte_at(word, 2) * 0x1_0000
            + byte_at(word, 3) * 0x100_0000 + byte_at(word, 4) * 0x1_0000_0000 + byte_at(word, 5)
            * 0x100_0000_0000 + byte_at(word, 6) * 0x1_0000_0000_0000 + byte_at(word, 7)
            * 0x100_0000_0000_0000,
{
}

/// Two words with the same bytes are the same word.
pub proof fn lemma_word_bytes_injective(a: u64, b: u64)
    requires
        word_bytes(a) == word_bytes(b),
    ensures
        a == b,
{
    assert forall|k: u64| k < 8 implies byte_at(a, k) == byte_at(b, k) by {
        assert(word_bytes(a)[k as int] == byte_at(a, k));
        assert(word_bytes(b)[k as int] == byte_at(b, k));
    }
    lemma_word_is_sum_of_bytes(a);
    lemma_word_is_sum_of_bytes(b);
}

/// Storing a byte and then storing back the byte that was there restores the
/// word.
pub proof fn lemma_with_byte_round_trip(word: u64, k: u64, val: u8)
    requires
        k < 8,
    ensures
        byte_at(with_byte(word, k, val), k) == val,
        with_byte(with_byte(word, k, val), k, byte_at(word, k)) == word,
{
    let patched = with_byte(word, k, val);
    let restored = with_byte(patched, k, byte_at(word, k));
    lemma_with_byte_replaces_one(word, k, val);
    lemma_with_byte_replaces_one(patched, k, byte_at(word, k));
    assert(word_bytes(patched)[k as int] == val);
    assert(word_bytes(restored) =~= word_bytes(word));
    lemma_word_bytes_injective(restored, word);
}

} // verus!
