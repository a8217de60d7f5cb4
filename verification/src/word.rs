//! Bytes of a machine word.
//!
//! The tracing facility moves whole words of eight bytes; a breakpoint is one
//! byte.  The functions here take a word apart and put it together again.

use vstd::prelude::*;

verus! {

/// Bytes in a machine word.
pub const WORD_BYTES: u64 = 8;

/// The address of the word that holds `addr`.
pub open spec fn word_base(addr: u64) -> u64 {
    (addr - addr % 8) as u64
}

/// The place of `addr` within its word, counted from the low end.
pub open spec fn byte_offset(addr: u64) -> u64 {
    addr % 8
}

/// Byte `k` of `word`, counted from the low end.
pub open spec fn byte_at(word: u64, k: u64) -> u8 {
    ((word >> (8 * k)) & 0xff) as u8
}

/// `word` with byte `k` replaced by `val`.
pub open spec fn with_byte(word: u64, k: u64, val: u8) -> u64 {
    (word & !(0xffu64 << (8 * k))) | ((val as u64) << (8 * k))
}

/// The eight bytes of `word`, low end first.
pub open spec fn bytes_of(word: u64) -> Seq<u8> {
    Seq::new(8, |k: int| byte_at(word, k as u64))
}

/// Rounds `addr` down to a word boundary.
pub fn align_addr_to_word(addr: u64) -> (base: u64)
    ensures
        base == word_base(addr),
        base % 8 == 0,
        base <= addr < base + 8,
{
    assert(addr & !7u64 == (addr - addr % 8) as u64) by (bit_vector);
    addr & !7u64
}

/// Reads byte `k` of `word`.
pub fn get_byte(word: u64, k: u64) -> (b: u8)
    requires
        k < 8,
    ensures
        b == byte_at(word, k),
{
    assert(8 * k < 64 && (word >> (8 * k)) & 0xff < 256) by (bit_vector)
        requires
            k < 8,
    ;
    ((word >> (8 * k)) & 0xff) as u8
}

/// Replaces byte `k` of `word` by `val` and leaves the other seven alone.
pub fn set_byte(word: u64, k: u64, val: u8) -> (out: u64)
    requires
        k < 8,
    ensures
        out == with_byte(word, k, val),
        bytes_of(out) == bytes_of(word).update(k as int, val),
{
    proof {
        lemma_with_byte(word, k, val);
    }
    (word & !(0xffu64 << (8 * k))) | ((val as u64) << (8 * k))
}

/// After a byte is replaced, reading it gives the new byte, and reading any
/// other byte of the word gives what was there before.
pub proof fn lemma_with_byte(word: u64, k: u64, val: u8)
    requires
        k < 8,
    ensures
        byte_at(with_byte(word, k, val), k) == val,
        forall|j: u64| j < 8 && j != k ==> byte_at(with_byte(word, k, val), j) == byte_at(word, j),
        bytes_of(with_byte(word, k, val)) == bytes_of(word).update(k as int, val),
{
    assert(byte_at(with_byte(word, k, val), k) == val) by (bit_vector)
        requires
            k < 8,
    ;
    assert forall|j: u64| j < 8 && j != k implies byte_at(with_byte(word, k, val), j) == byte_at(
        word,
        j,
    ) by {
        assert(byte_at(with_byte(word, k, val), j) == byte_at(word, j)) by (bit_vector)
            requires
                k < 8,
                j < 8,
                j != k,
        ;
    }
    assert(bytes_of(with_byte(word, k, val)) =~= bytes_of(word).update(k as int, val));
}

} // verus!
