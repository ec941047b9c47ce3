//! Bitfields: one bit per piece, piece 0 in the most significant bit of the
//! first byte.
use vstd::prelude::*;

verus! {

/// The bit of piece `i` within its byte.
pub open spec fn mask(i: nat) -> u8 {
    0x80u8 >> ((i % 8) as u8)
}

/// Whether `field` has the bit of piece `i` set.
pub open spec fn has_bit(field: Seq<u8>, i: nat) -> bool {
    i / 8 < field.len() && field[(i / 8) as int] & mask(i) != 0
}

/// The number of bytes that hold `n` bits.
pub open spec fn bytes_for(n: nat) -> nat {
    n / 8 + if n % 8 == 0 {
        0nat
    } else {
        1nat
    }
}

pub proof fn lemma_set_bit(b: u8, j: u8, k: u8)
    requires
        j < 8,
        k < 8,
    ensures
        ((b | (0x80u8 >> k)) & (0x80u8 >> j) != 0) == ((b & (0x80u8 >> j) != 0) || j == k),
{
    assert(((b | (0x80u8 >> k)) & (0x80u8 >> j) != 0) == ((b & (0x80u8 >> j) != 0) || j == k))
        by (bit_vector)
        requires
            j < 8,
            k < 8,
    ;
}

pub proof fn lemma_zero_byte(j: u8)
    requires
        j < 8,
    ensures
        (0u8 & (0x80u8 >> j)) == 0,
{
    assert((0u8 & (0x80u8 >> j)) == 0) by (bit_vector);
}

/// `field` with the bit of piece `i` set: the same bits plus that one.
pub fn set_bit(field: &mut Vec<u8>, i: usize)
    requires
        i / 8 < old(field)@.len(),
    ensures
        final(field)@.len() == old(field)@.len(),
        forall|j: nat| #[trigger] has_bit(final(field)@, j) == (has_bit(old(field)@, j) || j == i),
{
    let byte = i / 8;
    let bit = (i % 8) as u8;
    let old_byte = field[byte];
    field.set(byte, old_byte | (0x80u8 >> bit));
    proof {
        assert forall|j: nat| #[trigger] has_bit(field@, j) == (has_bit(old(field)@, j) || j == i) by {
            if j / 8 == byte {
                lemma_set_bit(old_byte, (j % 8) as u8, bit);
                if (j % 8) as u8 == bit {
                    assert(j == i);
                }
            }
        }
    }
}

/// Whether `field` has the bit of piece `i` set; a field too short to hold it
/// has it clear.
pub fn get_bit(field: &[u8], i: usize) -> (r: bool)
    ensures
        r == has_bit(field@, i as nat),
{
    let byte = i / 8;
    if byte >= field.len() {
        return false;
    }
    let bit = (i % 8) as u8;
    field[byte] & (0x80u8 >> bit) != 0
}

/// A field of `n` bits, all clear.
pub fn empty_field(n: usize) -> (r: Vec<u8>)
    ensures
        r@.len() == bytes_for(n as nat),
        forall|j: nat| !#[trigger] has_bit(r@, j),
{
    let size = n / 8 + if n % 8 == 0 {
        0
    } else {
        1
    };
    let mut v: Vec<u8> = Vec::new();
    let mut k: usize = 0;
    while k < size
        invariant
            k <= size,
            v@.len() == k,
            forall|t: int| 0 <= t < k ==> v@[t] == 0,
        decreases size - k,
    {
        v.push(0);
        k = k + 1;
    }
    proof {
        assert forall|j: nat| !#[trigger] has_bit(v@, j) by {
            if j / 8 < v@.len() {
                lemma_zero_byte((j % 8) as u8);
            }
        }
    }
    v
}

} // verus!
