//! Bit fields of a byte, numbered from the most significant bit.

use bitvec::field::BitField;
use bitvec::order::Msb0;
use bitvec::view::BitView;
use vstd::prelude::*;

verus! {

/// A byte with its `width` lowest bits set, for `width` from 1 to 8.
pub open spec fn low_mask(width: nat) -> u8
    recommends
        1 <= width <= 8,
{
    0xffu8 >> ((8 - width) as u8)
}

/// The value of the bits `start..end` of `byte`, bit 0 being the most
/// significant one, read as an unsigned number.
pub open spec fn field(byte: u8, start: nat, end: nat) -> u8
    recommends
        start < end <= 8,
{
    (byte >> ((8 - end) as u8)) & low_mask((end - start) as nat)
}

/// `byte` with the bits `start..end` replaced by the lowest bits of `value`,
/// bit 0 being the most significant one.
pub open spec fn with_field(byte: u8, start: nat, end: nat, value: u8) -> u8
    recommends
        start < end <= 8,
{
    let shift = (8 - end) as u8;
    let mask = low_mask((end - start) as nat) << shift;
    (byte & !mask) | ((value << shift) & mask)
}

/// Reads a bit field of a byte through `bitvec`: the bits `start..end` of the
/// byte's `Msb0` view, loaded with `BitField::load`. The field lies within
/// one storage element, so the loaded value is the masked element shifted
/// down to bit 0, whatever the byte order of the machine.
#[verifier::external_body]
pub(crate) fn load_field(byte: u8, start: usize, end: usize) -> (value: u8)
    requires
        start < end <= 8,
    ensures
        value == field(byte, start as nat, end as nat),
{
    byte.view_bits::<Msb0>()[start..end].load::<u8>()
}

/// Writes a bit field of a byte through `bitvec`: `BitField::store_be` on
/// the bits `start..end` of the byte's `Msb0` view. The bits of `value`
/// that do not fit into the field are dropped, and the bits of the byte
/// outside the field stay as they are.
#[verifier::external_body]
pub(crate) fn store_field(byte: &mut u8, start: usize, end: usize, value: u8)
    requires
        start < end <= 8,
    ensures
        *final(byte) == with_field(*old(byte), start as nat, end as nat, value),
{
    byte.view_bits_mut::<Msb0>()[start..end].store_be::<u8>(value)
}

/// The byte that holds the two lowest bits of each of four words, the first
/// word in its two highest bits.
pub open spec fn pack_words(w0: u8, w1: u8, w2: u8, w3: u8) -> u8 {
    ((w0 & 3) << 6) | ((w1 & 3) << 4) | ((w2 & 3) << 2) | (w3 & 3)
}

/// A field of `end - start` bits holds a number that fits into as many bits.
pub proof fn lemma_field_bound(byte: u8, start: nat, end: nat)
    requires
        start < end <= 8,
    ensures
        field(byte, start, end) <= low_mask((end - start) as nat),
        low_mask(1) == 1,
        low_mask(2) == 3,
{
    let shifted = byte >> ((8 - end) as u8);
    let mask = low_mask((end - start) as nat);
    assert(shifted & mask <= mask) by (bit_vector);
    assert(0xffu8 >> 7u8 == 1u8) by (bit_vector);
    assert(0xffu8 >> 6u8 == 3u8) by (bit_vector);
}

/// Writing word `i` of a packed byte replaces that word and no other.
pub proof fn lemma_store_word(w0: u8, w1: u8, w2: u8, w3: u8, i: nat, value: u8)
    requires
        i < 4,
    ensures
        with_field(pack_words(w0, w1, w2, w3), 2 * i, 2 * i + 2, value) == pack_words(
            if i == 0 { value } else { w0 },
            if i == 1 { value } else { w1 },
            if i == 2 { value } else { w2 },
            if i == 3 { value } else { w3 },
        ),
{
    if i == 0 {
        assert(with_field(pack_words(w0, w1, w2, w3), 0, 2, value) == pack_words(value, w1, w2, w3))
            by (bit_vector);
    } else if i == 1 {
        assert(with_field(pack_words(w0, w1, w2, w3), 2, 4, value) == pack_words(w0, value, w2, w3))
            by (bit_vector);
    } else if i == 2 {
        assert(with_field(pack_words(w0, w1, w2, w3), 4, 6, value) == pack_words(w0, w1, value, w3))
            by (bit_vector);
    } else {
        assert(with_field(pack_words(w0, w1, w2, w3), 6, 8, value) == pack_words(w0, w1, w2, value))
            by (bit_vector);
    }
}

/// Word `i` of a packed byte is the two lowest bits of the word that went
/// into it.
pub proof fn lemma_load_word(w0: u8, w1: u8, w2: u8, w3: u8, i: nat)
    requires
        i < 4,
    ensures
        field(pack_words(w0, w1, w2, w3), 2 * i, 2 * i + 2) == (if i == 0 {
            w0
        } else if i == 1 {
            w1
        } else if i == 2 {
            w2
        } else {
            w3
        }) & 3,
{
    if i == 0 {
        assert(field(pack_words(w0, w1, w2, w3), 0, 2) == w0 & 3) by (bit_vector);
    } else if i == 1 {
        assert(field(pack_words(w0, w1, w2, w3), 2, 4) == w1 & 3) by (bit_vector);
    } else if i == 2 {
        assert(field(pack_words(w0, w1, w2, w3), 4, 6) == w2 & 3) by (bit_vector);
    } else {
        assert(field(pack_words(w0, w1, w2, w3), 6, 8) == w3 & 3) by (bit_vector);
    }
}

/// The two lowest bits of a number below 4 are the number.
pub proof fn lemma_low_bits(w: u8)
    requires
        w < 4,
    ensures
        w & 3 == w,
{
    assert(w < 4 ==> (w & 3) == w) by (bit_vector);
}

/// Packing the four words of a byte gives the byte back.
pub proof fn lemma_pack_fields(byte: u8)
    ensures
        pack_words(field(byte, 0, 2), field(byte, 2, 4), field(byte, 4, 6), field(byte, 6, 8))
            == byte,
{
    assert(pack_words(field(byte, 0, 2), field(byte, 2, 4), field(byte, 4, 6), field(byte, 6, 8))
        == byte) by (bit_vector);
}

} // verus!
