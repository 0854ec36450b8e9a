//! CRC-32/ISO-HDLC, the checksum of PNG chunks.
use crc::{Crc, CRC_32_ISO_HDLC};
use vstd::prelude::*;

verus! {

/// One bit through the shift register, least significant bit first. The
/// constant is the generator polynomial `0x04C11DB7` with its bits reversed.
pub open spec fn shift(v: u32) -> u32 {
    if v & 1 == 1 {
        (v >> 1) ^ 0xEDB8_8320
    } else {
        v >> 1
    }
}

/// Entry `i` of the byte-wise lookup table: `i` shifted eight times.
pub open spec fn table_entry(i: u32) -> u32 {
    shift(shift(shift(shift(shift(shift(shift(shift(i))))))))
}

/// The register after one more byte of the message.
pub open spec fn feed(register: u32, byte: u8) -> u32 {
    table_entry((register ^ (byte as u32)) & 0xFF) ^ (register >> 8)
}

/// The register after a whole message, from the initial value `0xFFFFFFFF`.
pub open spec fn register_after(bytes: Seq<u8>) -> u32
    decreases bytes.len(),
{
    if bytes.len() == 0 {
        0xFFFF_FFFF
    } else {
        feed(register_after(bytes.drop_last()), bytes.last())
    }
}

/// The CRC-32/ISO-HDLC checksum of a message: the final register, inverted.
pub open spec fn crc32(bytes: Seq<u8>) -> u32 {
    register_after(bytes) ^ 0xFFFF_FFFF
}

/// Calls `Crc::<u32>::new` on the catalogue entry `CRC_32_ISO_HDLC` and
/// `checksum`, both of the `crc` crate. Not proved: that the call returns
/// `crc32` of the bytes. The entry fixes width 32, polynomial `0x04C11DB7`,
/// initial value and final XOR `0xFFFFFFFF`, input and output reflected. The
/// crate keeps a table of 256 entries, entry `i` being `i` put eight times
/// through `(v >> 1) ^ ((v & 1) * poly)` with the polynomial's bits reversed;
/// it starts from the initial value, replaces the register for each byte by
/// `table[(register ^ byte) & 0xFF] ^ (register >> 8)`, and applies the final
/// XOR. `shift`, `table_entry`, `feed` and `crc32` say the same.
#[verifier::external_body]
pub(crate) fn checksum(bytes: &[u8]) -> (r: u32)
    ensures
        r == crc32(bytes@),
{
    Crc::<u32>::new(&CRC_32_ISO_HDLC).checksum(bytes)
}

/// Two registers that agree after the same byte agreed before it.
pub proof fn lemma_feed_keeps_registers_apart(a: u32, b: u32, byte: u8)
    requires
        a != b,
    ensures
        feed(a, byte) != feed(b, byte),
{
    assert(a != b ==> feed(a, byte) != feed(b, byte)) by (bit_vector);
}

/// Two different bytes lead one register to two different registers.
pub proof fn lemma_feed_tells_bytes_apart(register: u32, x: u8, y: u8)
    requires
        x != y,
    ensures
        feed(register, x) != feed(register, y),
{
    assert(x != y ==> feed(register, x) != feed(register, y)) by (bit_vector);
}

/// Feeding one more byte extends the message by that byte.
pub proof fn lemma_register_after_push(bytes: Seq<u8>, byte: u8)
    ensures
        register_after(bytes.push(byte)) == feed(register_after(bytes), byte),
{
    assert(bytes.push(byte).drop_last() =~= bytes);
}

/// Two messages of one length that differ in exactly one byte leave
/// different registers.
proof fn lemma_registers_differ(s: Seq<u8>, t: Seq<u8>, i: int)
    requires
        s.len() == t.len(),
        0 <= i < s.len(),
        s[i] != t[i],
        forall|j: int| 0 <= j < s.len() && j != i ==> s[j] == t[j],
    ensures
        register_after(s) != register_after(t),
    decreases s.len(),
{
    if i == s.len() - 1 {
        assert(s.drop_last() =~= t.drop_last());
        lemma_feed_tells_bytes_apart(register_after(s.drop_last()), s.last(), t.last());
    } else {
        lemma_registers_differ(s.drop_last(), t.drop_last(), i);
        lemma_feed_keeps_registers_apart(
            register_after(s.drop_last()),
            register_after(t.drop_last()),
            s.last(),
        );
    }
}

/// The checksum detects every change that is confined to one byte: two
/// messages of one length that differ in exactly one byte have different
/// checksums.
pub proof fn lemma_crc32_detects_one_changed_byte(s: Seq<u8>, t: Seq<u8>, i: int)
    requires
        s.len() == t.len(),
        0 <= i < s.len(),
        s[i] != t[i],
        forall|j: int| 0 <= j < s.len() && j != i ==> s[j] == t[j],
    ensures
        crc32(s) != crc32(t),
{
    lemma_registers_differ(s, t, i);
    let a = register_after(s);
    let b = register_after(t);
    assert(a != b ==> a ^ 0xFFFF_FFFF != b ^ 0xFFFF_FFFF) by (bit_vector);
}

/// The definition reproduces the check value that the CRC catalogue records
/// for CRC-32/ISO-HDLC: the checksum of the ASCII digits `123456789` is
/// `0xCBF43926`.
pub proof fn lemma_crc32_check_value()
    ensures
        crc32(seq![49u8, 50, 51, 52, 53, 54, 55, 56, 57]) == 0xCBF4_3926,
{
    let s0 = Seq::<u8>::empty();
    let s1 = s0.push(49);
    let s2 = s1.push(50);
    let s3 = s2.push(51);
    let s4 = s3.push(52);
    let s5 = s4.push(53);
    let s6 = s5.push(54);
    let s7 = s6.push(55);
    let s8 = s7.push(56);
    let s9 = s8.push(57);
    lemma_register_after_push(s0, 49);
    lemma_register_after_push(s1, 50);
    lemma_register_after_push(s2, 51);
    lemma_register_after_push(s3, 52);
    lemma_register_after_push(s4, 53);
    lemma_register_after_push(s5, 54);
    lemma_register_after_push(s6, 55);
    lemma_register_after_push(s7, 56);
    lemma_register_after_push(s8, 57);
    assert(feed(0xFFFF_FFFF, 49) == 0x7C23_1048) by (bit_vector);
    assert(feed(0x7C23_1048, 50) == 0xB0AC_BB32) by (bit_vector);
    assert(feed(0xB0AC_BB32, 51) == 0x77B7_9C2D) by (bit_vector);
    assert(feed(0x77B7_9C2D, 52) == 0x641C_1F5C) by (bit_vector);
    assert(feed(0x641C_1F5C, 53) == 0x340A_C5E3) by (bit_vector);
    assert(feed(0x340A_C5E3, 54) == 0xF68D_2C9E) by (bit_vector);
    assert(feed(0xF68D_2C9E, 55) == 0xAFFC_9660) by (bit_vector);
    assert(feed(0xAFFC_9660, 56) == 0x651F_2550) by (bit_vector);
    assert(feed(0x651F_2550, 57) == 0x340B_C6D9) by (bit_vector);
    assert(0x340B_C6D9u32 ^ 0xFFFF_FFFF == 0xCBF4_3926) by (bit_vector);
    assert(s9 =~= seq![49u8, 50, 51, 52, 53, 54, 55, 56, 57]);
}

} // verus!
