//! UUIDs: sixteen random bytes with the marks of version 4, written in
//! hexadecimal.

use crate::color::{hex_byte, push_hex};
use crate::rng::draw_bytes;
use vstd::prelude::*;

verus! {

/// The first `k` bytes of a UUID as they are written: two digits for each
/// byte, and a hyphen behind the fourth, sixth, eighth and tenth byte.
pub open spec fn uuid_prefix(bytes: Seq<u8>, k: nat) -> Seq<char>
    decreases k,
{
    if k == 0 || k > bytes.len() {
        Seq::empty()
    } else {
        uuid_prefix(bytes, (k - 1) as nat) + hex_byte(bytes[k - 1], false) + if k == 4 || k == 6
            || k == 8 || k == 10 {
            seq!['-']
        } else {
            Seq::empty()
        }
    }
}

/// A UUID as it is written: 32 hexadecimal digits in groups of 8, 4, 4, 4
/// and 12.
pub open spec fn uuid_text(bytes: Seq<u8>) -> Seq<char> {
    uuid_prefix(bytes, 16)
}

/// The bytes carry the marks of a random UUID: version 4 in the high half
/// of byte 6, variant 1 in the two high bits of byte 8.
pub open spec fn is_uuid_v4(bytes: Seq<u8>) -> bool {
    bytes.len() == 16 && bytes[6] / 16 == 4 && bytes[8] / 64 == 2
}

/// Sixteen bytes with the marks of a random UUID set, and nothing else changed.
pub open spec fn marked(bytes: Seq<u8>) -> Seq<u8> {
    bytes.update(6, (bytes[6] % 16 + 64) as u8).update(8, (bytes[8] % 64 + 128) as u8)
}

/// Sets the marks of a random UUID in sixteen bytes.
pub fn mark_uuid(bytes: [u8; 16]) -> (r: [u8; 16])
    ensures
        r@ == marked(bytes@),
        is_uuid_v4(r@),
{
    let mut r = bytes;
    let six = bytes[6];
    let eight = bytes[8];
    let new_six = (six & 0x0f) | 0x40;
    let new_eight = (eight & 0x3f) | 0x80;
    assert(new_six == (six % 16 + 64) as u8 && new_six / 16 == 4) by (bit_vector)
        requires
            new_six == (six & 0x0f) | 0x40,
    ;
    assert(new_eight == (eight % 64 + 128) as u8 && new_eight / 64 == 2) by (bit_vector)
        requires
            new_eight == (eight & 0x3f) | 0x80,
    ;
    r[6] = new_six;
    r[8] = new_eight;
    r
}

/// A random UUID: one draw of sixteen bytes, and the marks set.
pub fn gen_uuid(rng: &mut rand_pcg::Pcg64) -> (r: [u8; 16])
    ensures
        is_uuid_v4(r@),
{
    mark_uuid(draw_bytes(rng))
}

/// Appends a UUID as it is written.
pub fn push_uuid(out: &mut Vec<char>, uuid: &[u8; 16])
    ensures
        final(out)@ == old(out)@ + uuid_text(uuid@),
{
    let ghost before = out@;
    let mut k: usize = 0;
    while k < 16
        invariant
            k <= 16,
            out@ == before + uuid_prefix(uuid@, k as nat),
        decreases 16 - k,
    {
        push_hex(out, uuid[k], false);
        k += 1;
        if k == 4 || k == 6 || k == 8 || k == 10 {
            out.push('-');
        }
    }
}

/// A UUID as it is written.
pub fn format_uuid(uuid: &[u8; 16]) -> (s: String)
    ensures
        s@ == uuid_text(uuid@),
{
    let mut out: Vec<char> = Vec::new();
    push_uuid(&mut out, uuid);
    crate::text::string_of(&out)
}

} // verus!
