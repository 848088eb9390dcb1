//! Packing of 8-bit colour channels into `0xAARRGGBB` words.
use vstd::prelude::*;
use vstd::arithmetic::power2::{pow2, lemma2_to64};

verus! {

/// The packed value of the four channels, as a number:
/// alpha in the highest byte, then red, green and blue.
pub open spec fn argb_value(r: u8, g: u8, b: u8, a: u8) -> int {
    a * 0x1000000 + r * 0x10000 + g * 0x100 + b
}

/// Packs four 8-bit channels into one word laid out as `0xAARRGGBB`.
pub fn argb_pack_u8s(r: u8, g: u8, b: u8, a: u8) -> (v: u32)
    ensures
        v == argb_value(r, g, b, a),
{
    let (r32, g32, b32, a32) = (r as u32, g as u32, b as u32, a as u32);
    let v = a32 << 24 | r32 << 16 | g32 << 8 | b32;
    assert(v == a32 * 0x1000000 + r32 * 0x10000 + g32 * 0x100 + b32) by (bit_vector)
        requires
            v == a32 << 24 | r32 << 16 | g32 << 8 | b32,
            r32 < 256, g32 < 256, b32 < 256, a32 < 256,
    ;
    v
}

/// The channel stored in bits `shift .. shift + 8` of `v`.
pub open spec fn channel(v: u32, shift: nat) -> u8 {
    ((v as int / pow2(shift) as int) % 256) as u8
}

/// Splits a `0xAARRGGBB` word into its red, green, blue and alpha channels.
pub fn argb_unpack_u8s(v: u32) -> (rgba: (u8, u8, u8, u8))
    ensures
        rgba == (channel(v, 16), channel(v, 8), channel(v, 0), channel(v, 24)),
{
    let a = ((v >> 24) & 0xff) as u8;
    let r = ((v >> 16) & 0xff) as u8;
    let g = ((v >> 8) & 0xff) as u8;
    let b = (v & 0xff) as u8;
    proof {
        lemma2_to64();
    }
    assert(((v >> 24) & 0xff) == (v / 0x1000000) % 256) by (bit_vector);
    assert(((v >> 16) & 0xff) == (v / 0x10000) % 256) by (bit_vector);
    assert(((v >> 8) & 0xff) == (v / 0x100) % 256) by (bit_vector);
    assert((v & 0xff) == v % 256) by (bit_vector);
    (r, g, b, a)
}

/// Unpacking a packed colour gives back its channels.
pub proof fn lemma_unpack_pack(r: u8, g: u8, b: u8, a: u8)
    ensures
        ({
            let v = argb_value(r, g, b, a) as u32;
            (channel(v, 16), channel(v, 8), channel(v, 0), channel(v, 24)) == (r, g, b, a)
        }),
{
    lemma2_to64();
    let v = argb_value(r, g, b, a);
    assert(0 <= v < 0x1_0000_0000);
    assert(v / 0x1000000 == a as int);
    assert(v / 0x10000 == a as int * 256 + r as int);
    assert(v / 0x100 == (a as int * 256 + r as int) * 256 + g as int);
}

/// Packing the channels of a colour gives back the colour.
pub proof fn lemma_pack_unpack(v: u32)
    ensures
        argb_value(channel(v, 16), channel(v, 8), channel(v, 0), channel(v, 24)) == v,
{
    lemma2_to64();
    let x = v as int;
    let a = x / 0x1000000;
    let r = (x / 0x10000) % 256;
    let g = (x / 0x100) % 256;
    let b = x % 256;
    assert(a < 256);
    assert(a * 0x1000000 + r * 0x10000 + g * 0x100 + b == x);
}

} // verus!
