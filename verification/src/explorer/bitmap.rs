//! RGBA8 to a Windows bitmap Explorer will accept.

use vstd::prelude::*;

verus! {

/// The header that describes a device-independent bitmap.
#[derive(Debug, Clone, Copy, PartialEq, Eq, Structural)]
pub struct BitmapInfo {
    /// Bytes in the header itself.
    pub size: u32,
    pub width: i32,
    /// Negative for an image stored from its top row down.
    pub height: i32,
    pub planes: u16,
    pub bit_count: u16,
    /// Zero for uncompressed pixels.
    pub compression: u32,
}

/// Bytes in a bitmap header.
pub const HEADER_SIZE: u32 = 40;

/// A 32-bit number read as a signed one.
pub open spec fn as_signed(v: u32) -> int {
    if v > i32::MAX {
        v - 0x1_0000_0000
    } else {
        v as int
    }
}

fn to_signed(v: u32) -> (r: i32)
    ensures
        r as int == as_signed(v),
{
    if v > i32::MAX as u32 {
        (v as i64 - 0x1_0000_0000) as i32
    } else {
        v as i32
    }
}

/// A header describing a 32-bit top-down image of this size.
///
/// The negative height is what makes it top-down. A positive one would flip
/// every image vertically, which is the classic first bug with such bitmaps.
pub fn top_down_info(width: u32, height: u32) -> (r: BitmapInfo)
    requires
        height != 0x8000_0000,
    ensures
        r.size == HEADER_SIZE,
        r.width as int == as_signed(width),
        r.height as int == -as_signed(height),
        r.planes == 1,
        r.bit_count == 32,
        r.compression == 0,
{
    BitmapInfo {
        size: HEADER_SIZE,
        width: to_signed(width),
        height: -to_signed(height),
        planes: 1,
        bit_count: 32,
        compression: 0,
    }
}

/// Byte `i` of the swizzled image: red and blue change places in every whole
/// pixel, and bytes after the last whole pixel are zero.
pub open spec fn swizzled_byte(rgba: Seq<u8>, i: int) -> u8 {
    if i >= rgba.len() / 4 * 4 {
        0
    } else if i % 4 == 0 {
        rgba[i + 2]
    } else if i % 4 == 2 {
        rgba[i - 2]
    } else {
        rgba[i]
    }
}

/// An image with red and blue changed places.
pub open spec fn swizzled(rgba: Seq<u8>) -> Seq<u8> {
    Seq::new(rgba.len(), |i: int| swizzled_byte(rgba, i))
}

/// Swizzle RGBA into the BGRA that an uncompressed 32-bit bitmap actually
/// holds.
///
/// Getting this wrong does not fail, it swaps red and blue in every image,
/// which on a plot reads as a subtly wrong palette rather than as breakage.
pub fn to_bgra(rgba: &[u8]) -> (out: Vec<u8>)
    ensures
        out@ == swizzled(rgba@),
{
    let mut out: Vec<u8> = Vec::new();
    let whole: usize = rgba.len() / 4 * 4;
    let mut i: usize = 0;
    while i < whole
        invariant
            whole == rgba@.len() / 4 * 4,
            whole % 4 == 0,
            i % 4 == 0,
            i <= whole <= rgba@.len(),
            out@.len() == i,
            forall|j: int| 0 <= j < i ==> #[trigger] out@[j] == swizzled_byte(rgba@, j),
        decreases whole - i,
    {
        out.push(rgba[i + 2]);
        out.push(rgba[i + 1]);
        out.push(rgba[i]);
        out.push(rgba[i + 3]);
        i = i + 4;
    }
    while i < rgba.len()
        invariant
            whole == rgba@.len() / 4 * 4,
            whole <= i <= rgba@.len(),
            out@.len() == i,
            forall|j: int| 0 <= j < i ==> #[trigger] out@[j] == swizzled_byte(rgba@, j),
        decreases rgba@.len() - i,
    {
        out.push(0);
        i = i + 1;
    }
    assert(out@ =~= swizzled(rgba@));
    out
}

/// Swizzling an image of whole pixels twice gives the image back.
pub proof fn lemma_swizzling_twice_is_the_identity(rgba: Seq<u8>)
    requires
        rgba.len() % 4 == 0,
    ensures
        swizzled(swizzled(rgba)) == rgba,
{
    assert(swizzled(swizzled(rgba)) =~= rgba);
}

/// Every whole pixel keeps its place, its green and its alpha, and its red and
/// blue change places: a bitmap holds blue first.
pub proof fn lemma_pixels_hold_blue_first(rgba: Seq<u8>, p: int)
    requires
        0 <= p,
        4 * p + 4 <= rgba.len(),
    ensures
        swizzled(rgba).len() == rgba.len(),
        swizzled(rgba)[4 * p] == rgba[4 * p + 2],
        swizzled(rgba)[4 * p + 1] == rgba[4 * p + 1],
        swizzled(rgba)[4 * p + 2] == rgba[4 * p],
        swizzled(rgba)[4 * p + 3] == rgba[4 * p + 3],
{
    assert(4 * p + 3 < rgba.len() / 4 * 4);
    assert((4 * p) % 4 == 0 && (4 * p + 1) % 4 == 1 && (4 * p + 2) % 4 == 2 && (4 * p + 3) % 4
        == 3);
}

} // verus!
