//! Solid-colour frames in the packed 32-bit ARGB format.
use vstd::prelude::*;

verus! {

/// Opaque black: alpha 0xFF, red, green and blue 0.
pub const BLACK: u32 = 0xFF00_0000;

/// Bytes of one pixel in the packed 32-bit format.
pub const BYTES_PER_PIXEL: u32 = 4;

/// Capacity of the shared-memory pool: two frames of 1920 by 1080 pixels.
pub const POOL_BYTES: usize = 1920 * 1080 * 4 * 2;

/// The byte at offset `k` of a frame filled with `BLACK`, each pixel written
/// little-endian (blue, green, red, alpha).
pub open spec fn black_byte(k: int) -> u8 {
    if k % 4 == 3 {
        0xFFu8
    } else {
        0u8
    }
}

/// Every pixel of `bytes` is `BLACK`.
pub open spec fn is_black_frame(bytes: Seq<u8>) -> bool {
    &&& bytes.len() % 4 == 0
    &&& forall|k: int| 0 <= k < bytes.len() ==> #[trigger] bytes[k] == black_byte(k)
}

/// The parameters of a buffer of `width` by `height` pixels.
#[derive(Clone, Copy, Debug, PartialEq, Eq)]
pub struct BufferLayout {
    pub width: i32,
    pub height: i32,
    /// Bytes from the start of one row to the start of the next.
    pub stride: i32,
    /// Bytes of the whole buffer.
    pub len: usize,
}

/// A buffer of this size can be described with 32-bit signed extents.
pub open spec fn layout_fits(width: u32, height: u32) -> bool {
    &&& 0 < width
    &&& 0 < height
    &&& width * 4 <= i32::MAX
    &&& height <= i32::MAX
    &&& width * height * 4 <= usize::MAX
}

/// The layout of an exactly sized buffer, one row after another with no
/// padding. `None` when a dimension is zero or the sizes do not fit.
pub fn buffer_layout(width: u32, height: u32) -> (r: Option<BufferLayout>)
    ensures
        r is Some <==> layout_fits(width, height),
        r matches Some(l) ==> {
            &&& l.width == width
            &&& l.height == height
            &&& l.stride == width * 4
            &&& l.len == width * height * 4
        },
{
    if width == 0 || height == 0 || width > (i32::MAX as u32) / 4 || height > i32::MAX as u32 {
        assert(!layout_fits(width, height));
        return None;
    }
    let stride: u64 = width as u64 * 4;
    assert(stride * height <= 0x7fff_ffff * 0x7fff_ffff) by (nonlinear_arith)
        requires
            stride <= 0x7fff_ffff,
            height <= 0x7fff_ffff,
    ;
    let total: u64 = stride * height as u64;
    assert(total == width * height * 4) by (nonlinear_arith)
        requires
            total == stride * height,
            stride == width * 4,
    ;
    if total > usize::MAX as u64 {
        return None;
    }
    Some(BufferLayout {
        width: width as i32,
        height: height as i32,
        stride: stride as i32,
        len: total as usize,
    })
}

/// Fills `canvas` with `BLACK`, every pixel of it: the whole frame is repainted.
pub fn fill_black(canvas: &mut [u8])
    requires
        old(canvas)@.len() % 4 == 0,
    ensures
        final(canvas)@.len() == old(canvas)@.len(),
        is_black_frame(final(canvas)@),
{
    let n = canvas.len();
    let mut k: usize = 0;
    while k < n
        invariant
            n == canvas@.len(),
            n % 4 == 0,
            k <= n,
            forall|j: int| 0 <= j < k ==> #[trigger] canvas@[j] == black_byte(j),
        decreases n - k,
    {
        canvas[k] = if k % 4 == 3 {
            0xFFu8
        } else {
            0u8
        };
        k = k + 1;
    }
}

} // verus!
