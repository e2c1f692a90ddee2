//! Pixel data of the fallback texture bound to every texture slot that holds
//! no texture: a black and magenta checkerboard whose cells are single
//! texels, in RGBA byte order.
use vstd::prelude::*;

verus! {

/// Width and height, in texels, of the fallback texture.
pub const FALLBACK_TEXTURE_RESOLUTION: usize = 64;

/// Bytes per texel (four 8-bit channels).
pub const TEXEL_BYTES: usize = 4;

/// The RGBA bytes of texel `(x, y)`: opaque black `[0, 0, 0, 255]` when
/// `x + y` is even, opaque magenta `[255, 0, 255, 255]` when it is odd (the
/// colours `0xff000000` and `0xffff00ff`, least significant byte first).
pub open spec fn checker_texel(x: int, y: int) -> Seq<u8> {
    if (x + y) % 2 == 0 {
        seq![0x00u8, 0x00u8, 0x00u8, 0xffu8]
    } else {
        seq![0xffu8, 0x00u8, 0xffu8, 0xffu8]
    }
}

/// Byte `i` of the fallback texture: texels row after row, `x` running
/// fastest within a row. (The pattern is the same if the rows and columns
/// are swapped, as `x + y` is.)
pub open spec fn fallback_byte(i: int) -> u8 {
    let p = i / 4;
    checker_texel(p % 64, p / 64)[i % 4]
}

/// The pixel data of the fallback texture: 64 by 64 RGBA texels, black and
/// magenta in a checkerboard.
pub fn fallback_texture_data() -> (data: Vec<u8>)
    ensures
        data.len() == FALLBACK_TEXTURE_RESOLUTION * FALLBACK_TEXTURE_RESOLUTION * TEXEL_BYTES,
        forall|i: int| 0 <= i < data.len() ==> #[trigger] data@[i] == fallback_byte(i),
{
    let mut data: Vec<u8> = Vec::new();
    let mut p: usize = 0;
    while p < FALLBACK_TEXTURE_RESOLUTION * FALLBACK_TEXTURE_RESOLUTION
        invariant
            p <= 4096,
            data.len() == 4 * p,
            forall|i: int| 0 <= i < data.len() ==> #[trigger] data@[i] == fallback_byte(i),
        decreases 4096 - p,
    {
        let x = p % 64;
        let y = p / 64;
        let even = (x + y) % 2 == 0;
        let bytes: [u8; 4] = if even {
            [0x00, 0x00, 0x00, 0xff]
        } else {
            [0xff, 0x00, 0xff, 0xff]
        };
        let ghost start = data@;
        let mut k: usize = 0;
        while k < 4
            invariant
                k <= 4,
                p < 4096,
                x == p % 64,
                y == p / 64,
                even == ((x + y) % 2 == 0),
                bytes@ == checker_texel(x as int, y as int),
                data@ == start + bytes@.take(k as int),
                start.len() == 4 * p,
                forall|i: int| 0 <= i < start.len() ==> #[trigger] start[i] == fallback_byte(i),
            decreases 4 - k,
        {
            data.push(bytes[k]);
            assert(data@ =~= start + bytes@.take(k + 1));
            k = k + 1;
        }
        assert forall|i: int| 0 <= i < data.len() implies #[trigger] data@[i] == fallback_byte(i) by {
            if i >= start.len() {
                let k2 = i - 4 * p;
                assert(0 <= k2 < 4);
                assert(i / 4 == p as int) by (nonlinear_arith)
                    requires
                        i == 4 * p + k2,
                        0 <= k2 < 4,
                ;
                assert(i % 4 == k2) by (nonlinear_arith)
                    requires
                        i == 4 * p + k2,
                        0 <= k2 < 4,
                ;
                assert(data@[i] == bytes@[k2]);
            } else {
                assert(data@[i] == start[i]);
            }
        }
        p = p + 1;
    }
    data
}

} // verus!
