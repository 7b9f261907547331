//! Data prepared on the CPU for the GPU: the fallback block texture and mesh fingerprints.
use vstd::prelude::*;

use std::collections::hash_map::DefaultHasher;
use std::hash::Hasher;
use vstd::std_specs::hash::DefaultHasherAdditionalSpecFns;

verus! {

/// Channel `channel` of a checkerboard pixel at column `x`, row `y`: light and dark squares of
/// `tile` pixels, the top-left square light; fully opaque.
pub open spec fn checker_channel(x: int, y: int, tile: int, channel: int) -> u8 {
    if channel == 3 {
        255
    } else if ((x / tile) + (y / tile)) % 2 == 0 {
        245
    } else {
        30
    }
}

/// Where channel `channel` of pixel `p` lies in an RGBA buffer.
pub open spec fn rgba_index(p: int, channel: int) -> int {
    4 * p + channel
}

/// An RGBA checkerboard of `width` x `height` pixels, row after row, with squares of
/// `tile_size` pixels (a size of zero counts as one). Pixel `p` is column `p % width` of row
/// `p / width`.
pub fn checkerboard_rgba(width: u32, height: u32, tile_size: u32) -> (data: Vec<u8>)
    requires
        width * height * 4 <= u32::MAX,
    ensures
        data@.len() == 4 * width * height,
        forall|p: int, c: int|
            0 <= p < width * height && 0 <= c < 4 ==> #[trigger] data@[rgba_index(p, c)] == checker_channel(
                p % (width as int),
                p / (width as int),
                if tile_size < 1 { 1 } else { tile_size as int },
                c,
            ),
{
    let tile: u32 = if tile_size < 1 { 1 } else { tile_size };
    let pixels: u32 = width * height;
    let mut data: Vec<u8> = Vec::new();
    let mut p: u32 = 0;
    while p < pixels
        invariant
            pixels == width * height,
            width * height * 4 <= u32::MAX,
            tile as int == if tile_size < 1 { 1 } else { tile_size as int },
            p <= pixels,
            data@.len() == 4 * p,
            forall|q: int, c: int|
                0 <= q < p && 0 <= c < 4 ==> #[trigger] data@[rgba_index(q, c)] == checker_channel(
                    q % (width as int),
                    q / (width as int),
                    tile as int,
                    c,
                ),
        decreases pixels - p,
    {
        assert(width > 0) by (nonlinear_arith)
            requires
                p < width * height,
                p >= 0,
        ;
        let x = p % width;
        let y = p / width;
        let light = ((x / tile) as u64 + (y / tile) as u64) % 2 == 0;
        let shade: u8 = if light { 245 } else { 30 };
        let ghost before = data@;
        data.push(shade);
        data.push(shade);
        data.push(shade);
        data.push(255);
        proof {
            assert forall|q: int, c: int|
                0 <= q < p + 1 && 0 <= c < 4 implies #[trigger] data@[rgba_index(q, c)] == checker_channel(
                q % (width as int),
                q / (width as int),
                tile as int,
                c,
            ) by {
                if q < p {
                    assert(data@[rgba_index(q, c)] == before[rgba_index(q, c)]);
                }
            }
        }
        p = p + 1;
    }
    assert(4 * width * height == 4 * (width * height)) by (nonlinear_arith);
    data
}

/// A fingerprint of a mesh's vertex and index bytes: the standard hasher's result after
/// writing the two byte strings in turn.
pub fn hash_mesh_bytes(vertex_bytes: &[u8], index_bytes: &[u8]) -> (h: u64)
    ensures
        h == DefaultHasher::spec_finish(seq![vertex_bytes@, index_bytes@]),
{
    let mut hasher = DefaultHasher::new();
    hasher.write(vertex_bytes);
    hasher.write(index_bytes);
    proof {
        assert(hasher@ =~= seq![vertex_bytes@, index_bytes@]);
    }
    hasher.finish()
}

} // verus!
