use vstd::prelude::*;

use crate::anim::indexed_pixels;
use crate::anm::{palette_of, read_palette};
use crate::palette::{lookup, palette_color};
use crate::util::io::{read_u16_le, read_u32_le, u16_le, u32_le};
use crate::util::{container_output, copy_range, decompress, Color};

verus! {

/// Bytes of the header that opens a linear image.
pub const LINEAR_HEADER_LEN: usize = 32;

/// Bytes of the header that opens a tiled image.
pub const TILED_HEADER_LEN: usize = 16;

/// Side of a square tile, in pixels.
pub const TILE_SIDE: usize = 8;

/// Pixels in a tile.
pub const TILE_PIXELS: usize = TILE_SIDE * TILE_SIDE;

/// A decoded still image: RGBA bytes in raster order.
pub struct Image {
    pub width: u16,
    pub height: u16,
    pub pixels: Vec<u8>,
}

/// The bytes that an image file holds once its container, if any, is undone.
pub open spec fn plain_bytes(file: Seq<u8>) -> Seq<u8> {
    match container_output(file) {
        Ok(v) => v,
        Err(_) => file,
    }
}

/// `n` zero bytes.
pub open spec fn zeros(n: nat) -> Seq<u8> {
    Seq::new(n, |i: int| 0u8)
}

/// The RGBA bytes of a linear image in `d`, or `None`: a header of sixteen zero
/// bytes, the size at 20 and 22, the palette size at 26 and offset at 28 (which
/// must be 32), the palette, then one palette index per pixel.
pub open spec fn linear_pixels(d: Seq<u8>) -> Option<Seq<u8>> {
    let width = u16_le(d, 20);
    let height = u16_le(d, 22);
    let count = u16_le(d, 26);
    let start = LINEAR_HEADER_LEN + 2 * count;
    if d.len() < LINEAR_HEADER_LEN || u16_le(d, 28) != LINEAR_HEADER_LEN || count == 0 {
        None
    } else if d.len() < start + width * height {
        None
    } else {
        Some(
            indexed_pixels(
                d.subrange(start, start + width * height),
                palette_of(d.subrange(LINEAR_HEADER_LEN as int, d.len() as int), count as nat),
            ),
        )
    }
}

/// The palette indices of a 16-color image: the low nibble of each byte, then
/// its high nibble.
pub open spec fn nibbles(bytes: Seq<u8>) -> Seq<u8> {
    Seq::new(
        2 * bytes.len(),
        |k: int|
            if k % 2 == 0 {
                (bytes[k / 2] % 16) as u8
            } else {
                (bytes[k / 2] / 16) as u8
            },
    )
}

/// Byte offset in a `w`-wide raster of the pixel that index `q` of a tiled
/// image paints: tiles of 8 by 8 pixels fill the raster row by row.
pub open spec fn tile_offset(q: int, w: int) -> int {
    let tile = q / TILE_PIXELS as int;
    let inner = q % TILE_PIXELS as int;
    let per_row = w / TILE_SIDE as int;
    let x = (tile % per_row) * TILE_SIDE as int + inner % TILE_SIDE as int;
    let y = (tile / per_row) * TILE_SIDE as int + inner / TILE_SIDE as int;
    (y * w + x) * 4
}

/// A `w` by `h` raster of zero bytes after painting the first `n` indices.
pub open spec fn painted(indices: Seq<u8>, palette: Seq<Color>, w: int, h: int, n: nat) -> Seq<u8>
    decreases n,
{
    if n == 0 {
        zeros((w * h * 4) as nat)
    } else {
        let before = painted(indices, palette, w, h, (n - 1) as nat);
        let at = tile_offset(n - 1, w);
        let c = palette_color(palette, indices[n - 1] as int);
        before.update(at, c.r).update(at + 1, c.g).update(at + 2, c.b).update(at + 3, c.a)
    }
}

/// The palette indices of a tiled image in `d`, or `None` when its palette
/// size is neither 16 nor 256 or its data is short.
pub open spec fn tiled_indices(d: Seq<u8>) -> Option<Seq<u8>> {
    let count = u16_le(d, 2);
    let len = u32_le(d, 8);
    let start = TILED_HEADER_LEN + 2 * count;
    if d.len() < start + len {
        None
    } else if count == 16 {
        Some(nibbles(d.subrange(start, start + len)))
    } else if count == 256 {
        Some(d.subrange(start, start + len))
    } else {
        None
    }
}

/// The RGBA bytes of a tiled image in `d`, or `None`: palette size at 2, size
/// at 4 and 6 (multiples of 8), index byte count at 8, palette byte length at
/// 12, the palette, then the indices tile by tile. Only whole tiles are
/// painted, and they must fit in the raster.
pub open spec fn tiled_pixels(d: Seq<u8>) -> Option<Seq<u8>> {
    let count = u16_le(d, 2);
    let width = u16_le(d, 4);
    let height = u16_le(d, 6);
    if d.len() < TILED_HEADER_LEN || 2 * count != u16_le(d, 12) {
        None
    } else if width % 8 != 0 || height % 8 != 0 {
        None
    } else if width * height * 4 > usize::MAX {
        None
    } else {
        match tiled_indices(d) {
            None => None,
            Some(indices) => {
                let tiles = indices.len() as int / TILE_PIXELS as int;
                if tiles > (width / 8) * (height / 8) {
                    None
                } else {
                    Some(
                        painted(
                            indices,
                            palette_of(d.subrange(TILED_HEADER_LEN as int, d.len() as int), count as nat),
                            width,
                            height,
                            (tiles * TILE_PIXELS) as nat,
                        ),
                    )
                }
            },
        }
    }
}

/// `true` when the first sixteen bytes of `d` are zero.
pub open spec fn zero_header(d: Seq<u8>) -> bool {
    forall|k: int| 0 <= k < 16 ==> d[k] == 0
}

/// The image that the file `file` holds: its size and RGBA bytes.
pub open spec fn image_output(file: Seq<u8>) -> Option<(int, int, Seq<u8>)> {
    let d = plain_bytes(file);
    if d.len() < 16 {
        None
    } else if zero_header(d) {
        match linear_pixels(d) {
            Some(p) => Some((u16_le(d, 20), u16_le(d, 22), p)),
            None => None,
        }
    } else {
        match tiled_pixels(d) {
            Some(p) => Some((u16_le(d, 4), u16_le(d, 6), p)),
            None => None,
        }
    }
}

proof fn lemma_tile_offset(q: int, w: int, h: int, tiles: int)
    requires
        0 <= q < tiles * 64,
        tiles <= (w / 8) * (h / 8),
        w >= 0,
        h >= 0,
    ensures
        0 <= tile_offset(q, w),
        tile_offset(q, w) + 4 <= w * h * 4,
        w / 8 > 0,
{
    let tile = q / 64;
    let inner = q % 64;
    let pr = w / 8;
    let hr = h / 8;
    assert(0 <= tile < tiles) by (nonlinear_arith)
        requires 0 <= q < tiles * 64, tile == q / 64;
    assert(pr > 0 && hr > 0) by (nonlinear_arith)
        requires 0 <= tile < tiles, tiles <= pr * hr, w >= 0, h >= 0, pr == w / 8, hr == h / 8;
    let tx = tile % pr;
    let ty = tile / pr;
    assert(0 <= tx < pr && 0 <= ty < hr) by (nonlinear_arith)
        requires 0 <= tile < pr * hr, pr > 0, tx == tile % pr, ty == tile / pr;
    assert(0 <= inner < 64);
    let x = tx * 8 + inner % 8;
    let y = ty * 8 + inner / 8;
    assert(0 <= x < w) by (nonlinear_arith)
        requires 0 <= tx < pr, pr == w / 8, x == tx * 8 + inner % 8, 0 <= inner < 64, w >= 0;
    assert(0 <= y < h) by (nonlinear_arith)
        requires 0 <= ty < hr, hr == h / 8, y == ty * 8 + inner / 8, 0 <= inner < 64, h >= 0;
    assert(0 <= (y * w + x) * 4 && (y * w + x) * 4 + 4 <= w * h * 4) by (nonlinear_arith)
        requires 0 <= x < w, 0 <= y < h;
}

/// The byte offset that index `q` of a tiled image paints.
fn tile_offset_exec(q: usize, w: usize, h: usize, tiles: usize) -> (r: usize)
    requires
        q < tiles * 64,
        tiles <= (w / 8) * (h / 8),
        w * h * 4 <= usize::MAX,
    ensures
        r == tile_offset(q as int, w as int),
        r + 4 <= w * h * 4,
{
    proof {
        lemma_tile_offset(q as int, w as int, h as int, tiles as int);
    }
    let tile = q / TILE_PIXELS;
    let inner = q % TILE_PIXELS;
    let per_row = w / TILE_SIDE;
    let ghost x = (tile % per_row) * 8 + inner % 8;
    let ghost y = (tile / per_row) * 8 + inner / 8;
    assert(y * w + x <= w * h) by (nonlinear_arith)
        requires (y * w + x) * 4 + 4 <= w * h * 4;
    assert(y * w <= w * h) by (nonlinear_arith)
        requires y * w + x <= w * h, x >= 0;
    let col = (tile % per_row) * TILE_SIDE + inner % TILE_SIDE;
    let row = (tile / per_row) * TILE_SIDE + inner / TILE_SIDE;
    (row * w + col) * 4
}

/// Paints the first `n` indices onto a zeroed `w` by `h` raster.
fn paint(indices: &Vec<u8>, palette: &Vec<Color>, w: usize, h: usize, n: usize, tiles: usize) -> (r: Vec<u8>)
    requires
        palette@.len() > 0,
        n == tiles * 64,
        n <= indices@.len(),
        tiles <= (w / 8) * (h / 8),
        w * h * 4 <= usize::MAX,
    ensures
        r@ == painted(indices@, palette@, w as int, h as int, n as nat),
{
    let total = w * h * 4;
    let mut out: Vec<u8> = vec![0u8; total];
    assert(out@ =~= painted(indices@, palette@, w as int, h as int, 0));
    let mut q: usize = 0;
    while q < n
        invariant
            q <= n,
            n == tiles * 64,
            n <= indices@.len(),
            tiles <= (w / 8) * (h / 8),
            w * h * 4 <= usize::MAX,
            total == w * h * 4,
            palette@.len() > 0,
            out@.len() == total,
            out@ == painted(indices@, palette@, w as int, h as int, q as nat),
        decreases n - q,
    {
        let at = tile_offset_exec(q, w, h, tiles);
        let c = lookup(palette.as_slice(), indices[q] as usize);
        out.set(at, c.r);
        out.set(at + 1, c.g);
        out.set(at + 2, c.b);
        out.set(at + 3, c.a);
        q = q + 1;
    }
    out
}

/// Splits each of the `len` bytes of `d` from `start` on into its low and high
/// nibble.
fn read_nibbles(d: &[u8], start: usize, len: usize) -> (r: Vec<u8>)
    requires
        start + len <= d@.len(),
    ensures
        r@ == nibbles(d@.subrange(start as int, start + len)),
{
    let ghost bytes = d@.subrange(start as int, start + len);
    let mut r: Vec<u8> = Vec::new();
    let mut k: usize = 0;
    let d_len = d.len();
    while k < len
        invariant
            k <= len,
            start + len <= d@.len(),
            d@.len() == d_len,
            bytes == d@.subrange(start as int, start + len),
            r@ =~= nibbles(bytes.take(k as int)),
        decreases len - k,
    {
        let b = d[start + k];
        r.push(b % 16);
        r.push(b / 16);
        k = k + 1;
        assert(r@ =~= nibbles(bytes.take(k as int)));
    }
    assert(bytes.take(len as int) =~= bytes);
    r
}

/// Decodes the pixels of a linear image: see `linear_pixels`.
fn decode_linear(d: &[u8]) -> (r: Option<Vec<u8>>)
    ensures
        r is None <==> linear_pixels(d@) is None,
        r matches Some(v) ==> linear_pixels(d@) == Some(v@),
{
    let len = d.len();
    if len < LINEAR_HEADER_LEN {
        return None;
    }
    let width = read_u16_le(d, 20) as usize;
    let height = read_u16_le(d, 22) as usize;
    let count = read_u16_le(d, 26) as usize;
    if read_u16_le(d, 28) as usize != LINEAR_HEADER_LEN || count == 0 {
        return None;
    }
    let start = LINEAR_HEADER_LEN + 2 * count;
    assert(width * height <= 65535 * 65535) by (nonlinear_arith)
        requires width <= 65535, height <= 65535;
    let area = width as u64 * height as u64;
    if len < start || ((len - start) as u64) < area {
        return None;
    }
    let area = area as usize;
    let palette = read_palette(d, LINEAR_HEADER_LEN, count);
    let mut out: Vec<u8> = Vec::new();
    crate::anim::push_indexed(&mut out, d, start, area, palette.as_slice());
    assert(out@ =~= indexed_pixels(d@.subrange(start as int, start + area), palette@));
    Some(out)
}

/// Decodes the pixels of a tiled image: see `tiled_pixels`.
fn decode_tiled(d: &[u8]) -> (r: Option<Vec<u8>>)
    ensures
        r is None <==> tiled_pixels(d@) is None,
        r matches Some(v) ==> tiled_pixels(d@) == Some(v@),
{
    let len = d.len();
    if len < TILED_HEADER_LEN {
        return None;
    }
    let count = read_u16_le(d, 2) as usize;
    let width = read_u16_le(d, 4) as usize;
    let height = read_u16_le(d, 6) as usize;
    if 2 * count != read_u16_le(d, 12) as usize {
        return None;
    }
    if width % TILE_SIDE != 0 || height % TILE_SIDE != 0 {
        return None;
    }
    let total = match width.checked_mul(height) {
        Some(a) => a.checked_mul(4),
        None => None,
    };
    let total = match total {
        Some(t) => t,
        None => {
            assert(width * height * 4 > usize::MAX) by (nonlinear_arith)
                requires width * height > usize::MAX || width * height * 4 > usize::MAX;
            return None;
        },
    };
    let byte_len = read_u32_le(d, 8) as usize;
    let start = TILED_HEADER_LEN + 2 * count;
    if len < start || len - start < byte_len {
        return None;
    }
    let indices = if count == 16 {
        read_nibbles(d, start, byte_len)
    } else if count == 256 {
        copy_range(d, start, byte_len)
    } else {
        return None;
    };
    let tiles = indices.len() / TILE_PIXELS;
    assert((width / 8) * (height / 8) <= width * height) by (nonlinear_arith)
        requires width >= 0, height >= 0;
    if tiles > (width / TILE_SIDE) * (height / TILE_SIDE) {
        return None;
    }
    let palette = read_palette(d, TILED_HEADER_LEN, count);
    Some(paint(&indices, &palette, width, height, tiles * TILE_PIXELS, tiles))
}

/// Decodes a still image file held whole in `data`, first undoing its
/// container if it has one. Sixteen zero bytes open a linear image; anything
/// else is read as a tiled one. `None` when the file is neither.
pub fn decode_image(data: &[u8]) -> (r: Option<Image>)
    ensures
        r is None <==> image_output(data@) is None,
        r matches Some(img) ==> image_output(data@) == Some(
            (img.width as int, img.height as int, img.pixels@),
        ),
{
    let plain = match decompress(data) {
        Ok(v) => v,
        Err(_) => copy_range(data, 0, data.len()),
    };
    assert(plain@ =~= plain_bytes(data@));
    let d = plain.as_slice();
    if d.len() < 16 {
        return None;
    }
    let mut k: usize = 0;
    let mut zero = true;
    while k < 16
        invariant
            k <= 16,
            d@.len() >= 16,
            zero <==> forall|t: int| 0 <= t < k ==> d@[t] == 0,
        decreases 16 - k,
    {
        if d[k] != 0 {
            zero = false;
        }
        k = k + 1;
    }
    if zero {
        match decode_linear(d) {
            Some(pixels) => Some(Image { width: read_u16_le(d, 20), height: read_u16_le(d, 22), pixels }),
            None => None,
        }
    } else {
        match decode_tiled(d) {
            Some(pixels) => Some(Image { width: read_u16_le(d, 4), height: read_u16_le(d, 6), pixels }),
            None => None,
        }
    }
}

} // verus!
